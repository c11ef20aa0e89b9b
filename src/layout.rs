use vstd::prelude::*;

use crate::error::MerkleError;
use crate::tree::{Leaf, LeafView, MerkleTree, MerkleTreeView};

verus! {

/// Size of the initialization flag.
pub const INITIALIZED_BYTES: usize = 1;

/// Size of the root digest.
pub const ROOT_HASH_BYTES: usize = 32;

/// Size of the two top-level child indices.
pub const CHILD_BYTES: usize = 8;

/// Size of one stored leaf: a digest and two child indices.
pub const LEAF_BYTES: usize = 40;

/// Size of the length prefix of the leaf region.
pub const VEC_LENGTH: usize = 4;

/// Room reserved for the leaf region: 1024 bytes and one more leaf.
pub const VEC_STORAGE: usize = 1064;

/// Size of the storage buffer that is allocated for a record: flag, root,
/// children, one spare leaf and the leaf region.
pub const MERKLE_TREE_SPACE: usize = 1145;

/// Bytes in front of the first stored leaf.
pub const HEADER_BYTES: usize = 45;

/// Most leaves that a storage buffer of `MERKLE_TREE_SPACE` bytes holds.
pub const MAX_LEAVES: usize = 27;

/// A `u32` as four little-endian bytes.
pub open spec fn le32(x: u32) -> Seq<u8> {
    seq![
        (x % 256) as u8,
        ((x / 256) % 256) as u8,
        ((x / 65536) % 256) as u8,
        (x / 16777216) as u8,
    ]
}

/// The `u32` that four little-endian bytes stand for.
pub open spec fn from_le32(b: Seq<u8>) -> u32 {
    (b[0] as int + b[1] as int * 256 + b[2] as int * 65536 + b[3] as int * 16777216) as u32
}

/// A stored leaf: its digest, then its two child indices.
pub open spec fn encode_leaf(l: LeafView) -> Seq<u8> {
    l.root + le32(l.child[0]) + le32(l.child[1])
}

/// The leaves, one after the other, in order.
pub open spec fn encode_leaves(s: Seq<LeafView>) -> Seq<u8>
    decreases s.len(),
{
    if s.len() == 0 {
        seq![]
    } else {
        encode_leaves(s.drop_last()) + encode_leaf(s.last())
    }
}

/// The fields in front of the leaves: flag, root, children, leaf count.
pub open spec fn encode_header(t: MerkleTreeView) -> Seq<u8> {
    seq![if t.is_initialized { 1u8 } else { 0u8 }] + t.root + le32(t.child[0]) + le32(t.child[1])
        + le32(t.leafs.len() as u32)
}

/// The stored form of a record.
pub open spec fn encode(t: MerkleTreeView) -> Seq<u8> {
    encode_header(t) + encode_leaves(t.leafs)
}

/// The leaf count that a stored record declares.
pub open spec fn stored_count(b: Seq<u8>) -> int {
    from_le32(b.subrange(41, 45)) as int
}

/// Whether the bytes start with a stored record: a flag of 0 or 1, a leaf
/// count within capacity, and all the declared leaves. Bytes after the last
/// leaf are free space.
pub open spec fn decodable(b: Seq<u8>) -> bool {
    &&& b.len() >= HEADER_BYTES
    &&& (b[0] == 0 || b[0] == 1)
    &&& stored_count(b) <= MAX_LEAVES
    &&& b.len() >= HEADER_BYTES + LEAF_BYTES * stored_count(b)
}

/// Leaf `i` of a stored record.
pub open spec fn decode_leaf(b: Seq<u8>, i: int) -> LeafView {
    let o = HEADER_BYTES + LEAF_BYTES * i;
    LeafView {
        root: b.subrange(o, o + 32),
        child: seq![from_le32(b.subrange(o + 32, o + 36)), from_le32(b.subrange(o + 36, o + 40))],
    }
}

/// The record that decodable bytes hold.
pub open spec fn decode(b: Seq<u8>) -> MerkleTreeView {
    MerkleTreeView {
        is_initialized: b[0] == 1,
        root: b.subrange(1, 33),
        child: seq![from_le32(b.subrange(33, 37)), from_le32(b.subrange(37, 41))],
        leafs: Seq::new(stored_count(b) as nat, |i: int| decode_leaf(b, i)),
    }
}

fn write_u32(buf: &mut Vec<u8>, x: u32)
    ensures
        final(buf)@ == old(buf)@ + le32(x),
{
    buf.push((x % 256) as u8);
    buf.push(((x / 256) % 256) as u8);
    buf.push(((x / 65536) % 256) as u8);
    buf.push((x / 16777216) as u8);
    assert(final(buf)@ =~= old(buf)@ + le32(x));
}

fn write_digest(buf: &mut Vec<u8>, d: &[u8; 32])
    ensures
        final(buf)@ == old(buf)@ + d@,
{
    let ghost start = buf@;
    let mut i: usize = 0;
    while i < 32
        invariant
            i <= 32,
            buf@ == start + d@.subrange(0, i as int),
        decreases 32 - i,
    {
        buf.push(d[i]);
        i = i + 1;
    }
    assert(d@.subrange(0, 32) =~= d@);
}

fn read_u32(b: &[u8], o: usize) -> (r: u32)
    requires
        o + 4 <= b@.len(),
    ensures
        r == from_le32(b@.subrange(o as int, o + 4)),
{
    let b0 = b[o] as u32;
    let b1 = b[o + 1] as u32;
    let b2 = b[o + 2] as u32;
    let b3 = b[o + 3] as u32;
    assert(b0 + b1 * 256 + b2 * 65536 + b3 * 16777216 <= 4294967295) by (nonlinear_arith)
        requires
            b0 <= 255,
            b1 <= 255,
            b2 <= 255,
            b3 <= 255,
    ;
    b0 + b1 * 256 + b2 * 65536 + b3 * 16777216
}

fn read_digest(b: &[u8], o: usize) -> (r: [u8; 32])
    requires
        o + 32 <= b@.len(),
    ensures
        r@ == b@.subrange(o as int, o + 32),
{
    let mut r = [0u8; 32];
    let n = b.len();
    let mut i: usize = 0;
    while i < 32
        invariant
            i <= 32,
            n == b@.len(),
            o + 32 <= b@.len(),
            r@.len() == 32,
            forall|j: int| 0 <= j < i ==> r@[j] == b@[o + j],
        decreases 32 - i,
    {
        r[i] = b[o + i];
        i = i + 1;
    }
    assert(r@ =~= b@.subrange(o as int, o + 32));
    r
}

proof fn lemma_encode_leaves_step(s: Seq<LeafView>, i: int)
    requires
        0 <= i < s.len(),
    ensures
        encode_leaves(s.take(i + 1)) == encode_leaves(s.take(i)) + encode_leaf(s[i]),
{
    assert(s.take(i + 1).drop_last() =~= s.take(i));
}

/// The constants describe one layout: the header is the flag, the root, the
/// children and the length prefix, and `MAX_LEAVES` is the number of whole
/// leaves that fit after the header in the allocated space.
pub proof fn lemma_layout_sizes()
    ensures
        HEADER_BYTES == INITIALIZED_BYTES + ROOT_HASH_BYTES + CHILD_BYTES + VEC_LENGTH,
        MERKLE_TREE_SPACE == INITIALIZED_BYTES + ROOT_HASH_BYTES + CHILD_BYTES + LEAF_BYTES
            + VEC_STORAGE,
        HEADER_BYTES + LEAF_BYTES * MAX_LEAVES <= MERKLE_TREE_SPACE,
        MERKLE_TREE_SPACE < HEADER_BYTES + LEAF_BYTES * (MAX_LEAVES + 1),
{
}

/// A record view whose fields have the sizes of the layout and whose leaf
/// count is within capacity.
pub open spec fn valid_view(t: MerkleTreeView) -> bool {
    &&& t.root.len() == 32
    &&& t.child.len() == 2
    &&& t.leafs.len() <= MAX_LEAVES
    &&& forall|i: int|
        0 <= i < t.leafs.len() ==> (#[trigger] t.leafs[i]).root.len() == 32 && t.leafs[i].child.len()
            == 2
}

/// Every well-formed record has a valid view.
pub proof fn lemma_wf_view_valid(t: &MerkleTree)
    requires
        t.wf(),
    ensures
        valid_view(t@),
{
    assert forall|i: int| 0 <= i < t@.leafs.len() implies (#[trigger] t@.leafs[i]).root.len() == 32
        && t@.leafs[i].child.len() == 2 by {
        assert(t@.leafs[i] == t.leafs@[i]@);
    }
}

/// Four little-endian bytes give back the `u32` they were written from.
pub proof fn lemma_le32_round_trip(x: u32)
    ensures
        le32(x).len() == 4,
        from_le32(le32(x)) == x,
{
    let b = le32(x);
    assert(b[0] as int == x as int % 256);
    assert(b[1] as int == (x as int / 256) % 256);
    assert(b[2] as int == (x as int / 65536) % 256);
    assert(b[3] as int == x as int / 16777216);
    let xi = x as int;
    assert(xi % 256 + ((xi / 256) % 256) * 256 + ((xi / 65536) % 256) * 65536 + (xi / 16777216)
        * 16777216 == xi) by (nonlinear_arith)
        requires
            0 <= xi < 4294967296,
    ;
}

proof fn lemma_encode_leaves_index(s: Seq<LeafView>, i: int)
    requires
        0 <= i < s.len(),
        forall|k: int|
            0 <= k < s.len() ==> (#[trigger] s[k]).root.len() == 32 && s[k].child.len() == 2,
    ensures
        encode_leaves(s).len() == LEAF_BYTES * s.len(),
        encode_leaves(s).subrange(LEAF_BYTES * i, LEAF_BYTES * i + LEAF_BYTES) == encode_leaf(s[i]),
    decreases s.len(),
{
    let p = s.drop_last();
    lemma_encode_leaves_len(s);
    if i < s.len() - 1 {
        lemma_encode_leaves_index(p, i);
        assert(encode_leaves(s).subrange(LEAF_BYTES * i, LEAF_BYTES * i + LEAF_BYTES)
            =~= encode_leaves(p).subrange(LEAF_BYTES * i, LEAF_BYTES * i + LEAF_BYTES));
    } else {
        lemma_encode_leaves_len(p);
        assert(encode_leaves(s).subrange(LEAF_BYTES * i, LEAF_BYTES * i + LEAF_BYTES)
            =~= encode_leaf(s[i]));
    }
}

proof fn lemma_encode_leaves_len(s: Seq<LeafView>)
    requires
        forall|k: int|
            0 <= k < s.len() ==> (#[trigger] s[k]).root.len() == 32 && s[k].child.len() == 2,
    ensures
        encode_leaves(s).len() == LEAF_BYTES * s.len(),
    decreases s.len(),
{
    if s.len() > 0 {
        let p = s.drop_last();
        assert forall|k: int| 0 <= k < p.len() implies (#[trigger] p[k]).root.len() == 32
            && p[k].child.len() == 2 by {
            assert(p[k] == s[k]);
        }
        lemma_encode_leaves_len(p);
    }
}

/// Reading back the stored form of a valid record gives the record itself.
pub proof fn lemma_round_trip(t: MerkleTreeView)
    requires
        valid_view(t),
    ensures
        decodable(encode(t)),
        decode(encode(t)) == t,
{
    lemma_round_trip_with_rest(t, seq![]);
    assert(encode(t) + seq![] =~= encode(t));
}

/// A valid record followed by any bytes reads back as the record, and its
/// stored form takes `HEADER_BYTES + LEAF_BYTES * n` bytes for `n` leaves.
pub proof fn lemma_round_trip_with_rest(t: MerkleTreeView, rest: Seq<u8>)
    requires
        valid_view(t),
    ensures
        encode(t).len() == HEADER_BYTES + LEAF_BYTES * t.leafs.len(),
        decodable(encode(t) + rest),
        decode(encode(t) + rest) == t,
{
    let b = encode(t) + rest;
    let h = encode_header(t);
    let n = t.leafs.len();
    lemma_encode_leaves_len(t.leafs);
    lemma_le32_round_trip(t.child[0]);
    lemma_le32_round_trip(t.child[1]);
    lemma_le32_round_trip(n as u32);
    assert(h.len() == HEADER_BYTES);
    assert(b.subrange(41, 45) =~= le32(n as u32));
    assert(b.subrange(33, 37) =~= le32(t.child[0]));
    assert(b.subrange(37, 41) =~= le32(t.child[1]));
    assert(b.subrange(1, 33) =~= t.root);
    assert(stored_count(b) == n);
    let d = decode(b);
    assert forall|i: int| 0 <= i < n implies #[trigger] d.leafs[i] == t.leafs[i] by {
        let l = t.leafs[i];
        let o = HEADER_BYTES + LEAF_BYTES * i;
        lemma_encode_leaves_index(t.leafs, i);
        let e = encode_leaves(t.leafs);
        assert(b.subrange(o, o + 40) =~= e.subrange(LEAF_BYTES * i, LEAF_BYTES * i + LEAF_BYTES));
        lemma_le32_round_trip(l.child[0]);
        lemma_le32_round_trip(l.child[1]);
        assert(b.subrange(o, o + 32) =~= l.root);
        let el = encode_leaf(l);
        assert(el.subrange(32, 36) =~= le32(l.child[0]));
        assert(el.subrange(36, 40) =~= le32(l.child[1]));
        assert(b.subrange(o + 32, o + 36) =~= el.subrange(32, 36));
        assert(b.subrange(o + 36, o + 40) =~= el.subrange(36, 40));
        assert(d.leafs[i].child =~= l.child);
    }
    assert(d.leafs =~= t.leafs);
    assert(d.child =~= t.child);
}

impl MerkleTree {
    /// The stored form of the record, `HEADER_BYTES + LEAF_BYTES * n` bytes
    /// for `n` leaves.
    pub fn serialize(&self) -> (r: Vec<u8>)
        requires
            self.wf(),
        ensures
            r@ == encode(self@),
    {
        let mut buf: Vec<u8> = Vec::new();
        buf.push(if self.is_initialized { 1u8 } else { 0u8 });
        write_digest(&mut buf, &self.root);
        write_u32(&mut buf, self.child[0]);
        write_u32(&mut buf, self.child[1]);
        write_u32(&mut buf, self.leafs.len() as u32);
        let ghost leaves = self@.leafs;
        assert(buf@ =~= encode_header(self@));
        assert(leaves.take(0) =~= Seq::<LeafView>::empty());
        let mut i: usize = 0;
        while i < self.leafs.len()
            invariant
                i <= self.leafs.len(),
                leaves == self@.leafs,
                buf@ == encode_header(self@) + encode_leaves(leaves.take(i as int)),
            decreases self.leafs.len() - i,
        {
            let ghost before = buf@;
            write_digest(&mut buf, &self.leafs[i].root);
            write_u32(&mut buf, self.leafs[i].child[0]);
            write_u32(&mut buf, self.leafs[i].child[1]);
            proof {
                lemma_encode_leaves_step(leaves, i as int);
                assert(buf@ =~= before + encode_leaf(leaves[i as int]));
            }
            i = i + 1;
        }
        assert(leaves.take(i as int) =~= leaves);
        buf
    }

    /// Reads a record from the front of `b`; bytes after its last leaf are
    /// ignored.
    ///
    /// Refuses bytes that do not start with a stored record.
    pub fn deserialize(b: &[u8]) -> (r: Result<MerkleTree, MerkleError>)
        ensures
            match r {
                Ok(t) => decodable(b@) && t@ == decode(b@) && t.wf(),
                Err(e) => !decodable(b@) && e == MerkleError::SerializationError,
            },
    {
        if b.len() < HEADER_BYTES {
            return Err(MerkleError::SerializationError);
        }
        if b[0] != 0 && b[0] != 1 {
            return Err(MerkleError::SerializationError);
        }
        let count = read_u32(b, 41) as usize;
        if count > MAX_LEAVES {
            return Err(MerkleError::SerializationError);
        }
        if b.len() < HEADER_BYTES + LEAF_BYTES * count {
            return Err(MerkleError::SerializationError);
        }
        let root = read_digest(b, 1);
        let c0 = read_u32(b, 33);
        let c1 = read_u32(b, 37);
        let mut leafs: Vec<Leaf> = Vec::new();
        let mut i: usize = 0;
        while i < count
            invariant
                i <= count,
                count == stored_count(b@),
                count <= MAX_LEAVES,
                b@.len() >= HEADER_BYTES + LEAF_BYTES * count,
                leafs@.len() == i,
                forall|k: int| 0 <= k < i ==> (#[trigger] leafs@[k])@ == decode_leaf(b@, k),
            decreases count - i,
        {
            let o = HEADER_BYTES + LEAF_BYTES * i;
            let root = read_digest(b, o);
            let l0 = read_u32(b, o + 32);
            let l1 = read_u32(b, o + 36);
            let leaf = Leaf { root, child: [l0, l1] };
            assert(leaf.child@ =~= decode_leaf(b@, i as int).child);
            leafs.push(leaf);
            i = i + 1;
        }
        let t = MerkleTree { is_initialized: b[0] == 1, root, child: [c0, c1], leafs };
        assert(t.child@ =~= decode(b@).child);
        assert(t@.leafs =~= decode(b@).leafs);
        Ok(t)
    }
}

} // verus!
