use vstd::prelude::*;

use crate::digest::{hash_data, hash_pair, sha256_of};
use crate::error::MerkleError;
use crate::layout::MAX_LEAVES;

verus! {

/// Index value that stands for "no child".
pub const NONE_INDEX: u32 = 4294967295;

/// One node of the tree: a digest and the positions of its two children.
#[derive(Debug, Clone, Copy)]
pub struct Leaf {
    pub root: [u8; 32],
    pub child: [u32; 2],
}

/// A leaf seen as plain values.
pub struct LeafView {
    pub root: Seq<u8>,
    pub child: Seq<u32>,
}

impl View for Leaf {
    type V = LeafView;

    open spec fn view(&self) -> LeafView {
        LeafView { root: self.root@, child: self.child@ }
    }
}

/// The storage record: a flag, the current root, the positions of the two
/// top-level children and the leaves in the order they were inserted.
#[derive(Debug)]
pub struct MerkleTree {
    pub is_initialized: bool,
    pub root: [u8; 32],
    pub child: [u32; 2],
    pub leafs: Vec<Leaf>,
}

/// The storage record seen as plain values.
pub struct MerkleTreeView {
    pub is_initialized: bool,
    pub root: Seq<u8>,
    pub child: Seq<u32>,
    pub leafs: Seq<LeafView>,
}

impl View for MerkleTree {
    type V = MerkleTreeView;

    open spec fn view(&self) -> MerkleTreeView {
        MerkleTreeView {
            is_initialized: self.is_initialized,
            root: self.root@,
            child: self.child@,
            leafs: self.leafs@.map_values(|l: Leaf| l@),
        }
    }
}

/// The all-zero digest that an empty record holds as its root.
pub open spec fn empty_root() -> Seq<u8> {
    Seq::new(32, |i: int| 0u8)
}

/// A data leaf: a digest with no children.
pub open spec fn data_leaf(h: Seq<u8>) -> LeafView {
    LeafView { root: h, child: seq![NONE_INDEX, NONE_INDEX] }
}

/// The record after a leaf with digest `h` is appended.
///
/// A leaf at an even position waits for its right sibling and leaves the
/// root alone. A leaf at an odd position completes a pair with the leaf just
/// before it: the root becomes the digest of the two digests, and the
/// top-level children point at the two leaves.
pub open spec fn appended(t: MerkleTreeView, h: Seq<u8>) -> MerkleTreeView {
    let n = t.leafs.len();
    let leafs = t.leafs.push(data_leaf(h));
    if n % 2 == 1 {
        MerkleTreeView {
            is_initialized: t.is_initialized,
            root: sha256_of(t.leafs[n - 1].root + h),
            child: seq![(n - 1) as u32, n as u32],
            leafs,
        }
    } else {
        MerkleTreeView { leafs, ..t }
    }
}

/// The links of a record built by insertions from a fresh record: every leaf
/// is a childless data leaf; with fewer than two leaves there are no
/// top-level children and the root is all zeros; otherwise the top-level
/// children are the last completed pair and the root is the digest of their
/// two digests.
pub open spec fn linked(t: MerkleTreeView) -> bool {
    let n = t.leafs.len();
    &&& forall|i: int| 0 <= i < n ==> (#[trigger] t.leafs[i]).child == seq![NONE_INDEX, NONE_INDEX]
    &&& if n < 2 {
        t.child == seq![NONE_INDEX, NONE_INDEX] && t.root == empty_root()
    } else {
        let c = if n % 2 == 0 { n - 2 } else { n - 3 };
        &&& t.child == seq![c as u32, (c + 1) as u32]
        &&& t.root == sha256_of(t.leafs[c].root + t.leafs[c + 1].root)
    }
}

/// What an insertion with digest `h` makes of the record `t`.
pub open spec fn insert_result(t: MerkleTreeView, h: Seq<u8>) -> (Result<(), MerkleError>, MerkleTreeView) {
    if !t.is_initialized {
        (Err(MerkleError::NotInitialized), t)
    } else if t.leafs.len() >= MAX_LEAVES {
        (Err(MerkleError::CapacityExceeded), t)
    } else {
        (Ok(()), appended(t, h))
    }
}

/// A structured insertion payload: the address of a parent record and a
/// 32-byte data item.
#[derive(Debug, Clone, Copy)]
pub struct InputData {
    pub parent: [u8; 32],
    pub data: [u8; 32],
}

impl MerkleTree {
    /// Leaf count within the capacity of the storage record.
    pub open spec fn wf(&self) -> bool {
        self.leafs.len() <= MAX_LEAVES
    }

    /// A record that has just been created: initialized, with the all-zero
    /// root, no children and no leaves.
    pub fn new() -> (r: MerkleTree)
        ensures
            r@.is_initialized,
            r@.root == empty_root(),
            r@.child == seq![NONE_INDEX, NONE_INDEX],
            r@.leafs.len() == 0,
            r.wf(),
            linked(r@),
    {
        let r = MerkleTree {
            is_initialized: true,
            root: [0u8; 32],
            child: [NONE_INDEX, NONE_INDEX],
            leafs: Vec::new(),
        };
        assert(r.root@ =~= empty_root());
        assert(r.child@ =~= seq![NONE_INDEX, NONE_INDEX]);
        r
    }

    /// Appends a leaf whose digest `h` has already been computed.
    ///
    /// Refuses an uninitialized record and a full one, and then changes
    /// nothing.
    pub fn insert_hash(&mut self, h: [u8; 32]) -> (r: Result<(), MerkleError>)
        ensures
            (r, final(self)@) == insert_result(old(self)@, h@),
            old(self).wf() ==> final(self).wf(),
            linked(old(self)@) ==> linked(final(self)@),
    {
        proof {
            if linked(self@) {
                lemma_insert_keeps_links(self@, h@);
            }
        }
        if !self.is_initialized {
            return Err(MerkleError::NotInitialized);
        }
        if self.leafs.len() >= MAX_LEAVES {
            return Err(MerkleError::CapacityExceeded);
        }
        let ghost before = self@;
        let n = self.leafs.len();
        self.leafs.push(Leaf { root: h, child: [NONE_INDEX, NONE_INDEX] });
        if n % 2 == 1 {
            let parent = hash_pair(&self.leafs[n - 1].root, &h);
            self.root = parent;
            self.child = [(n - 1) as u32, n as u32];
        }
        assert(self@.leafs =~= before.leafs.push(data_leaf(h@)));
        assert(self@.child =~= appended(before, h@).child);
        assert(self@ == appended(before, h@));
        Ok(())
    }

    /// Hashes `data` and appends it as a new leaf.
    ///
    /// Refuses an uninitialized record and a full one, and then changes
    /// nothing.
    pub fn add_leaf(&mut self, data: &[u8]) -> (r: Result<(), MerkleError>)
        ensures
            (r, final(self)@) == insert_result(old(self)@, sha256_of(data@)),
            old(self).wf() ==> final(self).wf(),
            linked(old(self)@) ==> linked(final(self)@),
    {
        let h = hash_data(data);
        proof {
            if linked(self@) {
                lemma_insert_keeps_links(self@, h@);
            }
        }
        self.insert_hash(h)
    }
}

/// Inserting into an initialized record that holds `MAX_LEAVES` leaves fails
/// with `CapacityExceeded` and leaves the leaves, the root and the children
/// as they were.
pub proof fn lemma_full_insert_unchanged(t: MerkleTreeView, h: Seq<u8>)
    requires
        t.is_initialized,
        t.leafs.len() == MAX_LEAVES,
    ensures
        insert_result(t, h).0 == Err::<(), MerkleError>(MerkleError::CapacityExceeded),
        insert_result(t, h).1.leafs == t.leafs,
        insert_result(t, h).1.root == t.root,
        insert_result(t, h).1.child == t.child,
{
}

/// After `d0` and then `d1` are inserted into an initialized empty record,
/// the root is the digest of the two leaf digests and the children are the
/// leaves at positions 0 and 1.
pub proof fn lemma_pair_completes_root(t: MerkleTreeView, d0: Seq<u8>, d1: Seq<u8>)
    requires
        t.is_initialized,
        t.leafs.len() == 0,
    ensures
        ({
            let (r0, t1) = insert_result(t, sha256_of(d0));
            let (r1, t2) = insert_result(t1, sha256_of(d1));
            &&& r0 is Ok && r1 is Ok
            &&& t2.leafs.len() == 2
            &&& t2.root == sha256_of(sha256_of(d0) + sha256_of(d1))
            &&& t2.child == seq![0u32, 1u32]
        }),
{
    let t1 = insert_result(t, sha256_of(d0)).1;
    assert(t1.leafs[0].root == sha256_of(d0));
}

/// After one item is inserted into an initialized empty record, the record
/// holds one leaf and its root is unchanged: the new leaf waits for a
/// sibling.
pub proof fn lemma_single_leaf_dangles(t: MerkleTreeView, d0: Seq<u8>)
    requires
        t.is_initialized,
        t.leafs.len() == 0,
    ensures
        ({
            let (r0, t1) = insert_result(t, sha256_of(d0));
            &&& r0 is Ok
            &&& t1.leafs == seq![data_leaf(sha256_of(d0))]
            &&& t1.root == t.root
            &&& t1.child == t.child
        }),
{
    let t1 = insert_result(t, sha256_of(d0)).1;
    assert(t1.leafs =~= seq![data_leaf(sha256_of(d0))]);
}

/// Insertion keeps the links: a record built by insertions from a fresh
/// record stays so after one more insertion, accepted or refused.
pub proof fn lemma_insert_keeps_links(t: MerkleTreeView, h: Seq<u8>)
    requires
        linked(t),
    ensures
        linked(insert_result(t, h).1),
{
    let (r, t2) = insert_result(t, h);
    if r is Ok {
        let n = t.leafs.len();
        assert(t2.leafs[n as int] == data_leaf(h));
        assert forall|i: int| 0 <= i < n + 1 implies (#[trigger] t2.leafs[i]).child == seq![
            NONE_INDEX,
            NONE_INDEX,
        ] by {
            if i < n {
                assert(t2.leafs[i] == t.leafs[i]);
            }
        }
        if n % 2 == 0 && n >= 2 {
            assert(t2.leafs[n - 2] == t.leafs[n - 2]);
            assert(t2.leafs[n - 1] == t.leafs[n - 1]);
        }
    }
}

} // verus!
