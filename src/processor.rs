use vstd::prelude::*;

use crate::address::{derive_address, is_system_program, same_key, storage_address_of, system_program_spec};
use crate::digest::{hash_data, sha256_of};
use crate::error::MerkleError;
use crate::layout::{
    decodable, decode, encode, from_le32, lemma_round_trip_with_rest, lemma_wf_view_valid, stored_count,
    MERKLE_TREE_SPACE,
};
use crate::tree::{empty_root, insert_result, MerkleTree, MerkleTreeView, NONE_INDEX};

verus! {

/// The references that a creation request carries.
#[derive(Debug, Clone, Copy)]
pub struct CreateRequest {
    /// The program that owns the storage.
    pub program_id: [u8; 32],
    /// The owner, who pays for the storage.
    pub signer_key: [u8; 32],
    /// Whether the owner signed the request.
    pub signer_is_signer: bool,
    /// The declared storage location.
    pub storage_key: [u8; 32],
    /// Whether the storage location may be written.
    pub storage_is_writable: bool,
    /// The declared allocation collaborator.
    pub system_program_key: [u8; 32],
}

/// The outcome of checking a creation request against the current storage
/// bytes: the bump of the storage address, or why the request is refused.
pub open spec fn create_check(req: CreateRequest, storage: Seq<u8>) -> Result<u8, MerkleError> {
    if !req.signer_is_signer {
        Err(MerkleError::MissingRequiredSignature)
    } else if req.system_program_key@ != system_program_spec() {
        Err(MerkleError::InvalidArgument)
    } else {
        match storage_address_of(req.signer_key@, req.program_id@) {
            None => Err(MerkleError::InvalidArgument),
            Some((address, bump)) => {
                if address != req.storage_key@ || !req.storage_is_writable {
                    Err(MerkleError::InvalidArgument)
                } else if storage.len() != 0 {
                    Err(MerkleError::AddressConflict)
                } else {
                    Ok(bump)
                }
            },
        }
    }
}

/// A record that has just been created.
pub open spec fn fresh_view() -> MerkleTreeView {
    MerkleTreeView {
        is_initialized: true,
        root: empty_root(),
        child: seq![NONE_INDEX, NONE_INDEX],
        leafs: seq![],
    }
}

/// `b` with its front replaced by `front`.
pub open spec fn overwrite_front(b: Seq<u8>, front: Seq<u8>) -> Seq<u8> {
    front + b.subrange(front.len() as int, b.len() as int)
}

/// The outcome of initializing the storage bytes `b`, and the bytes after it.
pub open spec fn init_result(b: Seq<u8>) -> (Result<(), MerkleError>, Seq<u8>) {
    if !decodable(b) {
        (Err(MerkleError::SerializationError), b)
    } else {
        (Ok(()), overwrite_front(b, encode(fresh_view())))
    }
}

/// The outcome of inserting a leaf with digest `h` into the record stored in
/// `b`, and the bytes after it.
pub open spec fn storage_insert_result(b: Seq<u8>, h: Seq<u8>) -> (Result<(), MerkleError>, Seq<u8>) {
    if !decodable(b) {
        (Err(MerkleError::SerializationError), b)
    } else {
        let (res, t) = insert_result(decode(b), h);
        if res is Err {
            (res, b)
        } else if encode(t).len() > b.len() {
            (Err(MerkleError::CapacityExceeded), b)
        } else {
            (Ok(()), overwrite_front(b, encode(t)))
        }
    }
}

/// The bytes that the allocation collaborator hands over: zeros.
pub open spec fn allocated_space() -> Seq<u8> {
    Seq::new(MERKLE_TREE_SPACE as nat, |i: int| 0u8)
}

/// The outcome of a creation request on the storage bytes `b`, and the bytes
/// after it: on success the storage is allocated and initialized.
pub open spec fn create_result(req: CreateRequest, b: Seq<u8>) -> (Result<u8, MerkleError>, Seq<u8>) {
    match create_check(req, b) {
        Err(e) => (Err(e), b),
        Ok(bump) => (Ok(bump), init_result(allocated_space()).1),
    }
}

fn write_front(data: &mut Vec<u8>, front: &Vec<u8>)
    requires
        front@.len() <= old(data)@.len(),
    ensures
        final(data)@ == overwrite_front(old(data)@, front@),
{
    let ghost start = data@;
    let mut i: usize = 0;
    while i < front.len()
        invariant
            i <= front@.len(),
            front@.len() <= start.len(),
            data@.len() == start.len(),
            forall|j: int| 0 <= j < i ==> data@[j] == front@[j],
            forall|j: int| i <= j < start.len() ==> data@[j] == start[j],
        decreases front@.len() - i,
    {
        data.set(i, front[i]);
        i = i + 1;
    }
    assert(data@ =~= overwrite_front(start, front@));
}

/// Checks a creation request: the owner signed, the allocation collaborator
/// is the system program, the declared storage location is the derived one
/// and may be written, and it holds no data yet. Gives the bump of the
/// storage address, with which the creation is signed.
pub fn validate_create(req: &CreateRequest, storage: &[u8]) -> (r: Result<u8, MerkleError>)
    ensures
        r == create_check(*req, storage@),
{
    if !req.signer_is_signer {
        return Err(MerkleError::MissingRequiredSignature);
    }
    if !is_system_program(&req.system_program_key) {
        return Err(MerkleError::InvalidArgument);
    }
    match derive_address(&req.signer_key, &req.program_id) {
        None => Err(MerkleError::InvalidArgument),
        Some((address, bump)) => {
            if !same_key(&address, &req.storage_key) || !req.storage_is_writable {
                Err(MerkleError::InvalidArgument)
            } else if storage.len() != 0 {
                Err(MerkleError::AddressConflict)
            } else {
                Ok(bump)
            }
        },
    }
}

/// Initializes freshly allocated storage: the record becomes initialized,
/// with the all-zero root, no children and no leaves. Bytes after the record
/// are left as they are.
///
/// Refuses bytes that do not hold a record, and then changes nothing.
pub fn initialize_storage(data: &mut Vec<u8>) -> (r: Result<(), MerkleError>)
    ensures
        (r, final(data)@) == init_result(old(data)@),
{
    match MerkleTree::deserialize(data.as_slice()) {
        Err(e) => Err(e),
        Ok(_) => {
            let t = MerkleTree::new();
            assert(t@.leafs =~= fresh_view().leafs);
            assert(t@ == fresh_view());
            let bytes = t.serialize();
            proof {
                lemma_wf_view_valid(&t);
                lemma_round_trip_with_rest(t@, seq![]);
            }
            write_front(data, &bytes);
            Ok(())
        },
    }
}

/// Inserts a leaf whose digest `h` has already been computed into the record
/// stored in `data`, and stores the record again.
///
/// Refuses bytes that do not hold a record, an uninitialized or full record,
/// and a record that would outgrow `data`; then `data` is left as it was.
pub fn insert_hash_into_storage(data: &mut Vec<u8>, h: [u8; 32]) -> (r: Result<(), MerkleError>)
    ensures
        (r, final(data)@) == storage_insert_result(old(data)@, h@),
{
    let mut t = match MerkleTree::deserialize(data.as_slice()) {
        Err(e) => {
            return Err(e);
        },
        Ok(t) => t,
    };
    match t.insert_hash(h) {
        Err(e) => {
            return Err(e);
        },
        Ok(()) => {},
    }
    let bytes = t.serialize();
    if bytes.len() > data.len() {
        return Err(MerkleError::CapacityExceeded);
    }
    write_front(data, &bytes);
    Ok(())
}

/// Hashes `payload`, inserts it as a leaf into the record stored in `data`,
/// and stores the record again.
///
/// Refuses bytes that do not hold a record, an uninitialized or full record,
/// and a record that would outgrow `data`; then `data` is left as it was.
pub fn insert_into_storage(data: &mut Vec<u8>, payload: &[u8]) -> (r: Result<(), MerkleError>)
    ensures
        (r, final(data)@) == storage_insert_result(old(data)@, sha256_of(payload@)),
{
    let h = hash_data(payload);
    insert_hash_into_storage(data, h)
}

proof fn lemma_allocated_space_decodable()
    ensures
        decodable(allocated_space()),
        allocated_space().len() == MERKLE_TREE_SPACE,
{
    let b = allocated_space();
    assert(b.subrange(41, 45) =~= seq![0u8, 0u8, 0u8, 0u8]);
    assert(from_le32(seq![0u8, 0u8, 0u8, 0u8]) == 0);
    assert(stored_count(b) == 0);
}

/// Handles a creation request on the storage bytes `storage`: checks it,
/// takes the zeroed space that the allocation collaborator hands over, and
/// initializes the record in it. Gives the bump of the storage address.
///
/// On a refused request `storage` is left as it was.
pub fn process_instruction(req: &CreateRequest, storage: &mut Vec<u8>) -> (r: Result<u8, MerkleError>)
    ensures
        (r, final(storage)@) == create_result(*req, old(storage)@),
{
    let bump = match validate_create(req, storage.as_slice()) {
        Err(e) => {
            return Err(e);
        },
        Ok(bump) => bump,
    };
    let mut space: Vec<u8> = Vec::new();
    let mut i: usize = 0;
    while i < MERKLE_TREE_SPACE
        invariant
            i <= MERKLE_TREE_SPACE,
            space@ == Seq::new(i as nat, |k: int| 0u8),
        decreases MERKLE_TREE_SPACE - i,
    {
        space.push(0u8);
        i = i + 1;
        assert(space@ =~= Seq::new(i as nat, |k: int| 0u8));
    }
    proof {
        lemma_allocated_space_decodable();
        assert(space@ =~= allocated_space());
    }
    let init = initialize_storage(&mut space);
    assert(init is Ok);
    *storage = space;
    Ok(bump)
}

/// Creating the storage of an owner a second time is refused, whatever the
/// second signed request says of the allocation collaborator or of the
/// storage's writability, and the stored bytes stay as the first creation
/// left them.
pub proof fn lemma_second_create_refused(req: CreateRequest, again: CreateRequest, b: Seq<u8>)
    requires
        create_result(req, b).0 is Ok,
        again.signer_is_signer,
        again.signer_key == req.signer_key,
        again.program_id == req.program_id,
        again.storage_key == req.storage_key,
    ensures
        ({
            let stored = create_result(req, b).1;
            let (r, after) = create_result(again, stored);
            &&& r == Err::<u8, MerkleError>(MerkleError::AddressConflict) || r == Err::<u8, MerkleError>(
                MerkleError::InvalidArgument,
            )
            &&& after == stored
        }),
{
    lemma_allocated_space_decodable();
    let f = fresh_view();
    assert(f.root.len() == 32);
    assert(f.child.len() == 2);
    lemma_round_trip_with_rest(f, seq![]);
    let stored = create_result(req, b).1;
    assert(stored.len() == MERKLE_TREE_SPACE);
}

} // verus!
