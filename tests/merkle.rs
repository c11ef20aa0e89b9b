use merkle_store::address::{derive_address, is_system_program, PREFIX_PDA};
use merkle_store::digest::{hash_data, hash_pair};
use merkle_store::error::MerkleError;
use merkle_store::layout::{HEADER_BYTES, LEAF_BYTES, MAX_LEAVES, MERKLE_TREE_SPACE};
use merkle_store::processor::{
    initialize_storage, insert_hash_into_storage, insert_into_storage, process_instruction,
    validate_create, CreateRequest,
};
use merkle_store::tree::{InputData, Leaf, MerkleTree, NONE_INDEX};

const PROGRAM: [u8; 32] = [7u8; 32];
const OWNER: [u8; 32] = [1u8; 32];

fn hex32(s: &str) -> [u8; 32] {
    let mut out = [0u8; 32];
    for i in 0..32 {
        out[i] = u8::from_str_radix(&s[2 * i..2 * i + 2], 16).unwrap();
    }
    out
}

fn sha(data: &[u8]) -> [u8; 32] {
    solana_program::hash::hash(data).to_bytes()
}

fn sha_pair(a: &[u8; 32], b: &[u8; 32]) -> [u8; 32] {
    solana_program::hash::hashv(&[a, b]).to_bytes()
}

fn request_for(owner: [u8; 32]) -> CreateRequest {
    let (address, _) = derive_address(&owner, &PROGRAM).unwrap();
    CreateRequest {
        program_id: PROGRAM,
        signer_key: owner,
        signer_is_signer: true,
        storage_key: address,
        storage_is_writable: true,
        system_program_key: [0u8; 32],
    }
}

fn created_storage() -> Vec<u8> {
    let mut storage = Vec::new();
    process_instruction(&request_for(OWNER), &mut storage).unwrap();
    storage
}

fn fresh_tree() -> MerkleTree {
    MerkleTree::new()
}

fn same_tree(a: &MerkleTree, b: &MerkleTree) -> bool {
    a.is_initialized == b.is_initialized
        && a.root == b.root
        && a.child == b.child
        && a.leafs.len() == b.leafs.len()
        && a.leafs.iter().zip(b.leafs.iter()).all(|(x, y)| x.root == y.root && x.child == y.child)
}

#[test]
fn hash_of_known_input() {
    assert_eq!(
        hash_data(b"hello"),
        hex32("2cf24dba5fb0a30e26e83b2ac5b9e29e1b161e5c1fa7425e73043362938b9824")
    );
    assert_eq!(
        hash_data(b""),
        hex32("e3b0c44298fc1c149afbf4c8996fb92427ae41e4649b934ca495991b7852b855")
    );
}

#[test]
fn pair_hash_is_hash_of_concatenation() {
    let a = hash_data(b"hello");
    let b = hash_data(b"world");
    let mut joined = a.to_vec();
    joined.extend_from_slice(&b);
    assert_eq!(hash_pair(&a, &b), sha(&joined));
    assert_ne!(hash_pair(&a, &b), hash_pair(&b, &a));
}

#[test]
fn layout_sizes() {
    assert_eq!(MERKLE_TREE_SPACE, 1145);
    assert_eq!(HEADER_BYTES, 45);
    assert_eq!(LEAF_BYTES, 40);
    assert_eq!(MAX_LEAVES, 27);
    assert!(HEADER_BYTES + LEAF_BYTES * MAX_LEAVES <= MERKLE_TREE_SPACE);
    assert_eq!(PREFIX_PDA, *b"merkle");
}

#[test]
fn derive_address_matches_outside_derivation() {
    let (address, bump) = derive_address(&OWNER, &PROGRAM).unwrap();
    let program = solana_program::pubkey::Pubkey::new_from_array(PROGRAM);
    let (expected, expected_bump) =
        solana_program::pubkey::Pubkey::find_program_address(&[b"merkle", &OWNER], &program);
    assert_eq!(address, expected.to_bytes());
    assert_eq!(bump, expected_bump);
}

#[test]
fn distinct_owners_get_distinct_addresses() {
    let mut seen: Vec<[u8; 32]> = Vec::new();
    for k in 0u8..16 {
        let mut owner = [0u8; 32];
        owner[0] = k;
        owner[31] = k.wrapping_mul(37);
        let (address, _) = derive_address(&owner, &PROGRAM).unwrap();
        assert!(!seen.contains(&address));
        seen.push(address);
    }
}

#[test]
fn derivation_is_repeatable() {
    let first = derive_address(&OWNER, &PROGRAM);
    let second = derive_address(&OWNER, &PROGRAM);
    assert_eq!(first, second);
    let other_program = derive_address(&OWNER, &[8u8; 32]);
    assert_ne!(first, other_program);
}

#[test]
fn system_program_is_all_zero() {
    assert!(is_system_program(&[0u8; 32]));
    assert!(is_system_program(&solana_program::system_program::ID.to_bytes()));
    assert!(!is_system_program(&[1u8; 32]));
}

#[test]
fn new_record_is_initialized_and_empty() {
    let t = fresh_tree();
    assert!(t.is_initialized);
    assert_eq!(t.root, [0u8; 32]);
    assert_eq!(t.child, [NONE_INDEX, NONE_INDEX]);
    assert!(t.leafs.is_empty());
}

#[test]
fn single_leaf_dangles() {
    let mut t = fresh_tree();
    assert_eq!(t.add_leaf(b"hello"), Ok(()));
    assert_eq!(t.leafs.len(), 1);
    assert_eq!(t.leafs[0].root, sha(b"hello"));
    assert_eq!(t.leafs[0].child, [NONE_INDEX, NONE_INDEX]);
    assert_eq!(t.root, [0u8; 32]);
    assert_eq!(t.child, [NONE_INDEX, NONE_INDEX]);
}

#[test]
fn pair_sets_root_and_children() {
    let mut t = fresh_tree();
    t.add_leaf(b"d0").unwrap();
    t.add_leaf(b"d1").unwrap();
    assert_eq!(t.root, sha_pair(&sha(b"d0"), &sha(b"d1")));
    assert_eq!(t.child, [0, 1]);
}

#[test]
fn third_leaf_keeps_root_and_fourth_pairs() {
    let mut t = fresh_tree();
    for d in [&b"a"[..], b"b", b"c"] {
        t.add_leaf(d).unwrap();
    }
    assert_eq!(t.root, sha_pair(&sha(b"a"), &sha(b"b")));
    assert_eq!(t.child, [0, 1]);
    t.add_leaf(b"d").unwrap();
    assert_eq!(t.root, sha_pair(&sha(b"c"), &sha(b"d")));
    assert_eq!(t.child, [2, 3]);
    assert_eq!(t.leafs.len(), 4);
}

#[test]
fn empty_data_is_hashed_normally() {
    let mut t = fresh_tree();
    t.add_leaf(b"").unwrap();
    assert_eq!(
        t.leafs[0].root,
        hex32("e3b0c44298fc1c149afbf4c8996fb92427ae41e4649b934ca495991b7852b855")
    );
}

#[test]
fn insert_hash_uses_given_digest() {
    let mut t = fresh_tree();
    t.insert_hash([3u8; 32]).unwrap();
    t.insert_hash([4u8; 32]).unwrap();
    assert_eq!(t.leafs[0].root, [3u8; 32]);
    assert_eq!(t.root, sha_pair(&[3u8; 32], &[4u8; 32]));
}

#[test]
fn full_record_refuses_insert() {
    let mut t = fresh_tree();
    for k in 0..MAX_LEAVES {
        t.add_leaf(&[k as u8]).unwrap();
    }
    assert_eq!(t.leafs.len(), MAX_LEAVES);
    let before = MerkleTree {
        is_initialized: t.is_initialized,
        root: t.root,
        child: t.child,
        leafs: t.leafs.clone(),
    };
    assert_eq!(t.add_leaf(b"one more"), Err(MerkleError::CapacityExceeded));
    assert!(same_tree(&t, &before));
}

#[test]
fn uninitialized_record_refuses_insert() {
    let mut t = MerkleTree {
        is_initialized: false,
        root: [0u8; 32],
        child: [0, 0],
        leafs: Vec::new(),
    };
    assert_eq!(t.add_leaf(b"x"), Err(MerkleError::NotInitialized));
    assert!(t.leafs.is_empty());
}

#[test]
fn serialize_round_trip() {
    let mut t = fresh_tree();
    for d in [&b"x"[..], b"y", b"z"] {
        t.add_leaf(d).unwrap();
    }
    let bytes = t.serialize();
    assert_eq!(bytes.len(), HEADER_BYTES + LEAF_BYTES * 3);
    let back = MerkleTree::deserialize(&bytes).unwrap();
    assert!(same_tree(&t, &back));
}

#[test]
fn serialized_form_matches_borsh() {
    let mut t = fresh_tree();
    t.add_leaf(b"x").unwrap();
    t.add_leaf(b"y").unwrap();
    let leaves: Vec<([u8; 32], [u32; 2])> = t.leafs.iter().map(|l| (l.root, l.child)).collect();
    let expected = borsh::to_vec(&(t.is_initialized, t.root, t.child, leaves)).unwrap();
    assert_eq!(t.serialize(), expected);
}

#[test]
fn deserialize_ignores_trailing_space() {
    let mut t = fresh_tree();
    t.add_leaf(b"x").unwrap();
    let mut bytes = t.serialize();
    bytes.resize(MERKLE_TREE_SPACE, 9);
    let back = MerkleTree::deserialize(&bytes).unwrap();
    assert!(same_tree(&t, &back));
}

#[test]
fn deserialize_refuses_bad_bytes() {
    assert_eq!(
        MerkleTree::deserialize(&[0u8; 44]).err(),
        Some(MerkleError::SerializationError)
    );
    let mut bad_flag = vec![0u8; 45];
    bad_flag[0] = 2;
    assert_eq!(MerkleTree::deserialize(&bad_flag).err(), Some(MerkleError::SerializationError));
    let mut too_many = vec![0u8; MERKLE_TREE_SPACE * 2];
    too_many[41] = 28;
    assert_eq!(MerkleTree::deserialize(&too_many).err(), Some(MerkleError::SerializationError));
    let mut short = vec![0u8; 45 + 40];
    short[41] = 2;
    assert_eq!(MerkleTree::deserialize(&short).err(), Some(MerkleError::SerializationError));
    let zeros = vec![0u8; MERKLE_TREE_SPACE];
    let t = MerkleTree::deserialize(&zeros).unwrap();
    assert!(!t.is_initialized);
    assert!(t.leafs.is_empty());
}

#[test]
fn create_then_insert_scenario() {
    let mut storage = Vec::new();
    let bump = process_instruction(&request_for(OWNER), &mut storage).unwrap();
    assert_eq!(bump, derive_address(&OWNER, &PROGRAM).unwrap().1);
    assert_eq!(storage.len(), MERKLE_TREE_SPACE);
    let t = MerkleTree::deserialize(&storage).unwrap();
    assert!(t.is_initialized);
    assert_eq!(t.root, [0u8; 32]);
    assert!(t.leafs.is_empty());

    insert_into_storage(&mut storage, b"hello").unwrap();
    let t = MerkleTree::deserialize(&storage).unwrap();
    assert_eq!(t.leafs.len(), 1);
    assert_eq!(t.leafs[0].root, sha(b"hello"));
    assert_eq!(t.leafs[0].child, [NONE_INDEX, NONE_INDEX]);
    assert_eq!(t.root, [0u8; 32]);

    insert_into_storage(&mut storage, b"world").unwrap();
    let t = MerkleTree::deserialize(&storage).unwrap();
    assert_eq!(t.leafs.len(), 2);
    assert_eq!(t.root, sha_pair(&sha(b"hello"), &sha(b"world")));
    assert_eq!(t.child, [0, 1]);
    assert_eq!(storage.len(), MERKLE_TREE_SPACE);
}

#[test]
fn second_creation_is_refused() {
    let mut storage = created_storage();
    let before = storage.clone();
    assert_eq!(
        process_instruction(&request_for(OWNER), &mut storage),
        Err(MerkleError::AddressConflict)
    );
    assert_eq!(storage, before);
}

#[test]
fn creation_errors() {
    let mut storage = Vec::new();
    let mut req = request_for(OWNER);
    req.signer_is_signer = false;
    assert_eq!(
        process_instruction(&req, &mut storage),
        Err(MerkleError::MissingRequiredSignature)
    );

    let mut req = request_for(OWNER);
    req.system_program_key = [5u8; 32];
    assert_eq!(process_instruction(&req, &mut storage), Err(MerkleError::InvalidArgument));

    let mut req = request_for(OWNER);
    req.storage_key = request_for([2u8; 32]).storage_key;
    assert_eq!(process_instruction(&req, &mut storage), Err(MerkleError::InvalidArgument));

    let mut req = request_for(OWNER);
    req.storage_is_writable = false;
    assert_eq!(process_instruction(&req, &mut storage), Err(MerkleError::InvalidArgument));
    assert!(storage.is_empty());

    assert_eq!(
        validate_create(&request_for(OWNER), &[1u8]),
        Err(MerkleError::AddressConflict)
    );
}

#[test]
fn initialize_storage_sets_fresh_record() {
    let mut data = vec![0u8; MERKLE_TREE_SPACE];
    data[MERKLE_TREE_SPACE - 1] = 5;
    initialize_storage(&mut data).unwrap();
    assert_eq!(data.len(), MERKLE_TREE_SPACE);
    assert_eq!(data[0], 1);
    assert_eq!(data[MERKLE_TREE_SPACE - 1], 5);
    let t = MerkleTree::deserialize(&data).unwrap();
    assert!(same_tree(&t, &fresh_tree()));

    let mut short = vec![0u8; 10];
    assert_eq!(initialize_storage(&mut short), Err(MerkleError::SerializationError));
    assert_eq!(short, vec![0u8; 10]);
}

#[test]
fn insert_into_uninitialized_storage_is_refused() {
    let mut data = vec![0u8; MERKLE_TREE_SPACE];
    assert_eq!(insert_into_storage(&mut data, b"x"), Err(MerkleError::NotInitialized));
    assert_eq!(data, vec![0u8; MERKLE_TREE_SPACE]);
}

#[test]
fn storage_fills_to_capacity() {
    let mut storage = created_storage();
    for k in 0..MAX_LEAVES {
        insert_hash_into_storage(&mut storage, [k as u8; 32]).unwrap();
    }
    let before = storage.clone();
    assert_eq!(
        insert_into_storage(&mut storage, b"overflow"),
        Err(MerkleError::CapacityExceeded)
    );
    assert_eq!(storage, before);
}

#[test]
fn record_outgrowing_buffer_is_refused() {
    let mut data = MerkleTree::new().serialize();
    let before = data.clone();
    assert_eq!(insert_into_storage(&mut data, b"x"), Err(MerkleError::CapacityExceeded));
    assert_eq!(data, before);
}

#[test]
fn input_data_holds_fields() {
    let input = InputData { parent: [1u8; 32], data: [2u8; 32] };
    let copy = input;
    assert_eq!(copy.parent, [1u8; 32]);
    assert_eq!(copy.data, [2u8; 32]);
    let leaf = Leaf { root: copy.data, child: [NONE_INDEX, 0] };
    assert_eq!(leaf.child[0], u32::MAX);
}
