use vstd::prelude::*;

verus! {

/// Domain constant of the storage address: the bytes of `"merkle"`.
pub const PREFIX_PDA: [u8; 6] = [109, 101, 114, 107, 108, 101];

/// The program-derived address and bump for the seeds `prefix` and `owner`
/// under the program `program_id`, or `None` where no bump gives an address
/// off the curve.
pub uninterp spec fn program_address_of(prefix: Seq<u8>, owner: Seq<u8>, program_id: Seq<u8>) -> Option<(Seq<u8>, u8)>;

/// An address and bump seen as plain values.
pub open spec fn found_view(r: Option<([u8; 32], u8)>) -> Option<(Seq<u8>, u8)> {
    match r {
        Some((a, bump)) => Some((a@, bump)),
        None => None,
    }
}

/// The storage address and bump of `owner` under the program `program_id`.
pub open spec fn storage_address_of(owner: Seq<u8>, program_id: Seq<u8>) -> Option<(Seq<u8>, u8)> {
    program_address_of(PREFIX_PDA@, owner, program_id)
}

/// The identifier of the system program: 32 zero bytes.
pub open spec fn system_program_spec() -> Seq<u8> {
    Seq::new(32, |i: int| 0u8)
}

/// Relies on `solana_program::pubkey::Pubkey::try_find_program_address`:
/// deterministic in the seeds and the program id; `None` where no bump gives
/// an address off the curve. It does not panic for two seeds of at most 32
/// bytes each.
#[verifier::external_body]
fn find_program_address(prefix: &[u8], owner: &[u8; 32], program_id: &[u8; 32]) -> (r: Option<([u8; 32], u8)>)
    requires
        prefix@.len() <= 32,
    ensures
        found_view(r) == program_address_of(prefix@, owner@, program_id@),
{
    let program = solana_program::pubkey::Pubkey::new_from_array(*program_id);
    solana_program::pubkey::Pubkey::try_find_program_address(&[prefix, owner], &program).map(
        |(a, bump)| (a.to_bytes(), bump),
    )
}

/// Relies on `solana_program::system_program::ID`, which is
/// `"11111111111111111111111111111111"` in base58, that is 32 zero bytes.
#[verifier::external_body]
fn system_program_id() -> (r: [u8; 32])
    ensures
        r@ == system_program_spec(),
{
    solana_program::system_program::ID.to_bytes()
}

/// Whether `key` is the identifier of the system program.
pub fn is_system_program(key: &[u8; 32]) -> (r: bool)
    ensures
        r == (key@ == system_program_spec()),
{
    let id = system_program_id();
    let mut i: usize = 0;
    while i < 32
        invariant
            i <= 32,
            id@ == system_program_spec(),
            forall|j: int| 0 <= j < i ==> key@[j] == id@[j],
        decreases 32 - i,
    {
        if key[i] != id[i] {
            return false;
        }
        i = i + 1;
    }
    assert(key@ =~= id@);
    true
}

/// Whether two keys hold the same bytes.
pub fn same_key(a: &[u8; 32], b: &[u8; 32]) -> (r: bool)
    ensures
        r == (a@ == b@),
{
    let mut i: usize = 0;
    while i < 32
        invariant
            i <= 32,
            forall|j: int| 0 <= j < i ==> a@[j] == b@[j],
        decreases 32 - i,
    {
        if a[i] != b[i] {
            return false;
        }
        i = i + 1;
    }
    assert(a@ =~= b@);
    true
}

/// The storage address of `owner` and its bump, derived from the domain
/// constant and the owner under the program `program_id`.
pub fn derive_address(owner: &[u8; 32], program_id: &[u8; 32]) -> (r: Option<([u8; 32], u8)>)
    ensures
        found_view(r) == storage_address_of(owner@, program_id@),
{
    let prefix = PREFIX_PDA;
    find_program_address(prefix.as_slice(), owner, program_id)
}

/// Derivation is a function of its inputs: two derivations for the same
/// owner and program give the same address and bump.
pub proof fn lemma_derivation_deterministic(
    owner: [u8; 32],
    program_id: [u8; 32],
    r1: Option<([u8; 32], u8)>,
    r2: Option<([u8; 32], u8)>,
)
    requires
        found_view(r1) == storage_address_of(owner@, program_id@),
        found_view(r2) == storage_address_of(owner@, program_id@),
    ensures
        r1 == r2,
{
    if let (Some((a1, b1)), Some((a2, b2))) = (r1, r2) {
        assert(a1@ == a2@);
        assert(a1 =~= a2);
    }
}

} // verus!
