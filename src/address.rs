//! Deterministic addressing: where an owner's record lives, and how a stored
//! bump is checked against that place.
use anchor_lang::solana_program::pubkey::Pubkey;
use vstd::prelude::*;

verus! {

/// The address that `Pubkey::create_program_address` computes from `seeds`
/// under `program`, or `None` where it refuses them (the hash lies on the
/// curve, or the seeds are too many or too long).
pub uninterp spec fn pda_of(seeds: Seq<Seq<u8>>, program: Seq<u8>) -> Option<Seq<u8>>;

/// The namespace tag that opens every record's seeds: the bytes of "user".
pub open spec fn user_tag() -> Seq<u8> {
    seq![117u8, 115u8, 101u8, 114u8]
}

/// The seeds `[tag, owner, [bump]]`.
pub open spec fn seeds_of(tag: Seq<u8>, owner: Seq<u8>, bump: u8) -> Seq<Seq<u8>> {
    seq![tag, owner, seq![bump]]
}

/// The seeds of `owner`'s record, the bump seed last.
pub open spec fn record_seeds(owner: Seq<u8>, bump: u8) -> Seq<Seq<u8>> {
    seeds_of(user_tag(), owner, bump)
}

/// The address that `owner`'s seeds give with `bump`, if any.
pub open spec fn address_with_bump(owner: Seq<u8>, bump: u8, program: Seq<u8>) -> Option<Seq<u8>> {
    pda_of(record_seeds(owner, bump), program)
}

/// `bump` is the one a downward search from 255 settles on: it gives an
/// address, and no larger bump does.
pub open spec fn is_canonical_bump(owner: Seq<u8>, bump: u8, program: Seq<u8>) -> bool {
    &&& 1 <= bump
    &&& address_with_bump(owner, bump, program) is Some
    &&& forall|b: u8| bump < b ==> (#[trigger] address_with_bump(owner, b, program)) is None
}

/// Whether some bump gives `owner` an address at all.
pub open spec fn has_address(owner: Seq<u8>, program: Seq<u8>) -> bool {
    exists|b: u8| 1 <= b && (#[trigger] address_with_bump(owner, b, program)) is Some
}

/// The canonical bump of `owner` (meaningful where `has_address` holds).
pub open spec fn canonical_bump(owner: Seq<u8>, program: Seq<u8>) -> u8 {
    choose|b: u8| is_canonical_bump(owner, b, program)
}

/// The address of `owner`'s record and its canonical bump, or `None` where no
/// bump gives an address.
pub open spec fn derived(owner: Seq<u8>, program: Seq<u8>) -> Option<(Seq<u8>, u8)> {
    if has_address(owner, program) {
        let b = canonical_bump(owner, program);
        Some((address_with_bump(owner, b, program)->Some_0, b))
    } else {
        None
    }
}

/// At most one bump is canonical for an owner.
pub proof fn lemma_canonical_bump_unique(owner: Seq<u8>, b1: u8, b2: u8, program: Seq<u8>)
    requires
        is_canonical_bump(owner, b1, program),
        is_canonical_bump(owner, b2, program),
    ensures
        b1 == b2,
{
    if b1 < b2 {
        assert(address_with_bump(owner, b2, program) is None);
    } else if b2 < b1 {
        assert(address_with_bump(owner, b1, program) is None);
    }
}

/// Where some bump gives an address, the largest such bump is canonical, and
/// `derived` names it.
pub proof fn lemma_derived_is_canonical(owner: Seq<u8>, program: Seq<u8>)
    requires
        has_address(owner, program),
    ensures
        is_canonical_bump(owner, canonical_bump(owner, program), program),
        derived(owner, program) == Some(
            (address_with_bump(owner, canonical_bump(owner, program), program)->Some_0,
            canonical_bump(owner, program)),
        ),
{
    let b0 = choose|b: u8| 1 <= b && (#[trigger] address_with_bump(owner, b, program)) is Some;
    let best = lemma_largest_bump(owner, program, b0, b0);
    assert(is_canonical_bump(owner, best, program));
}

/// Scanning upward from `k`, with `best` the largest bump up to `k` that
/// gives an address, finds the largest bump of all that does.
proof fn lemma_largest_bump(owner: Seq<u8>, program: Seq<u8>, best: u8, k: u8) -> (r: u8)
    requires
        1 <= best <= k,
        address_with_bump(owner, best, program) is Some,
        forall|b: u8| best < b <= k ==> (#[trigger] address_with_bump(owner, b, program)) is None,
    ensures
        is_canonical_bump(owner, r, program),
    decreases 255 - k,
{
    if k == 255 {
        best
    } else {
        let next = (k + 1) as u8;
        if address_with_bump(owner, next, program) is Some {
            lemma_largest_bump(owner, program, next, next)
        } else {
            lemma_largest_bump(owner, program, best, next)
        }
    }
}

/// A record's place is the address that its owner's canonical bump gives.
pub proof fn lemma_canonical_gives_derived(owner: Seq<u8>, bump: u8, program: Seq<u8>)
    requires
        is_canonical_bump(owner, bump, program),
    ensures
        derived(owner, program) == Some((address_with_bump(owner, bump, program)->Some_0, bump)),
{
    assert(has_address(owner, program));
    lemma_derived_is_canonical(owner, program);
    lemma_canonical_bump_unique(owner, bump, canonical_bump(owner, program), program);
}

/// Relies on `Pubkey::create_program_address`: one hash of the seeds
/// `[tag, owner, [bump]]` with `program`, `Ok` with the address unless that
/// hash lies on the curve or a seed is too long.
#[verifier::external_body]
fn create_address(tag: &[u8], owner: &[u8; 32], bump: u8, program: &[u8; 32]) -> (r: Option<[u8; 32]>)
    ensures
        r is None ==> pda_of(seeds_of(tag@, owner@, bump), program@) is None,
        r matches Some(a) ==> pda_of(seeds_of(tag@, owner@, bump), program@) == Some(a@),
{
    let program_key = Pubkey::new_from_array(*program);
    match Pubkey::create_program_address(&[tag, &owner[..], &[bump]], &program_key) {
        Ok(key) => Some(key.to_bytes()),
        Err(_) => None,
    }
}

/// Relies on `Pubkey::try_find_program_address`: it calls
/// `create_program_address` with the bump seeds 255, 254, ..., 1 appended and
/// returns the first address found with its bump, or `None` when none is
/// found (another refusal than an on-curve hash also ends the search, but
/// such a refusal does not depend on the bump).
#[verifier::external_body]
fn find_address(tag: &[u8], owner: &[u8; 32], program: &[u8; 32]) -> (r: Option<([u8; 32], u8)>)
    ensures
        r is None ==> forall|b: u8|
            1 <= b ==> (#[trigger] pda_of(seeds_of(tag@, owner@, b), program@)) is None,
        r matches Some((a, bump)) ==> {
            &&& 1 <= bump
            &&& pda_of(seeds_of(tag@, owner@, bump), program@) == Some(a@)
            &&& forall|b: u8|
                bump < b ==> (#[trigger] pda_of(seeds_of(tag@, owner@, b), program@)) is None
        },
{
    let program_key = Pubkey::new_from_array(*program);
    match Pubkey::try_find_program_address(&[tag, &owner[..]], &program_key) {
        Some((key, bump)) => Some((key.to_bytes(), bump)),
        None => None,
    }
}

/// The namespace tag as bytes.
fn user_tag_bytes() -> (r: [u8; 4])
    ensures
        r@ == user_tag(),
{
    let r: [u8; 4] = [117u8, 115u8, 101u8, 114u8];
    assert(r@ =~= user_tag());
    r
}

/// Finds the address of `owner`'s record under `program` and its canonical
/// bump; `None` only where no bump gives an address.
pub fn derive_address(owner: &[u8; 32], program: &[u8; 32]) -> (r: Option<([u8; 32], u8)>)
    ensures
        r is None <==> derived(owner@, program@) is None,
        r matches Some((a, b)) ==> derived(owner@, program@) == Some((a@, b)),
        r matches Some((a, b)) ==> is_canonical_bump(owner@, b, program@),
{
    let tag = user_tag_bytes();
    let r = find_address(&tag, owner, program);
    match r {
        Some((a, b)) => {
            proof {
                lemma_canonical_gives_derived(owner@, b, program@);
            }
        },
        None => {},
    }
    r
}

/// Whether `bump` reproduces `address` for `owner` under `program`: one hash,
/// no search.
pub fn verify_address(owner: &[u8; 32], bump: u8, program: &[u8; 32], address: &[u8; 32]) -> (r: bool)
    ensures
        r == (address_with_bump(owner@, bump, program@) == Some(address@)),
{
    let tag = user_tag_bytes();
    let found = create_address(&tag, owner, bump, program);
    match found {
        Some(a) => same_key(&a, address),
        None => false,
    }
}

/// Byte-wise equality of two keys.
pub fn same_key(a: &[u8; 32], b: &[u8; 32]) -> (r: bool)
    ensures
        r == (a@ == b@),
{
    let mut i: usize = 0;
    while i < 32
        invariant
            0 <= i <= 32,
            forall|j: int| 0 <= j < i ==> a@[j] == b@[j],
        decreases 32 - i,
    {
        if a[i] != b[i] {
            return false;
        }
        i = i + 1;
    }
    assert(a@ =~= b@);
    true
}

} // verus!
