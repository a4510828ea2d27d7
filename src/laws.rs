//! Properties of the record lifecycle, stated over the outcomes of upsert
//! and delete.
use crate::address::{
    derived, is_canonical_bump, lemma_canonical_bump_unique, lemma_canonical_gives_derived,
    lemma_derived_is_canonical, has_address,
};
use crate::record::{space_for, RecordView, ZeroTrustError};
use crate::store::{delete_outcome, record_ok, records_ok, upsert_outcome};
use vstd::prelude::*;

verus! {

/// No owner has two records: in a well-formed store two records with the
/// same owner stand at the same address.
pub proof fn lemma_one_record_per_owner(
    m: Map<Seq<u8>, RecordView>,
    program: Seq<u8>,
    a1: Seq<u8>,
    a2: Seq<u8>,
)
    requires
        records_ok(m, program),
        m.contains_key(a1),
        m.contains_key(a2),
        m[a1].owner == m[a2].owner,
    ensures
        a1 == a2,
{
    assert(record_ok(a1, m[a1], program));
    assert(record_ok(a2, m[a2], program));
    lemma_canonical_bump_unique(m[a1].owner, m[a1].bump, m[a2].bump, program);
}

/// The derived bump of an owner that has an address is canonical.
proof fn lemma_derived_bump(owner: Seq<u8>, program: Seq<u8>)
    requires
        derived(owner, program) is Some,
    ensures
        is_canonical_bump(owner, derived(owner, program)->Some_0.1, program),
{
    assert(has_address(owner, program));
    lemma_derived_is_canonical(owner, program);
}

/// An upsert that succeeds leaves every record where it belongs.
pub proof fn lemma_upsert_keeps_records_ok(
    m: Map<Seq<u8>, RecordView>,
    program: Seq<u8>,
    signer: Seq<u8>,
    supplied: Seq<u8>,
    data_hash: Seq<u8>,
    uri: Seq<char>,
)
    requires
        records_ok(m, program),
        signer.len() == 32,
        data_hash.len() == 32,
    ensures
        upsert_outcome(m, program, signer, supplied, data_hash, uri) matches Ok(m1) ==> records_ok(
            m1,
            program,
        ),
{
    if derived(signer, program) is Some {
        lemma_derived_bump(signer, program);
        let address = derived(signer, program)->Some_0.0;
        if supplied == address && m.contains_key(address) {
            assert(record_ok(address, m[address], program));
        }
    }
}

/// Upserting twice for one owner leaves exactly one record of that owner,
/// holding the second hash and locator.
pub proof fn lemma_second_upsert_wins(
    m0: Map<Seq<u8>, RecordView>,
    program: Seq<u8>,
    owner: Seq<u8>,
    supplied: Seq<u8>,
    h1: Seq<u8>,
    u1: Seq<char>,
    h2: Seq<u8>,
    u2: Seq<char>,
)
    requires
        records_ok(m0, program),
        owner.len() == 32,
        h1.len() == 32,
        h2.len() == 32,
        upsert_outcome(m0, program, owner, supplied, h1, u1) is Ok,
        upsert_outcome(
            upsert_outcome(m0, program, owner, supplied, h1, u1)->Ok_0,
            program,
            owner,
            supplied,
            h2,
            u2,
        ) is Ok,
    ensures
        ({
            let m2 = upsert_outcome(
                upsert_outcome(m0, program, owner, supplied, h1, u1)->Ok_0,
                program,
                owner,
                supplied,
                h2,
                u2,
            )->Ok_0;
            &&& m2.contains_key(supplied)
            &&& m2[supplied].owner == owner
            &&& m2[supplied].data_hash == h2
            &&& m2[supplied].uri == u2
            &&& forall|a: Seq<u8>| #[trigger] m2.contains_key(a) && m2[a].owner == owner ==> a
                == supplied
        }),
{
    let m1 = upsert_outcome(m0, program, owner, supplied, h1, u1)->Ok_0;
    let m2 = upsert_outcome(m1, program, owner, supplied, h2, u2)->Ok_0;
    lemma_upsert_keeps_records_ok(m0, program, owner, supplied, h1, u1);
    lemma_upsert_keeps_records_ok(m1, program, owner, supplied, h2, u2);
    assert(m1.contains_key(supplied) && m1[supplied].owner == owner);
    assert forall|a: Seq<u8>| #[trigger] m2.contains_key(a) && m2[a].owner == owner implies a
        == supplied by {
        lemma_one_record_per_owner(m2, program, a, supplied);
    }
}

/// Re-issuing a successful upsert with the same arguments changes nothing
/// more.
pub proof fn lemma_upsert_idempotent(
    m0: Map<Seq<u8>, RecordView>,
    program: Seq<u8>,
    signer: Seq<u8>,
    supplied: Seq<u8>,
    data_hash: Seq<u8>,
    uri: Seq<char>,
)
    requires
        records_ok(m0, program),
        signer.len() == 32,
        data_hash.len() == 32,
        upsert_outcome(m0, program, signer, supplied, data_hash, uri) is Ok,
    ensures
        upsert_outcome(
            upsert_outcome(m0, program, signer, supplied, data_hash, uri)->Ok_0,
            program,
            signer,
            supplied,
            data_hash,
            uri,
        ) == upsert_outcome(m0, program, signer, supplied, data_hash, uri),
{
    let m1 = upsert_outcome(m0, program, signer, supplied, data_hash, uri)->Ok_0;
    lemma_upsert_keeps_records_ok(m0, program, signer, supplied, data_hash, uri);
    assert(record_ok(supplied, m1[supplied], program));
    assert(m1.insert(supplied, RecordView { data_hash, uri, ..m1[supplied] }) =~= m1);
}

/// An upsert by one signer never touches a record that another owns.
pub proof fn lemma_upsert_spares_other_owners(
    m0: Map<Seq<u8>, RecordView>,
    program: Seq<u8>,
    signer: Seq<u8>,
    supplied: Seq<u8>,
    data_hash: Seq<u8>,
    uri: Seq<char>,
    a: Seq<u8>,
)
    requires
        m0.contains_key(a),
        m0[a].owner != signer,
    ensures
        upsert_outcome(m0, program, signer, supplied, data_hash, uri) matches Ok(m1) ==> {
            &&& m1.contains_key(a)
            &&& m1[a] == m0[a]
        },
{
}

/// Deleting where no record is stored fails with `NotFound`.
pub proof fn lemma_delete_absent_not_found(
    m: Map<Seq<u8>, RecordView>,
    program: Seq<u8>,
    signer: Seq<u8>,
    supplied: Seq<u8>,
)
    requires
        !m.contains_key(supplied),
    ensures
        delete_outcome(m, program, signer, supplied) == Err::<
            (Map<Seq<u8>, RecordView>, nat),
            ZeroTrustError,
        >(ZeroTrustError::NotFound),
{
}

/// Deleting another owner's record fails with `NotAuthorized`.
pub proof fn lemma_delete_by_other_not_authorized(
    m: Map<Seq<u8>, RecordView>,
    program: Seq<u8>,
    signer: Seq<u8>,
    supplied: Seq<u8>,
)
    requires
        m.contains_key(supplied),
        m[supplied].owner != signer,
    ensures
        delete_outcome(m, program, signer, supplied) == Err::<
            (Map<Seq<u8>, RecordView>, nat),
            ZeroTrustError,
        >(ZeroTrustError::NotAuthorized),
{
}

/// After an owner deletes its record, an upsert by that owner at the same
/// address succeeds and makes a fresh record, sized for the new locator.
pub proof fn lemma_recreate_after_delete(
    m0: Map<Seq<u8>, RecordView>,
    program: Seq<u8>,
    owner: Seq<u8>,
    supplied: Seq<u8>,
    data_hash: Seq<u8>,
    uri: Seq<char>,
)
    requires
        records_ok(m0, program),
        delete_outcome(m0, program, owner, supplied) is Ok,
        space_for(uri) <= usize::MAX,
    ensures
        ({
            let m1 = delete_outcome(m0, program, owner, supplied)->Ok_0.0;
            upsert_outcome(m1, program, owner, supplied, data_hash, uri) == Ok::<
                Map<Seq<u8>, RecordView>,
                ZeroTrustError,
            >(
                m1.insert(
                    supplied,
                    RecordView {
                        owner,
                        data_hash,
                        uri,
                        bump: m0[supplied].bump,
                        space: space_for(uri),
                    },
                ),
            )
        }),
{
    assert(record_ok(supplied, m0[supplied], program));
    lemma_canonical_gives_derived(owner, m0[supplied].bump, program);
}

} // verus!
