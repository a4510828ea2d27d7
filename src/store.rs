//! The record store: one slot per derived address, with upsert and delete.
use crate::address::{address_with_bump, derive_address, derived, is_canonical_bump, same_key, verify_address};
use crate::record::{
    space_for, DeleteUserData, RecordView, UpsertUserData, UserRecord, ZeroTrustError,
    RECORD_FIXED_SPACE,
};
use vstd::prelude::*;

verus! {

/// What a well-formed store holds at `address`: a record whose owner's
/// canonical bump reproduces `address`, with room for its locator.
pub open spec fn record_ok(address: Seq<u8>, r: RecordView, program: Seq<u8>) -> bool {
    &&& r.owner.len() == 32
    &&& r.data_hash.len() == 32
    &&& is_canonical_bump(r.owner, r.bump, program)
    &&& address_with_bump(r.owner, r.bump, program) == Some(address)
    &&& space_for(r.uri) <= r.space <= usize::MAX
}

/// Every record of `m` is where its owner's seeds put it.
pub open spec fn records_ok(m: Map<Seq<u8>, RecordView>, program: Seq<u8>) -> bool {
    forall|a: Seq<u8>| #[trigger] m.contains_key(a) ==> record_ok(a, m[a], program)
}

/// The records after `upsert` by `signer` naming `supplied`, or its error.
pub open spec fn upsert_outcome(
    m: Map<Seq<u8>, RecordView>,
    program: Seq<u8>,
    signer: Seq<u8>,
    supplied: Seq<u8>,
    data_hash: Seq<u8>,
    uri: Seq<char>,
) -> Result<Map<Seq<u8>, RecordView>, ZeroTrustError> {
    match derived(signer, program) {
        None => Err(ZeroTrustError::AddressMismatch),
        Some((address, bump)) => if supplied != address {
            Err(ZeroTrustError::AddressMismatch)
        } else if !m.contains_key(address) {
            if space_for(uri) > usize::MAX {
                Err(ZeroTrustError::CapacityExceeded)
            } else {
                Ok(
                    m.insert(
                        address,
                        RecordView { owner: signer, data_hash, uri, bump, space: space_for(uri) },
                    ),
                )
            }
        } else {
            let r = m[address];
            if r.owner != signer {
                Err(ZeroTrustError::NotAuthorized)
            } else if address_with_bump(signer, r.bump, program) != Some(address) {
                Err(ZeroTrustError::AddressMismatch)
            } else if space_for(uri) > r.space {
                Err(ZeroTrustError::CapacityExceeded)
            } else {
                Ok(m.insert(address, RecordView { data_hash, uri, ..r }))
            }
        },
    }
}

/// The records after `delete` by `signer` naming `supplied`, with the space
/// handed back to the signer, or its error.
pub open spec fn delete_outcome(
    m: Map<Seq<u8>, RecordView>,
    program: Seq<u8>,
    signer: Seq<u8>,
    supplied: Seq<u8>,
) -> Result<(Map<Seq<u8>, RecordView>, nat), ZeroTrustError> {
    if !m.contains_key(supplied) {
        Err(ZeroTrustError::NotFound)
    } else {
        let r = m[supplied];
        if r.owner != signer {
            Err(ZeroTrustError::NotAuthorized)
        } else if address_with_bump(signer, r.bump, program) != Some(supplied) {
            Err(ZeroTrustError::AddressMismatch)
        } else {
            Ok((m.remove(supplied), r.space))
        }
    }
}

struct Slot {
    address: [u8; 32],
    space: usize,
    record: UserRecord,
}

impl Slot {
    spec fn view(&self) -> RecordView {
        RecordView {
            owner: self.record.owner@,
            data_hash: self.record.data_hash@,
            uri: self.record.uri@,
            bump: self.record.bump,
            space: self.space as nat,
        }
    }
}

/// The records of one program, each at the address derived from its owner.
pub struct RecordStore {
    program_id: [u8; 32],
    slots: Vec<Slot>,
    records: Ghost<Map<Seq<u8>, RecordView>>,
}

impl View for RecordStore {
    type V = Map<Seq<u8>, RecordView>;

    closed spec fn view(&self) -> Map<Seq<u8>, RecordView> {
        self.records@
    }
}

impl RecordStore {
    /// The program whose addresses the store uses.
    pub closed spec fn program(&self) -> Seq<u8> {
        self.program_id@
    }

    /// The slots and the records agree, one slot per address.
    pub closed spec fn slots_agree(&self) -> bool {
        &&& forall|i: int|
            0 <= i < self.slots@.len() ==> {
                &&& self.records@.contains_key(#[trigger] self.slots@[i].address@)
                &&& self.records@[self.slots@[i].address@] == self.slots@[i].view()
            }
        &&& forall|i: int, j: int|
            0 <= i < self.slots@.len() && 0 <= j < self.slots@.len() && i != j
                ==> #[trigger] self.slots@[i].address@ != #[trigger] self.slots@[j].address@
        &&& forall|a: Seq<u8>|
            #[trigger] self.records@.contains_key(a) ==> exists|i: int|
                0 <= i < self.slots@.len() && #[trigger] self.slots@[i].address@ == a
    }

    /// The store is consistent and each record stands where it belongs.
    pub open spec fn wf(&self) -> bool {
        &&& self.slots_agree()
        &&& records_ok(self@, self.program())
    }

    /// An empty store for `program_id`.
    pub fn new(program_id: [u8; 32]) -> (r: RecordStore)
        ensures
            r.wf(),
            r@ == Map::<Seq<u8>, RecordView>::empty(),
            r.program() == program_id@,
    {
        RecordStore { program_id, slots: Vec::new(), records: Ghost(Map::empty()) }
    }

    /// The program whose addresses the store uses.
    pub fn program_id(&self) -> (r: [u8; 32])
        ensures
            r@ == self.program(),
    {
        self.program_id
    }

    fn find(&self, address: &[u8; 32]) -> (r: Option<usize>)
        requires
            self.slots_agree(),
        ensures
            r matches Some(i) ==> i < self.slots@.len() && self.slots@[i as int].address@
                == address@,
            r is None ==> !self@.contains_key(address@),
    {
        let mut i: usize = 0;
        while i < self.slots.len()
            invariant
                self.slots_agree(),
                i <= self.slots@.len(),
                forall|j: int| 0 <= j < i ==> #[trigger] self.slots@[j].address@ != address@,
            decreases self.slots@.len() - i,
        {
            if same_key(&self.slots[i].address, address) {
                return Some(i);
            }
            i = i + 1;
        }
        None
    }

    /// A copy of the record at `address`, if one is stored.
    pub fn get(&self, address: &[u8; 32]) -> (r: Option<UserRecord>)
        requires
            self.wf(),
        ensures
            r is None <==> !self@.contains_key(address@),
            r matches Some(rec) ==> {
                let v = self@[address@];
                &&& rec.owner@ == v.owner
                &&& rec.data_hash@ == v.data_hash
                &&& rec.uri@ == v.uri
                &&& rec.bump == v.bump
            },
    {
        match self.find(address) {
            None => None,
            Some(i) => {
                let s = &self.slots[i];
                Some(
                    UserRecord {
                        owner: s.record.owner,
                        data_hash: s.record.data_hash,
                        uri: s.record.uri.clone(),
                        bump: s.record.bump,
                    },
                )
            },
        }
    }

    /// The space allotted to the record at `address`, if one is stored.
    pub fn space_of(&self, address: &[u8; 32]) -> (r: Option<usize>)
        requires
            self.wf(),
        ensures
            r is None <==> !self@.contains_key(address@),
            r matches Some(n) ==> n == self@[address@].space,
    {
        match self.find(address) {
            None => None,
            Some(i) => Some(self.slots[i].space),
        }
    }

    /// The number of records stored.
    pub fn len(&self) -> (r: usize)
        requires
            self.wf(),
        ensures
            r == self@.len(),
    {
        proof {
            self.lemma_len();
        }
        self.slots.len()
    }

    proof fn lemma_len(&self)
        requires
            self.slots_agree(),
        ensures
            self@.len() == self.slots@.len(),
            self@.dom().finite(),
    {
        let addrs = Seq::new(self.slots@.len(), |i: int| self.slots@[i].address@);
        assert(addrs.no_duplicates()) by {
            assert forall|i: int, j: int| 0 <= i < addrs.len() && 0 <= j < addrs.len() && i != j
                implies addrs[i] != addrs[j] by {
                assert(self.slots@[i].address@ != self.slots@[j].address@);
            }
        }
        assert(self@.dom() =~= addrs.to_set()) by {
            assert forall|a: Seq<u8>| self@.dom().contains(a) implies addrs.to_set().contains(a) by {
                let i = choose|i: int| 0 <= i < self.slots@.len() && #[trigger] self.slots@[i].address@ == a;
                assert(addrs[i] == a);
            }
            assert forall|a: Seq<u8>| addrs.to_set().contains(a) implies self@.dom().contains(a) by {
                let i = choose|i: int| 0 <= i < addrs.len() && addrs[i] == a;
                assert(self.slots@[i].address@ == a);
            }
        }
        addrs.unique_seq_to_set();
    }

    fn push_slot(&mut self, slot: Slot)
        requires
            old(self).slots_agree(),
            !old(self)@.contains_key(slot.address@),
        ensures
            final(self).slots_agree(),
            final(self)@ == old(self)@.insert(slot.address@, slot.view()),
            final(self).program_id == old(self).program_id,
    {
        let ghost a = slot.address@;
        let ghost v = slot.view();
        let ghost n = self.slots@.len();
        self.slots.push(slot);
        self.records = Ghost(self.records@.insert(a, v));
        proof {
            assert forall|i: int| 0 <= i < n implies #[trigger] self.slots@[i].address@ != a by {
                assert(old(self).slots@[i] == self.slots@[i]);
            }
            assert forall|b: Seq<u8>| #[trigger] self.records@.contains_key(b) implies exists|i: int|
                0 <= i < self.slots@.len() && #[trigger] self.slots@[i].address@ == b by {
                if b == a {
                    assert(self.slots@[n as int].address@ == b);
                } else {
                    assert(old(self).records@.contains_key(b));
                    let i = choose|i: int| 0 <= i < old(self).slots@.len() && #[trigger] old(self).slots@[i].address@ == b;
                    assert(self.slots@[i].address@ == b);
                }
            }
        }
    }

    fn replace_slot(&mut self, i: usize, slot: Slot)
        requires
            old(self).slots_agree(),
            i < old(self).slots@.len(),
            slot.address@ == old(self).slots@[i as int].address@,
        ensures
            final(self).slots_agree(),
            final(self)@ == old(self)@.insert(slot.address@, slot.view()),
            final(self).program_id == old(self).program_id,
    {
        let ghost a = slot.address@;
        let ghost v = slot.view();
        self.slots.set(i, slot);
        self.records = Ghost(self.records@.insert(a, v));
        proof {
            assert forall|j: int| 0 <= j < self.slots@.len() && j != i implies #[trigger] self.slots@[j].address@ != a by {
                assert(old(self).slots@[j] == self.slots@[j]);
                assert(old(self).slots@[j].address@ != old(self).slots@[i as int].address@);
            }
            assert forall|b: Seq<u8>| #[trigger] self.records@.contains_key(b) implies exists|k: int|
                0 <= k < self.slots@.len() && #[trigger] self.slots@[k].address@ == b by {
                if b == a {
                    assert(self.slots@[i as int].address@ == b);
                } else {
                    let k = choose|k: int| 0 <= k < old(self).slots@.len() && #[trigger] old(self).slots@[k].address@ == b;
                    assert(self.slots@[k].address@ == b);
                }
            }
        }
    }

    fn remove_slot(&mut self, i: usize) -> (r: Slot)
        requires
            old(self).slots_agree(),
            i < old(self).slots@.len(),
        ensures
            final(self).slots_agree(),
            r.address@ == old(self).slots@[i as int].address@,
            r.view() == old(self)@[r.address@],
            final(self)@ == old(self)@.remove(r.address@),
            final(self).program_id == old(self).program_id,
    {
        let ghost a = self.slots@[i as int].address@;
        let r = self.slots.remove(i);
        self.records = Ghost(self.records@.remove(a));
        proof {
            let olds = old(self).slots@;
            assert forall|j: int| 0 <= j < self.slots@.len() implies {
                &&& self.records@.contains_key(#[trigger] self.slots@[j].address@)
                &&& self.records@[self.slots@[j].address@] == self.slots@[j].view()
            } by {
                let k = if j < i { j } else { j + 1 };
                assert(self.slots@[j] == olds[k]);
                assert(olds[k].address@ != olds[i as int].address@);
            }
            assert forall|j: int, l: int|
                0 <= j < self.slots@.len() && 0 <= l < self.slots@.len() && j != l
                implies #[trigger] self.slots@[j].address@ != #[trigger] self.slots@[l].address@ by {
                let kj = if j < i { j } else { j + 1 };
                let kl = if l < i { l } else { l + 1 };
                assert(self.slots@[j] == olds[kj]);
                assert(self.slots@[l] == olds[kl]);
                assert(olds[kj].address@ != olds[kl].address@);
            }
            assert forall|b: Seq<u8>| #[trigger] self.records@.contains_key(b) implies exists|k: int|
                0 <= k < self.slots@.len() && #[trigger] self.slots@[k].address@ == b by {
                let k = choose|k: int| 0 <= k < olds.len() && #[trigger] olds[k].address@ == b;
                assert(k != i);
                if k < i {
                    assert(self.slots@[k] == olds[k]);
                    assert(self.slots@[k].address@ == b);
                } else {
                    assert(self.slots@[k - 1] == olds[k]);
                    assert(self.slots@[k - 1].address@ == b);
                }
            }
        }
        r
    }
}

/// Creates the signer's record, or overwrites its hash and locator.
///
/// The address named must be the one derived from the signer. A new record
/// gets exactly the space that its locator needs; a stored one must belong to
/// the signer, its bump must reproduce the address, and the new locator must
/// fit in the space fixed at creation. A refused call changes nothing.
pub fn upsert_user_data(
    store: &mut RecordStore,
    ctx: &UpsertUserData,
    data_hash: [u8; 32],
    uri: String,
) -> (r: Result<(), ZeroTrustError>)
    requires
        old(store).wf(),
    ensures
        final(store).wf(),
        final(store).program() == old(store).program(),
        match upsert_outcome(
            old(store)@,
            old(store).program(),
            ctx.owner@,
            ctx.user_record@,
            data_hash@,
            uri@,
        ) {
            Ok(m) => r is Ok && final(store)@ == m,
            Err(e) => r == Err::<(), ZeroTrustError>(e) && final(store)@ == old(store)@,
        },
{
    let (address, bump) = match derive_address(&ctx.owner, &store.program_id) {
        None => return Err(ZeroTrustError::AddressMismatch),
        Some(found) => found,
    };
    if !same_key(&address, &ctx.user_record) {
        return Err(ZeroTrustError::AddressMismatch);
    }
    let uri_len = uri.as_str().as_bytes().len();
    match store.find(&address) {
        None => {
            if uri_len > usize::MAX - RECORD_FIXED_SPACE {
                return Err(ZeroTrustError::CapacityExceeded);
            }
            let space = RECORD_FIXED_SPACE + uri_len;
            let slot = Slot {
                address,
                space,
                record: UserRecord { owner: ctx.owner, data_hash, uri, bump },
            };
            store.push_slot(slot);
            Ok(())
        },
        Some(i) => {
            let owner = store.slots[i].record.owner;
            let stored_bump = store.slots[i].record.bump;
            let space = store.slots[i].space;
            if !same_key(&owner, &ctx.owner) {
                return Err(ZeroTrustError::NotAuthorized);
            }
            if !verify_address(&ctx.owner, stored_bump, &store.program_id, &address) {
                return Err(ZeroTrustError::AddressMismatch);
            }
            if uri_len > space - RECORD_FIXED_SPACE {
                return Err(ZeroTrustError::CapacityExceeded);
            }
            let slot = Slot {
                address,
                space,
                record: UserRecord { owner, data_hash, uri, bump: stored_bump },
            };
            store.replace_slot(i, slot);
            Ok(())
        },
    }
}

/// Deletes the signer's record at the address named and hands its space
/// back to the signer; returns that space.
///
/// A record must be stored there, it must belong to the signer, and its
/// stored bump must reproduce the address. A refused call changes nothing.
pub fn delete_user_data(store: &mut RecordStore, ctx: &DeleteUserData) -> (r: Result<
    usize,
    ZeroTrustError,
>)
    requires
        old(store).wf(),
    ensures
        final(store).wf(),
        final(store).program() == old(store).program(),
        match delete_outcome(old(store)@, old(store).program(), ctx.owner@, ctx.user_record@) {
            Ok((m, space)) => r == Ok::<usize, ZeroTrustError>(space as usize) && final(store)@
                == m,
            Err(e) => r == Err::<usize, ZeroTrustError>(e) && final(store)@ == old(store)@,
        },
{
    let i = match store.find(&ctx.user_record) {
        None => return Err(ZeroTrustError::NotFound),
        Some(i) => i,
    };
    if !same_key(&store.slots[i].record.owner, &ctx.owner) {
        return Err(ZeroTrustError::NotAuthorized);
    }
    if !verify_address(&ctx.owner, store.slots[i].record.bump, &store.program_id, &ctx.user_record) {
        return Err(ZeroTrustError::AddressMismatch);
    }
    let slot = store.remove_slot(i);
    Ok(slot.space)
}

} // verus!
