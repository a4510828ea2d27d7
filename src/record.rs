//! The persisted record, the accounts an instruction names, and the errors.
use vstd::prelude::*;
use vstd::utf8::encode_utf8;

verus! {

/// Why an operation was refused. A refused operation changes nothing.
#[derive(Clone, Copy, Debug, PartialEq, Eq, Structural)]
pub enum ZeroTrustError {
    /// The signer is not the record's owner.
    NotAuthorized,
    /// The address given, or the bump stored, does not reproduce the
    /// expected address.
    AddressMismatch,
    /// No record is stored at the address given.
    NotFound,
    /// The locator does not fit in the space fixed when the record was made.
    CapacityExceeded,
}

/// The record that an owner keeps: a 32-byte integrity hash and a locator of
/// the payload held elsewhere, with the bump that places it.
pub struct UserRecord {
    pub owner: [u8; 32],
    pub data_hash: [u8; 32],
    pub uri: String,
    pub bump: u8,
}

/// What a stored record holds, with the space allotted to it.
pub ghost struct RecordView {
    pub owner: Seq<u8>,
    pub data_hash: Seq<u8>,
    pub uri: Seq<char>,
    pub bump: u8,
    pub space: nat,
}

/// The accounts of an upsert: the signer and the address of its record.
pub struct UpsertUserData {
    pub owner: [u8; 32],
    pub user_record: [u8; 32],
}

/// The accounts of a delete: the signer and the address of its record.
pub struct DeleteUserData {
    pub owner: [u8; 32],
    pub user_record: [u8; 32],
}

/// Space of a record besides its locator's bytes: an 8-byte header, the
/// owner, the hash, the locator's 4-byte length and the bump.
pub const RECORD_FIXED_SPACE: usize = 77;

/// The number of bytes that a locator takes in storage.
pub open spec fn uri_bytes(uri: Seq<char>) -> nat {
    encode_utf8(uri).len()
}

/// The space a record needs for the locator `uri`.
pub open spec fn space_for(uri: Seq<char>) -> nat {
    RECORD_FIXED_SPACE as nat + uri_bytes(uri)
}

} // verus!
