//! A per-owner record store whose records live at addresses derived from the
//! owner's identity, with owner-only update and deletion.
pub mod address;
pub mod laws;
pub mod record;
pub mod store;

pub use address::{derive_address, verify_address};
pub use record::{DeleteUserData, UpsertUserData, UserRecord, ZeroTrustError};
pub use store::{delete_user_data, upsert_user_data, RecordStore};
