//! Contact records: ways to reach a user.

use vstd::prelude::*;

verus! {

/// The kind of a contact entry.
#[derive(Clone, Copy, Debug, PartialEq, Eq, Structural)]
pub enum ContactType {
    Email,
    Phone,
}

/// A stored contact of a user.
#[derive(Clone, Debug, PartialEq, Eq)]
pub struct UserContact {
    pub id: i64,
    pub user_id: i64,
    pub contact: String,
    pub contact_type: String,
}

/// A request to register a contact for a user.
#[derive(Clone, Debug)]
pub struct CreateContactRequest {
    pub user_id: i64,
    pub contact: String,
    pub contact_type: ContactType,
}

} // verus!
