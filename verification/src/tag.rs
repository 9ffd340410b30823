//! Tag records: labels that events can carry.

use vstd::prelude::*;

verus! {

/// A stored tag.
#[derive(Clone, Debug, PartialEq, Eq)]
pub struct Tag {
    pub id: i64,
    pub name: String,
    pub color: String,
}

/// A request to create or rename a tag.
#[derive(Clone, Debug)]
pub struct CreateOrUpdateTagRequest {
    pub name: String,
    pub color: String,
}

} // verus!
