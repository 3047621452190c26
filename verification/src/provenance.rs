//! Who owns a record and who last wrote it.

use vstd::prelude::*;

verus! {

/// The account that owns a record.
#[derive(Clone, Copy, Debug, PartialEq, Eq, Hash)]
pub struct OwnedById {
    pub account: u128,
}

impl OwnedById {
    pub fn new(account: u128) -> (id: OwnedById)
        ensures
            id.account == account,
    {
        OwnedById { account }
    }

    pub fn as_uuid(&self) -> (account: u128)
        ensures
            account == self.account,
    {
        self.account
    }
}

/// The account that wrote an edition of a record.
#[derive(Clone, Copy, Debug, PartialEq, Eq, Hash)]
pub struct UpdatedById {
    pub account: u128,
}

impl UpdatedById {
    pub fn new(account: u128) -> (id: UpdatedById)
        ensures
            id.account == account,
    {
        UpdatedById { account }
    }

    pub fn as_uuid(&self) -> (account: u128)
        ensures
            account == self.account,
    {
        self.account
    }
}

/// Provenance carried by every edition.
#[derive(Clone, Copy, Debug, PartialEq, Eq, Hash)]
pub struct ProvenanceMetadata {
    pub updated_by_id: UpdatedById,
}

impl ProvenanceMetadata {
    pub fn new(updated_by_id: UpdatedById) -> (provenance: ProvenanceMetadata)
        ensures
            provenance.updated_by_id == updated_by_id,
    {
        ProvenanceMetadata { updated_by_id }
    }

    pub fn updated_by_id(&self) -> (id: UpdatedById)
        ensures
            id == self.updated_by_id,
    {
        self.updated_by_id
    }
}

} // verus!
