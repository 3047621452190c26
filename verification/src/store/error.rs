//! The kinds of failure of the store.

use crate::report::Context;
use vstd::prelude::*;
use vstd::string::StringExecFns;

verus! {

/// A read, or the decoding of what was read, failed.
#[derive(Clone, Copy, Debug, PartialEq, Eq)]
pub struct QueryError;

/// A record could not be written: its type is unknown, its properties could
/// not be encoded, or the store refused the write.
#[derive(Clone, Copy, Debug, PartialEq, Eq)]
pub struct InsertionError;

/// An entity could not be updated.
#[derive(Clone, Copy, Debug, PartialEq, Eq)]
pub struct UpdateError;

/// The entity that was to be updated has no record in the store.
#[derive(Clone, Copy, Debug, PartialEq, Eq)]
pub struct EntityDoesNotExist;

/// Another writer changed the entity between the check that it exists and
/// the update. Nothing was written; the update may be tried again.
#[derive(Clone, Copy, Debug, PartialEq, Eq)]
pub struct RaceConditionOnUpdate;

impl Context for QueryError {
    open spec fn description(&self) -> Seq<char> {
        "could not query the store"@
    }

    fn describe(&self) -> (described: String) {
        String::from_str("could not query the store")
    }
}

impl Context for InsertionError {
    open spec fn description(&self) -> Seq<char> {
        "could not insert into the store"@
    }

    fn describe(&self) -> (described: String) {
        String::from_str("could not insert into the store")
    }
}

impl Context for UpdateError {
    open spec fn description(&self) -> Seq<char> {
        "could not update the store"@
    }

    fn describe(&self) -> (described: String) {
        String::from_str("could not update the store")
    }
}

impl Context for EntityDoesNotExist {
    open spec fn description(&self) -> Seq<char> {
        "entity does not exist"@
    }

    fn describe(&self) -> (described: String) {
        String::from_str("entity does not exist")
    }
}

impl Context for RaceConditionOnUpdate {
    open spec fn description(&self) -> Seq<char> {
        "the entity was changed by another writer during the update"@
    }

    fn describe(&self) -> (described: String) {
        String::from_str("the entity was changed by another writer during the update")
    }
}

} // verus!
