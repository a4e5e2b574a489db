//! The errors that cross the boundary of the store.

use vstd::prelude::*;

verus! {

/// A write did not reach the store.
#[derive(Debug)]
#[must_use]
pub struct InsertionError;

/// A read from the store failed, or what the store returned was malformed.
#[derive(Debug, Clone)]
#[must_use]
pub struct QueryError;

/// An update did not reach the store.
#[derive(Debug)]
#[must_use]
pub struct UpdateError;

/// A deletion did not reach the store.
#[derive(Debug)]
#[must_use]
pub struct DeletionError;

/// A base URI was to be inserted that exists already.
#[derive(Debug)]
#[must_use]
pub struct BaseUriAlreadyExists;

/// A base URI was looked up that does not exist.
#[derive(Debug)]
#[must_use]
pub struct BaseUriDoesNotExist;

/// An entity was to be updated that does not exist.
#[derive(Debug)]
#[must_use]
pub struct EntityDoesNotExist;

/// An update lost against a concurrent update of the same entity.
#[derive(Debug)]
#[must_use]
pub struct RaceConditionOnUpdate;

/// A versioned URI was to be inserted that exists already.
#[derive(Debug)]
#[must_use]
pub struct VersionedUriAlreadyExists;

/// A link could not be removed.
#[derive(Debug)]
#[must_use]
pub struct LinkRemovalError;

impl InsertionError {
    /// The message shown for the error.
    pub fn to_string(&self) -> (r: String)
        ensures
            r@ == "Could not insert into store"@,
    {
        "Could not insert into store".to_owned()
    }
}

impl QueryError {
    /// The message shown for the error.
    pub fn to_string(&self) -> (r: String)
        ensures
            r@ == "Could not query from store"@,
    {
        "Could not query from store".to_owned()
    }
}

impl UpdateError {
    /// The message shown for the error.
    pub fn to_string(&self) -> (r: String)
        ensures
            r@ == "Could not update store"@,
    {
        "Could not update store".to_owned()
    }
}

impl DeletionError {
    /// The message shown for the error.
    pub fn to_string(&self) -> (r: String)
        ensures
            r@ == "Could not delete from the store"@,
    {
        "Could not delete from the store".to_owned()
    }
}

impl BaseUriAlreadyExists {
    /// The message shown for the error.
    pub fn to_string(&self) -> (r: String)
        ensures
            r@ == "tried to insert a new base URI but it already existed"@,
    {
        "tried to insert a new base URI but it already existed".to_owned()
    }
}

impl BaseUriDoesNotExist {
    /// The message shown for the error.
    pub fn to_string(&self) -> (r: String)
        ensures
            r@ == "base URI does not exist"@,
    {
        "base URI does not exist".to_owned()
    }
}

impl EntityDoesNotExist {
    /// The message shown for the error.
    pub fn to_string(&self) -> (r: String)
        ensures
            r@ == "Entity does not exist"@,
    {
        "Entity does not exist".to_owned()
    }
}

impl RaceConditionOnUpdate {
    /// The message shown for the error.
    pub fn to_string(&self) -> (r: String)
        ensures
            r@ == "The entity that should be updated was unexpectedly updated at the same time"@,
    {
        "The entity that should be updated was unexpectedly updated at the same time".to_owned()
    }
}

impl VersionedUriAlreadyExists {
    /// The message shown for the error.
    pub fn to_string(&self) -> (r: String)
        ensures
            r@ == "tried to insert a versioned URI but it already existed"@,
    {
        "tried to insert a versioned URI but it already existed".to_owned()
    }
}

impl LinkRemovalError {
    /// The message shown for the error.
    pub fn to_string(&self) -> (r: String)
        ensures
            r@ == "Could not remove link"@,
    {
        "Could not remove link".to_owned()
    }
}

} // verus!
