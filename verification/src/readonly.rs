//! A read-only guard around any backend.

use vstd::prelude::*;

use crate::storage::{folder_exists_in, list_result_matches, opt_id_view, Storage};
use crate::Error;

verus! {

/// Wraps a storage backend and rejects all write operations, leaving the
/// wrapped store untouched.
#[derive(Debug)]
pub struct ReadOnlyStorage<S: Storage> {
    inner: S,
}

impl<S: Storage> ReadOnlyStorage<S> {
    /// The wrapped backend.
    pub closed spec fn spec_inner(&self) -> S {
        self.inner
    }

    /// Create a read-only wrapper around a storage backend.
    pub fn new(storage: S) -> (s: Self)
        ensures
            s.spec_inner() == storage,
    {
        ReadOnlyStorage { inner: storage }
    }

    /// Get a reference to the inner storage.
    pub fn inner(&self) -> (r: &S)
        ensures
            *r == self.spec_inner(),
    {
        &self.inner
    }

    /// Unwrap and return the inner storage.
    pub fn into_inner(self) -> (r: S)
        ensures
            r == self.spec_inner(),
    {
        self.inner
    }

    /// Check if an object exists in the wrapped backend.
    pub fn object_exists(&self, id: &String) -> (r: Result<bool, Error>)
        ensures
            r matches Ok(b) ==> b == self.spec_inner().contents().contains_key(id@),
    {
        self.inner.object_exists(id)
    }

    /// Check if a folder exists in the wrapped backend.
    pub fn folder_exists(&self, id: &String) -> (r: Result<bool, Error>)
        ensures
            r matches Ok(b) ==> b == folder_exists_in(self.spec_inner().contents(), id@),
    {
        self.inner.folder_exists(id)
    }

    /// Writes are rejected and change nothing.
    pub fn put(&mut self, id: String, data: &Vec<u8>) -> (r: Result<(), Error>)
        ensures
            *final(self) == *old(self),
            r is Err,
            r matches Err(e) ==> e is PermissionDenied,
    {
        let _ = id;
        let _ = data;
        Err(Error::PermissionDenied(
            "write operations not allowed on read-only storage".to_owned(),
        ))
    }

    /// Retrieve an object from the wrapped backend, appending its bytes to
    /// `output`.
    pub fn get_into(&self, id: &String, output: &mut Vec<u8>) -> (r: Result<u64, Error>)
        ensures
            r matches Ok(n) ==> self.spec_inner().contents().contains_key(id@) && final(output)@
                == old(output)@ + self.spec_inner().contents()[id@] && n as nat
                == self.spec_inner().contents()[id@].len(),
            r is Err ==> final(output)@ == old(output)@,
            (r matches Err(e) && e is NotFound) ==> !self.spec_inner().contents().contains_key(
                id@,
            ),
    {
        self.inner.get_into(id, output)
    }

    /// Deletions are rejected and change nothing.
    pub fn delete(&mut self, id: &String) -> (r: Result<(), Error>)
        ensures
            *final(self) == *old(self),
            r is Err,
            r matches Err(e) ==> e is PermissionDenied,
    {
        let _ = id;
        Err(Error::PermissionDenied(
            "delete operations not allowed on read-only storage".to_owned(),
        ))
    }

    /// List identifiers from the wrapped backend.
    pub fn list(&self, prefix: Option<&String>) -> (r: Result<Vec<String>, Error>)
        ensures
            r matches Ok(v) ==> list_result_matches(
                self.spec_inner().contents(),
                opt_id_view(prefix),
                v@,
            ),
    {
        self.inner.list(prefix)
    }
}

} // verus!
