//! A fault-injecting in-memory backend.
//!
//! Wraps a [`MemoryStorage`] and fails selected operations on demand with a
//! connection error, leaving the stored data untouched. Useful for
//! exercising the multi-backend policies (mirroring, fallback, rollback)
//! against misbehaving backends.

use vstd::prelude::*;

use crate::memory::{sorted_ids, MemoryStorage};
use crate::storage::Storage;
use crate::Error;

verus! {

/// An in-memory backend that can be told to fail selected operations.
///
/// A failing operation reports [`Error::Connection`] and leaves the stored
/// objects unchanged. Deletion stays idempotent even when told to fail:
/// deleting an identifier that is not present still succeeds.
#[derive(Debug)]
pub struct FlakyStorage {
    /// The underlying store.
    pub inner: MemoryStorage,
    /// Fail existence checks.
    pub fail_exists: bool,
    /// Fail folder-existence checks.
    pub fail_folder_exists: bool,
    /// Fail writes.
    pub fail_put: bool,
    /// Fail reads.
    pub fail_get: bool,
    /// Fail deletions of present objects.
    pub fail_delete: bool,
    /// Fail listings.
    pub fail_list: bool,
}

impl FlakyStorage {
    /// Wrap a store; all operations succeed until told otherwise.
    pub fn new(inner: MemoryStorage) -> (s: Self)
        ensures
            s.contents() == inner.contents(),
            !s.fail_exists && !s.fail_folder_exists && !s.fail_put && !s.fail_get
                && !s.fail_delete && !s.fail_list,
    {
        FlakyStorage {
            inner,
            fail_exists: false,
            fail_folder_exists: false,
            fail_put: false,
            fail_get: false,
            fail_delete: false,
            fail_list: false,
        }
    }
}

impl Storage for FlakyStorage {
    open spec fn contents(&self) -> Map<Seq<char>, Seq<u8>> {
        self.inner.contents()
    }

    fn object_exists(&self, id: &String) -> (r: Result<bool, Error>)
        ensures
            r is Err ==> self.fail_exists,
    {
        if self.fail_exists {
            Err(Error::Connection("injected fault: exists".to_owned()))
        } else {
            self.inner.object_exists(id)
        }
    }

    fn folder_exists(&self, id: &String) -> (r: Result<bool, Error>)
        ensures
            r is Err ==> self.fail_folder_exists,
    {
        if self.fail_folder_exists {
            Err(Error::Connection("injected fault: folder_exists".to_owned()))
        } else {
            self.inner.folder_exists(id)
        }
    }

    fn put(&mut self, id: String, data: &Vec<u8>) -> (r: Result<(), Error>)
        ensures
            r is Err ==> old(self).fail_put,
    {
        if self.fail_put {
            Err(Error::Connection("injected fault: put".to_owned()))
        } else {
            self.inner.put(id, data)
        }
    }

    fn get_into(&self, id: &String, output: &mut Vec<u8>) -> (r: Result<u64, Error>)
        ensures
            (r is Ok) == (!self.fail_get && self.contents().contains_key(id@)),
    {
        if self.fail_get {
            Err(Error::Connection("injected fault: get".to_owned()))
        } else {
            self.inner.get_into(id, output)
        }
    }

    fn delete(&mut self, id: &String) -> (r: Result<(), Error>)
        ensures
            r is Err ==> old(self).fail_delete,
    {
        if self.fail_delete {
            match self.inner.object_exists(id) {
                Ok(true) => Err(Error::Connection("injected fault: delete".to_owned())),
                Ok(false) => {
                    proof {
                        assert(self.contents() =~= self.contents().remove(id@));
                    }
                    Ok(())
                },
                Err(e) => {
                    proof {
                        assert(false);
                    }
                    Err(e)
                },
            }
        } else {
            self.inner.delete(id)
        }
    }

    fn list(&self, prefix: Option<&String>) -> (r: Result<Vec<String>, Error>)
        ensures
            r is Err ==> self.fail_list,
            r matches Ok(v) ==> sorted_ids(v@),
    {
        if self.fail_list {
            Err(Error::Connection("injected fault: list".to_owned()))
        } else {
            self.inner.list(prefix)
        }
    }
}

} // verus!
