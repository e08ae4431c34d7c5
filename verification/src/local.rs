//! A local filesystem adapter's path handling.
//!
//! Objects live under a configured root directory, addressed by relative
//! string paths (for example `"foo/bar.txt"`). Identifiers are validated to
//! prevent directory traversal (`..`) and absolute paths; the verified
//! functions here turn identifiers into full paths and back. Performing the
//! actual file input/output with the resulting paths is the embedding
//! application's concern.

use vstd::prelude::*;
use vstd::string::StrSliceExecFns;
use vstd::string::StringExecFns;

use crate::storage::{folder_prefix, is_prefix_of};
use crate::strutil::str_starts_with;
use crate::Error;

verus! {

/// Does the path contain a `..` component? A component is a maximal
/// `/`-free run.
pub open spec fn has_parent_component(s: Seq<char>) -> bool {
    exists|p: int|
        0 <= p && p + 2 <= s.len() && (p == 0 || s[p - 1] == '/') && #[trigger] s[p] == '.' && s[p
            + 1] == '.' && (p + 2 == s.len() || s[p + 2] == '/')
}

/// A usable object identifier: non-empty, relative, and free of parent-
/// directory components.
pub open spec fn valid_object_id(s: Seq<char>) -> bool {
    s.len() > 0 && s[0] != '/' && !has_parent_component(s)
}

/// The prefix that objects under the root share: the root path with exactly
/// one trailing separator, or nothing for an empty root.
pub open spec fn root_prefix(root: Seq<char>) -> Seq<char> {
    if root.len() == 0 {
        root
    } else {
        folder_prefix(root)
    }
}

/// The full path of an identifier under a root directory.
pub open spec fn joined_path(root: Seq<char>, id: Seq<char>) -> Seq<char> {
    root_prefix(root) + id
}

/// A local filesystem adapter rooted at a directory.
#[derive(Debug, Clone)]
pub struct LocalStorage {
    root: String,
}

impl LocalStorage {
    /// The configured root directory.
    pub closed spec fn spec_root(&self) -> Seq<char> {
        self.root@
    }

    /// Create a new local storage rooted at `root`.
    pub fn new(root: String) -> (s: Self)
        ensures
            s.spec_root() == root@,
    {
        LocalStorage { root }
    }

    /// Return the configured root directory.
    pub fn root(&self) -> (r: &String)
        ensures
            r@ == self.spec_root(),
    {
        &self.root
    }

    /// Check that an identifier is usable: non-empty, not absolute, and
    /// without parent-directory components.
    #[verifier::loop_isolation(false)]
    pub fn validate_id(id: &String) -> (r: Result<(), Error>)
        ensures
            (r is Ok) == valid_object_id(id@),
            r matches Err(e) ==> (if id@.len() == 0 {
                e is Generic
            } else {
                e is PermissionDenied
            }),
    {
        let n = id.as_str().unicode_len();
        if n == 0 {
            return Err(Error::Generic("id cannot be empty".to_owned()));
        }
        if id.as_str().get_char(0) == '/' {
            return Err(Error::PermissionDenied("absolute paths are not allowed".to_owned()));
        }
        let mut st: usize = 0;
        let mut i: usize = 0;
        while i < n
            invariant
                i <= n,
                st <= i,
                st == 0 || (1 <= st && st - 1 < n && id@[st - 1 as int] == '/'),
                forall|q: int| st <= q < i ==> id@[q] != '/',
                forall|p: int|
                    0 <= p < st && p + 2 <= n && (p == 0 || id@[p - 1] == '/') && (p + 2 == n
                        || id@[p + 2] == '/') ==> !(#[trigger] id@[p] == '.' && id@[p + 1]
                        == '.'),
            decreases n - i,
        {
            if id.as_str().get_char(i) == '/' {
                if i - st == 2 && id.as_str().get_char(st) == '.' && id.as_str().get_char(st + 1)
                    == '.' {
                    proof {
                        assert(has_parent_component(id@)) by {
                            assert(0 <= st && st + 2 <= n && (st == 0 || id@[st - 1 as int] == '/')
                                && id@[st as int] == '.' && id@[st + 1 as int] == '.' && (st + 2
                                == n || id@[st + 2 as int] == '/'));
                        }
                    }
                    return Err(Error::PermissionDenied(
                        "parent directory components are not allowed".to_owned(),
                    ));
                }
                proof {
                    assert forall|p: int|
                        0 <= p < i + 1 && p + 2 <= n && (p == 0 || id@[p - 1] == '/') && (p + 2
                            == n || id@[p + 2] == '/') implies !(#[trigger] id@[p] == '.' && id@[p
                        + 1] == '.') by {
                        if p >= st {
                            if p == st {
                                if id@[p] == '.' && id@[p + 1] == '.' {
                                    if st + 2 < i {
                                        assert(id@[st + 2 as int] != '/');
                                    } else if st + 2 == i {
                                        assert(false);
                                    } else {
                                        if st + 1 == i {
                                            assert(id@[st + 1 as int] == '/');
                                        } else {
                                            assert(st == i);
                                            assert(id@[st as int] == '/');
                                        }
                                    }
                                }
                            } else if p < i {
                                assert(id@[p - 1] != '/');
                            } else {
                                assert(p == i);
                                assert(id@[p] == '/');
                            }
                        }
                    }
                }
                st = i + 1;
            }
            i = i + 1;
        }
        // the last component ends at the end of the identifier
        if n - st == 2 && id.as_str().get_char(st) == '.' && id.as_str().get_char(st + 1) == '.' {
            proof {
                assert(has_parent_component(id@)) by {
                    assert(0 <= st && st + 2 <= n && (st == 0 || id@[st - 1 as int] == '/')
                        && id@[st as int] == '.' && id@[st + 1 as int] == '.' && st + 2 == n);
                }
            }
            return Err(Error::PermissionDenied(
                "parent directory components are not allowed".to_owned(),
            ));
        }
        proof {
            if has_parent_component(id@) {
                let p = choose|p: int|
                    0 <= p && p + 2 <= id@.len() && (p == 0 || id@[p - 1] == '/') && #[trigger] id@[
                        p
                    ] == '.' && id@[p + 1] == '.' && (p + 2 == id@.len() || id@[p + 2] == '/');
                if p < st {
                    assert(!(id@[p] == '.' && id@[p + 1] == '.'));
                } else {
                    if p + 2 < n {
                        assert(id@[p + 2] != '/');
                    } else {
                        if p == st {
                            assert(n - st == 2);
                            assert(false);
                        } else {
                            assert(id@[p - 1] != '/');
                        }
                    }
                }
            }
        }
        Ok(())
    }

    /// Turn an identifier into the full path of the object under the root.
    pub fn path_for_id(&self, id: &String) -> (r: Result<String, Error>)
        ensures
            (r is Ok) == valid_object_id(id@),
            r matches Ok(p) ==> p@ == joined_path(self.spec_root(), id@),
            r matches Err(e) ==> (if id@.len() == 0 {
                e is Generic
            } else {
                e is PermissionDenied
            }),
    {
        match Self::validate_id(id) {
            Ok(()) => {},
            Err(e) => {
                return Err(e);
            },
        }
        let mut p = self.root.clone();
        let rl = p.as_str().unicode_len();
        if rl > 0 && p.as_str().get_char(rl - 1) != '/' {
            p.append("/");
        }
        p.append(id.as_str());
        proof {
            reveal_strlit("/");
            assert(p@ =~= joined_path(self.spec_root(), id@));
        }
        Ok(p)
    }

    /// Turn a full path under the root back into an object identifier.
    pub fn id_for_path(&self, p: &String) -> (r: Result<String, Error>)
        ensures
            (r is Ok) == (is_prefix_of(root_prefix(self.spec_root()), p@) && valid_object_id(
                p@.skip(root_prefix(self.spec_root()).len() as int),
            )),
            r matches Ok(rel) ==> rel@ == p@.skip(root_prefix(self.spec_root()).len() as int),
    {
        let mut pref = self.root.clone();
        let rl = pref.as_str().unicode_len();
        if rl > 0 && pref.as_str().get_char(rl - 1) != '/' {
            pref.append("/");
        }
        proof {
            reveal_strlit("/");
            assert(pref@ =~= root_prefix(self.spec_root()));
        }
        if !str_starts_with(p.as_str(), pref.as_str()) {
            return Err(Error::Generic("path does not lie under the storage root".to_owned()));
        }
        let pl = pref.as_str().unicode_len();
        let n = p.as_str().unicode_len();
        let rel = p.as_str().substring_char(pl, n).to_owned();
        proof {
            assert(rel@ =~= p@.skip(root_prefix(self.spec_root()).len() as int));
        }
        match Self::validate_id(&rel) {
            Ok(()) => Ok(rel),
            Err(_) => Err(Error::Generic("path does not denote a valid identifier".to_owned())),
        }
    }
}

} // verus!
