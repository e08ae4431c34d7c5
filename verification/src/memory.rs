//! A simple in-memory `Storage` backend.
//!
//! - Identifiers are `String`s.
//! - Data is stored as raw bytes.
//! - Intended for tests, local development, and ephemeral usage.

use vstd::prelude::*;

use crate::storage::{
    folder_exists_in, folder_prefix, is_prefix_of, list_result_matches, opt_id_view,
    prefix_matches, Storage,
};
use crate::strutil::{
    lemma_str_le_total, lemma_str_le_trans, str_eq, str_le, str_le_exec, str_starts_with,
};
use crate::Error;

verus! {

/// The map denoted by a sequence of key/value entries; a later entry for the
/// same key wins.
pub open spec fn entries_map(s: Seq<(String, Vec<u8>)>) -> Map<Seq<char>, Seq<u8>>
    decreases s.len(),
{
    if s.len() == 0 {
        Map::empty()
    } else {
        entries_map(s.drop_last()).insert(s.last().0@, s.last().1@)
    }
}

spec fn distinct_keys(s: Seq<(String, Vec<u8>)>) -> bool {
    forall|i: int, j: int| 0 <= i < j < s.len() ==> s[i].0@ != s[j].0@
}

proof fn lemma_entries_map_characterization(s: Seq<(String, Vec<u8>)>)
    requires
        distinct_keys(s),
    ensures
        forall|k: Seq<char>|
            #[trigger] entries_map(s).contains_key(k) <==> exists|i: int|
                0 <= i < s.len() && s[i].0@ == k,
        forall|i: int|
            0 <= i < s.len() ==> entries_map(s).contains_key(#[trigger] s[i].0@) && entries_map(
                s,
            )[s[i].0@] == s[i].1@,
    decreases s.len(),
{
    if s.len() > 0 {
        let s0 = s.drop_last();
        assert(distinct_keys(s0)) by {
            assert(forall|i: int, j: int|
                0 <= i < j < s0.len() ==> s0[i].0@ == s[i].0@ && s0[j].0@ == s[j].0@);
        }
        lemma_entries_map_characterization(s0);
        let last = s.last();
        assert(entries_map(s) == entries_map(s0).insert(last.0@, last.1@));
        assert forall|i: int| 0 <= i < s.len() implies entries_map(s).contains_key(
            #[trigger] s[i].0@,
        ) && entries_map(s)[s[i].0@] == s[i].1@ by {
            if i < s.len() - 1 {
                assert(s0[i] == s[i]);
                assert(entries_map(s0).contains_key(s0[i].0@) && entries_map(s0)[s0[i].0@]
                    == s0[i].1@);
                assert(s[i].0@ != last.0@);
            }
        }
        assert forall|k: Seq<char>| #[trigger]
            entries_map(s).contains_key(k) implies exists|i: int|
            0 <= i < s.len() && s[i].0@ == k by {
            if k == last.0@ {
                assert(0 <= s.len() - 1 < s.len() && s[s.len() - 1].0@ == k);
            } else {
                assert(entries_map(s0).contains_key(k));
                let i = choose|i: int| 0 <= i < s0.len() && s0[i].0@ == k;
                assert(s0[i] == s[i]);
                assert(0 <= i < s.len() && s[i].0@ == k);
            }
        }
        assert forall|k: Seq<char>|
            (exists|i: int| 0 <= i < s.len() && s[i].0@ == k) implies entries_map(
            s,
        ).contains_key(k) by {
            let i = choose|i: int| 0 <= i < s.len() && s[i].0@ == k;
            if i < s.len() - 1 {
                assert(s0[i].0@ == k);
                assert(entries_map(s0).contains_key(s0[i].0@));
            }
        }
    }
}

proof fn lemma_entries_map_finite(s: Seq<(String, Vec<u8>)>)
    ensures
        entries_map(s).dom().finite(),
    decreases s.len(),
{
    if s.len() == 0 {
        assert(entries_map(s).dom() =~= Set::<Seq<char>>::empty());
    } else {
        lemma_entries_map_finite(s.drop_last());
        let k = s.last().0@;
        assert(entries_map(s).dom() =~= entries_map(s.drop_last()).dom().insert(k));
        vstd::set::axiom_set_insert_finite(entries_map(s.drop_last()).dom(), k);
    }
}

proof fn lemma_entries_map_len(s: Seq<(String, Vec<u8>)>)
    requires
        distinct_keys(s),
    ensures
        entries_map(s).dom().finite(),
        entries_map(s).len() == s.len(),
    decreases s.len(),
{
    if s.len() == 0 {
        assert(entries_map(s).dom() =~= Set::<Seq<char>>::empty());
    } else {
        let s0 = s.drop_last();
        assert(distinct_keys(s0)) by {
            assert(forall|i: int, j: int|
                0 <= i < j < s0.len() ==> s0[i].0@ == s[i].0@ && s0[j].0@ == s[j].0@);
        }
        lemma_entries_map_len(s0);
        lemma_entries_map_characterization(s0);
        let m0 = entries_map(s0);
        let k = s.last().0@;
        assert(!m0.contains_key(k)) by {
            if m0.contains_key(k) {
                let i = choose|i: int| 0 <= i < s0.len() && s0[i].0@ == k;
                assert(s[i].0@ == s[s.len() - 1].0@);
            }
        }
        assert(entries_map(s).dom() =~= m0.dom().insert(k));
        vstd::set::axiom_set_insert_finite(m0.dom(), k);
        vstd::set::axiom_set_insert_len(m0.dom(), k);
    }
}

/// Is the identifier list sorted ascending, by code points?
pub open spec fn sorted_ids(v: Seq<String>) -> bool {
    forall|i: int, j: int| 0 <= i < j < v.len() ==> #[trigger] str_le(v[i]@, v[j]@)
}

/// Inserting a fresh key at its ordered position keeps a sorted,
/// duplicate-free listing sorted and duplicate-free, and changes its
/// membership by exactly that key.
#[verifier::rlimit(60)]
proof fn lemma_sorted_insert(old_out: Seq<String>, new_out: Seq<String>, key: String, pos: int)
    requires
        0 <= pos <= old_out.len(),
        new_out == old_out.insert(pos, key),
        sorted_ids(old_out),
        forall|a: int, b: int| 0 <= a < b < old_out.len() ==> old_out[a]@ != old_out[b]@,
        forall|q: int| 0 <= q < pos ==> str_le(#[trigger] old_out[q]@, key@),
        pos < old_out.len() ==> str_le(key@, old_out[pos]@),
        forall|a: int| 0 <= a < old_out.len() ==> #[trigger] old_out[a]@ != key@,
    ensures
        sorted_ids(new_out),
        forall|a: int, b: int| 0 <= a < b < new_out.len() ==> new_out[a]@ != new_out[b]@,
        forall|a: int|
            0 <= a < new_out.len() ==> new_out[a]@ == key@ || exists|a0: int|
                0 <= a0 < old_out.len() && old_out[a0]@ == #[trigger] new_out[a]@,
        forall|a0: int|
            0 <= a0 < old_out.len() ==> exists|a: int|
                0 <= a < new_out.len() && new_out[a]@ == #[trigger] old_out[a0]@,
        exists|a: int| 0 <= a < new_out.len() && new_out[a]@ == key@,
{
    assert(forall|a: int| 0 <= a < pos ==> new_out[a] == old_out[a]);
    assert(new_out[pos] == key);
    assert(forall|a: int| pos < a < new_out.len() ==> new_out[a] == old_out[a - 1]);
    assert forall|a: int, b: int|
        0 <= a < b < new_out.len() implies str_le(new_out[a]@, new_out[b]@) by {
        if b < pos {
        } else if a < pos && b == pos {
            assert(str_le(old_out[a]@, key@));
        } else if a < pos && b > pos {
            assert(str_le(old_out[a]@, old_out[b - 1]@));
        } else if a == pos && b > pos {
            assert(str_le(key@, old_out[pos]@));
            if b - 1 > pos {
                assert(str_le(old_out[pos]@, old_out[b - 1]@));
                lemma_str_le_trans(key@, old_out[pos]@, old_out[b - 1]@);
            }
        } else {
            assert(str_le(old_out[a - 1]@, old_out[b - 1]@));
        }
    }
    assert forall|a: int, b: int|
        0 <= a < b < new_out.len() implies new_out[a]@ != new_out[b]@ by {
        if b < pos {
        } else if a < pos && b == pos {
            assert(old_out[a]@ != key@);
        } else if a < pos && b > pos {
            assert(old_out[a]@ != old_out[b - 1]@);
        } else if a == pos && b > pos {
            assert(old_out[b - 1]@ != key@);
        } else {
            assert(old_out[a - 1]@ != old_out[b - 1]@);
        }
    }
    assert forall|a: int|
        0 <= a < new_out.len() && new_out[a]@ != key@ implies exists|a0: int|
        0 <= a0 < old_out.len() && old_out[a0]@ == #[trigger] new_out[a]@ by {
        if a < pos {
            assert(old_out[a]@ == new_out[a]@);
        } else if a > pos {
            assert(old_out[a - 1]@ == new_out[a]@);
        }
    }
    assert forall|a0: int|
        0 <= a0 < old_out.len() implies exists|a: int|
        0 <= a < new_out.len() && new_out[a]@ == #[trigger] old_out[a0]@ by {
        if a0 < pos {
            assert(new_out[a0]@ == old_out[a0]@);
        } else {
            assert(new_out[a0 + 1]@ == old_out[a0]@);
        }
    }
    assert(new_out[pos]@ == key@);
}

/// Insert a key that is not yet listed at the position that keeps the
/// listing sorted.
#[verifier::loop_isolation(false)]
fn insert_sorted(out: &mut Vec<String>, key: String)
    requires
        sorted_ids(old(out)@),
        forall|a: int, b: int| 0 <= a < b < old(out)@.len() ==> old(out)@[a]@ != old(out)@[b]@,
        forall|a: int| 0 <= a < old(out)@.len() ==> #[trigger] old(out)@[a]@ != key@,
    ensures
        final(out)@.len() == old(out)@.len() + 1,
        sorted_ids(final(out)@),
        forall|a: int, b: int|
            0 <= a < b < final(out)@.len() ==> final(out)@[a]@ != final(out)@[b]@,
        forall|a: int|
            0 <= a < final(out)@.len() ==> final(out)@[a]@ == key@ || exists|a0: int|
                0 <= a0 < old(out)@.len() && old(out)@[a0]@ == #[trigger] final(out)@[a]@,
        forall|a0: int|
            0 <= a0 < old(out)@.len() ==> exists|a: int|
                0 <= a < final(out)@.len() && final(out)@[a]@ == #[trigger] old(out)@[a0]@,
        exists|a: int| 0 <= a < final(out)@.len() && final(out)@[a]@ == key@,
{
    let ghost gkey: String = key;
    let mut pos: usize = 0;
    while pos < out.len() && str_le_exec(out[pos].as_str(), key.as_str())
        invariant
            pos <= out@.len(),
            out@ == old(out)@,
            forall|q: int| 0 <= q < pos ==> #[trigger] str_le(out@[q]@, gkey@),
        decreases out@.len() - pos,
    {
        pos = pos + 1;
    }
    proof {
        if (pos as int) < out@.len() {
            lemma_str_le_total(out@[pos as int]@, gkey@);
            assert(str_le(gkey@, out@[pos as int]@));
        }
    }
    out.insert(pos, key);
    proof {
        lemma_sorted_insert(old(out)@, out@, gkey, pos as int);
    }
}

/// A simple in-memory storage backend holding byte objects by string key.
#[derive(Debug)]
pub struct MemoryStorage {
    entries: Vec<(String, Vec<u8>)>,
}

impl MemoryStorage {
    #[verifier::type_invariant]
    spec fn wf(self) -> bool {
        distinct_keys(self.entries@)
    }

    /// Create a new empty in-memory storage. Its contents form a finite
    /// map, and stay finite across operations since insertion and removal
    /// preserve finiteness.
    pub fn new() -> (s: Self)
        ensures
            s.contents() == Map::<Seq<char>, Seq<u8>>::empty(),
            s.contents().dom().finite(),
    {
        MemoryStorage { entries: Vec::new() }
    }

    /// Create a new in-memory storage from a sequence of key/value entries;
    /// a later entry for the same key replaces an earlier one.
    pub fn from_map(entries: Vec<(String, Vec<u8>)>) -> (s: Self)
        ensures
            s.contents() == entries_map(entries@),
            s.contents().dom().finite(),
    {
        let mut s = MemoryStorage::new();
        let n = entries.len();
        let mut i: usize = 0;
        while i < n
            invariant
                n == entries@.len(),
                i <= n,
                s.contents() == entries_map(entries@.subrange(0, i as int)),
            decreases n - i,
        {
            proof {
                assert(entries_map(entries@.subrange(0, i as int)) == s.contents());
            }
            let id = entries[i].0.clone();
            let data = entries[i].1.clone();
            proof {
                assert(data@ =~= entries@[i as int].1@);
            }
            let r = s.put(id, &data);
            proof {
                let pre = entries@.subrange(0, i as int);
                let cur = entries@.subrange(0, i + 1 as int);
                assert(cur.drop_last() =~= pre);
                assert(cur.last() == entries@[i as int]);
            }
            i = i + 1;
        }
        proof {
            assert(entries@.subrange(0, entries@.len() as int) =~= entries@);
            lemma_entries_map_finite(entries@);
        }
        s
    }

    /// Returns the number of stored objects.
    pub fn len(&self) -> (n: usize)
        ensures
            n == self.contents().len(),
            self.contents().dom().finite(),
    {
        proof {
            use_type_invariant(self);
            lemma_entries_map_len(self.entries@);
        }
        self.entries.len()
    }

    /// Returns true if there are no stored objects.
    pub fn is_empty(&self) -> (b: bool)
        ensures
            b == (self.contents().len() == 0),
    {
        self.len() == 0
    }

    /// Clear all objects.
    pub fn clear(&mut self)
        ensures
            final(self).contents() == Map::<Seq<char>, Seq<u8>>::empty(),
    {
        self.entries = Vec::new();
    }

    /// Get a copy of the bytes stored under `id`.
    pub fn get_bytes(&self, id: &String) -> (r: Result<Vec<u8>, Error>)
        ensures
            r matches Ok(v) ==> self.contents().contains_key(id@) && v@ == self.contents()[id@],
            r matches Err(e) ==> e is NotFound && !self.contents().contains_key(id@),
    {
        proof {
            use_type_invariant(self);
            lemma_entries_map_characterization(self.entries@);
        }
        match self.find(id) {
            Some(i) => {
                let v = self.entries[i].1.clone();
                proof {
                    assert(v@ =~= self.entries@[i as int].1@);
                }
                Ok(v)
            },
            None => Err(Error::NotFound(id.clone())),
        }
    }

    /// Locate the entry index holding `id`, if any.
    fn find(&self, id: &String) -> (r: Option<usize>)
        ensures
            r matches Some(i) ==> i < self.entries@.len() && self.entries@[i as int].0@ == id@,
            r is None ==> forall|j: int| 0 <= j < self.entries@.len() ==> self.entries@[j].0@ != id@,
    {
        let n = self.entries.len();
        let mut i: usize = 0;
        while i < n
            invariant
                n == self.entries@.len(),
                i <= n,
                forall|j: int| 0 <= j < i ==> self.entries@[j].0@ != id@,
            decreases n - i,
        {
            if str_eq(self.entries[i].0.as_str(), id.as_str()) {
                return Some(i);
            }
            i = i + 1;
        }
        None
    }
}

impl Storage for MemoryStorage {
    closed spec fn contents(&self) -> Map<Seq<char>, Seq<u8>> {
        entries_map(self.entries@)
    }

    fn object_exists(&self, id: &String) -> (r: Result<bool, Error>)
        ensures
            r is Ok,
    {
        proof {
            use_type_invariant(self);
            lemma_entries_map_characterization(self.entries@);
        }
        match self.find(id) {
            Some(_) => Ok(true),
            None => Ok(false),
        }
    }

    #[verifier::loop_isolation(false)]
    fn folder_exists(&self, id: &String) -> (r: Result<bool, Error>)
        ensures
            r is Ok,
    {
        proof {
            use_type_invariant(self);
            lemma_entries_map_characterization(self.entries@);
        }
        let mut p = id.clone();
        let pl = p.as_str().unicode_len();
        if pl == 0 || p.as_str().get_char(pl - 1) != '/' {
            p.append("/");
        }
        proof {
            reveal_strlit("/");
            assert(p@ =~= folder_prefix(id@));
        }
        let n = self.entries.len();
        let mut i: usize = 0;
        while i < n
            invariant
                n == self.entries@.len(),
                i <= n,
                p@ == folder_prefix(id@),
                forall|j: int|
                    0 <= j < i ==> !is_prefix_of(p@, #[trigger] self.entries@[j].0@),
            decreases n - i,
        {
            if str_starts_with(self.entries[i].0.as_str(), p.as_str()) {
                proof {
                    assert(self.contents().contains_key(self.entries@[i as int].0@));
                }
                return Ok(true);
            }
            i = i + 1;
        }
        proof {
            assert forall|k: Seq<char>| #[trigger]
                self.contents().contains_key(k) implies !is_prefix_of(folder_prefix(id@), k) by {
                let j = choose|j: int| 0 <= j < self.entries@.len() && self.entries@[j].0@ == k;
            }
        }
        Ok(false)
    }

    fn put(&mut self, id: String, data: &Vec<u8>) -> (r: Result<(), Error>)
        ensures
            r is Ok,
    {
        proof {
            use_type_invariant(&*self);
            lemma_entries_map_characterization(self.entries@);
        }
        let ghost old_entries = self.entries@;
        let pos = self.find(&id);
        let d = data.clone();
        proof {
            assert(d@ =~= data@);
        }
        let mut entries: Vec<(String, Vec<u8>)> = Vec::new();
        std::mem::swap(&mut entries, &mut self.entries);
        match pos {
            Some(i) => {
                let e = &mut entries[i];
                *e = (id, d);
                proof {
                    assert(distinct_keys(entries@)) by {
                        assert(forall|a: int, b: int|
                            0 <= a < b < entries@.len() && a != i && b != i
                                ==> entries@[a].0@ != entries@[b].0@);
                    }
                    lemma_entries_map_characterization(entries@);
                    let m_new = entries_map(entries@);
                    let m_tgt = entries_map(old_entries).insert(
                        entries@[i as int].0@,
                        entries@[i as int].1@,
                    );
                    let key = entries@[i as int].0@;
                    assert(old_entries[i as int].0@ == key);
                    assert forall|k: Seq<char>| #[trigger]
                        m_new.contains_key(k) implies m_tgt.contains_key(k) && m_new[k]
                        == m_tgt[k] by {
                        let j = choose|j: int| 0 <= j < entries@.len() && entries@[j].0@ == k;
                        if j == i {
                            assert(m_new[k] == entries@[j].1@);
                        } else {
                            assert(old_entries[j] == entries@[j]);
                            assert(entries_map(old_entries).contains_key(old_entries[j].0@));
                            assert(old_entries[j].0@ != key);
                            assert(m_new[k] == entries@[j].1@);
                            assert(m_tgt[k] == entries_map(old_entries)[k]);
                        }
                    }
                    assert forall|k: Seq<char>| #[trigger]
                        m_tgt.contains_key(k) implies m_new.contains_key(k) by {
                        if k == key {
                            assert(entries@[i as int].0@ == k);
                        } else {
                            assert(entries_map(old_entries).contains_key(k));
                            let j = choose|j: int|
                                0 <= j < old_entries.len() && old_entries[j].0@ == k;
                            assert(j != i);
                            assert(entries@[j].0@ == k);
                        }
                    }
                    assert(m_new =~= m_tgt);
                }
            },
            None => {
                entries.push((id, d));
                proof {
                    let s = entries@;
                    assert(s.drop_last() =~= old_entries);
                    assert(distinct_keys(s));
                }
            },
        }
        self.entries = entries;
        Ok(())
    }

    fn get_into(&self, id: &String, output: &mut Vec<u8>) -> (r: Result<u64, Error>)
        ensures
            (r is Ok) == self.contents().contains_key(id@),
            r matches Err(e) ==> e is NotFound,
    {
        proof {
            use_type_invariant(self);
            lemma_entries_map_characterization(self.entries@);
        }
        match self.find(id) {
            Some(i) => {
                let bytes = &self.entries[i].1;
                let m = bytes.len();
                let mut j: usize = 0;
                while j < m
                    invariant
                        m == bytes@.len(),
                        j <= m,
                        output@ == old(output)@ + bytes@.subrange(0, j as int),
                    decreases m - j,
                {
                    output.push(bytes[j]);
                    proof {
                        assert(output@ =~= old(output)@ + bytes@.subrange(0, j + 1 as int));
                    }
                    j = j + 1;
                }
                proof {
                    assert(bytes@.subrange(0, m as int) =~= bytes@);
                    assert(output@ =~= old(output)@ + self.contents()[id@]);
                }
                Ok(m as u64)
            },
            None => Err(Error::NotFound(id.clone())),
        }
    }

    fn delete(&mut self, id: &String) -> (r: Result<(), Error>)
        ensures
            r is Ok,
    {
        proof {
            use_type_invariant(&*self);
            lemma_entries_map_characterization(self.entries@);
        }
        let ghost old_entries = self.entries@;
        let pos = self.find(id);
        match pos {
            Some(i) => {
                let mut entries: Vec<(String, Vec<u8>)> = Vec::new();
                std::mem::swap(&mut entries, &mut self.entries);
                let _removed = entries.remove(i);
                proof {
                    assert forall|a: int, b: int|
                        0 <= a < b < entries@.len() implies entries@[a].0@ != entries@[b].0@ by {
                        let a0: int = if a < i { a } else { a + 1 };
                        let b0: int = if b < i { b } else { b + 1 };
                        assert(old_entries[a0] == entries@[a]);
                        assert(old_entries[b0] == entries@[b]);
                        assert(old_entries[a0].0@ != old_entries[b0].0@);
                    }
                    lemma_entries_map_characterization(entries@);
                    assert forall|k: Seq<char>| #[trigger]
                        entries_map(entries@).contains_key(k)
                            == entries_map(old_entries).remove(id@).contains_key(k) by {
                        if entries_map(entries@).contains_key(k) {
                            let a = choose|a: int|
                                0 <= a < entries@.len() && entries@[a].0@ == k;
                            let a0: int = if a < i { a } else { a + 1 };
                            assert(old_entries[a0].0@ == k);
                            assert(a0 != i);
                        }
                        if entries_map(old_entries).remove(id@).contains_key(k) {
                            let a0 = choose|a0: int|
                                0 <= a0 < old_entries.len() && old_entries[a0].0@ == k;
                            assert(a0 != i);
                            let a: int = if a0 < i { a0 } else { a0 - 1 };
                            assert(entries@[a].0@ == k);
                        }
                    }
                    assert forall|k: Seq<char>| #[trigger]
                        entries_map(entries@).contains_key(k) implies entries_map(entries@)[k]
                        == entries_map(old_entries).remove(id@)[k] by {
                        let a = choose|a: int| 0 <= a < entries@.len() && entries@[a].0@ == k;
                        let a0: int = if a < i { a } else { a + 1 };
                        assert(old_entries[a0] == entries@[a]);
                        assert(a0 != i);
                    }
                    assert(entries_map(entries@) =~= entries_map(old_entries).remove(id@));
                }
                self.entries = entries;
                Ok(())
            },
            None => {
                proof {
                    assert(entries_map(old_entries) =~= entries_map(old_entries).remove(id@));
                }
                Ok(())
            },
        }
    }

    #[verifier::loop_isolation(false)]
    #[verifier::rlimit(60)]
    fn list(&self, prefix: Option<&String>) -> (r: Result<Vec<String>, Error>)
        ensures
            r is Ok,
            r matches Ok(v) ==> sorted_ids(v@),
    {
        proof {
            use_type_invariant(self);
            lemma_entries_map_characterization(self.entries@);
        }
        let mut out: Vec<String> = Vec::new();
        let n = self.entries.len();
        let mut i: usize = 0;
        while i < n
            invariant
                n == self.entries@.len(),
                i <= n,
                distinct_keys(self.entries@),
                forall|a: int|
                    0 <= a < out@.len() ==> exists|j: int|
                        0 <= j < i && self.entries@[j].0@ == #[trigger] out@[a]@
                            && prefix_matches(opt_id_view(prefix), out@[a]@),
                forall|j: int|
                    0 <= j < i && prefix_matches(
                        opt_id_view(prefix),
                        #[trigger] self.entries@[j].0@,
                    ) ==> exists|a: int| 0 <= a < out@.len() && out@[a]@ == self.entries@[j].0@,
                forall|a: int, b: int| 0 <= a < b < out@.len() ==> out@[a]@ != out@[b]@,
                sorted_ids(out@),
            decreases n - i,
        {
            let ghost old_out = out@;
            let matched = match prefix {
                Some(p) => str_starts_with(self.entries[i].0.as_str(), p.as_str()),
                None => true,
            };
            if matched {
                let key = self.entries[i].0.clone();
                let ghost gkey: String = key;
                proof {
                    // the new key differs from everything already listed
                    assert forall|a: int|
                        0 <= a < old_out.len() implies #[trigger] old_out[a]@ != gkey@ by {
                        let j = choose|j: int|
                            0 <= j < i && self.entries@[j].0@ == old_out[a]@
                                && prefix_matches(opt_id_view(prefix), old_out[a]@);
                        assert(self.entries@[j].0@ != self.entries@[i as int].0@);
                    }
                }
                insert_sorted(&mut out, key);
                proof {
                    // link each listed entry to a processed key
                    assert forall|a: int|
                        0 <= a < out@.len() implies exists|j: int|
                        0 <= j < i + 1 && self.entries@[j].0@ == #[trigger] out@[a]@
                            && prefix_matches(opt_id_view(prefix), out@[a]@) by {
                        if out@[a]@ == gkey@ {
                            assert(0 <= i < i + 1 && self.entries@[i as int].0@ == out@[a]@
                                && prefix_matches(opt_id_view(prefix), out@[a]@));
                        } else {
                            let a0 = choose|a0: int|
                                0 <= a0 < old_out.len() && old_out[a0]@ == out@[a]@;
                            let j = choose|j: int|
                                0 <= j < i && self.entries@[j].0@ == old_out[a0]@
                                    && prefix_matches(opt_id_view(prefix), old_out[a0]@);
                            assert(0 <= j < i + 1 && self.entries@[j].0@ == out@[a]@
                                && prefix_matches(opt_id_view(prefix), out@[a]@));
                        }
                    }
                    // every processed key is still listed
                    assert forall|j: int|
                        0 <= j < i + 1 && prefix_matches(
                            opt_id_view(prefix),
                            #[trigger] self.entries@[j].0@,
                        ) implies exists|a: int|
                        0 <= a < out@.len() && out@[a]@ == self.entries@[j].0@ by {
                        if j < i {
                            let a0 = choose|a0: int|
                                0 <= a0 < old_out.len() && old_out[a0]@ == self.entries@[j].0@;
                            let a = choose|a: int|
                                0 <= a < out@.len() && out@[a]@ == old_out[a0]@;
                            assert(out@[a]@ == self.entries@[j].0@);
                        } else {
                            let a = choose|a: int| 0 <= a < out@.len() && out@[a]@ == gkey@;
                            assert(out@[a]@ == self.entries@[j].0@);
                        }
                    }
                }
            } else {
                proof {
                    assert forall|j: int|
                        0 <= j < i + 1 && prefix_matches(
                            opt_id_view(prefix),
                            #[trigger] self.entries@[j].0@,
                        ) implies exists|a: int|
                        0 <= a < out@.len() && out@[a]@ == self.entries@[j].0@ by {
                        if j < i {
                            let a = choose|a: int|
                                0 <= a < old_out.len() && old_out[a]@ == self.entries@[j].0@;
                            assert(out@[a]@ == self.entries@[j].0@);
                        }
                    }
                }
            }
            i = i + 1;
        }
        proof {
            assert(list_result_matches(self.contents(), opt_id_view(prefix), out@)) by {
                assert forall|a: int| 0 <= a < out@.len() implies self.contents().contains_key(
                    #[trigger] out@[a]@,
                ) && prefix_matches(opt_id_view(prefix), out@[a]@) by {
                    let j = choose|j: int|
                        0 <= j < n && self.entries@[j].0@ == out@[a]@ && prefix_matches(
                            opt_id_view(prefix),
                            out@[a]@,
                        );
                }
                assert forall|k: Seq<char>| #[trigger]
                    self.contents().contains_key(k) && prefix_matches(
                        opt_id_view(prefix),
                        k,
                    ) implies exists|a: int| 0 <= a < out@.len() && out@[a]@ == k by {
                    let j = choose|j: int|
                        0 <= j < self.entries@.len() && self.entries@[j].0@ == k;
                }
            }
        }
        Ok(out)
    }
}

} // verus!
