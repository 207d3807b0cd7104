//! The in-memory backend.
//!
//! Entries live in an association list whose keys are kept unique, so the
//! list denotes exactly one map from keys to byte values.  Nothing is ever
//! written to disk; dropping the store drops the data.

use vstd::prelude::*;
use vstd::slice::slice_to_vec;
use vstd::string::*;

use crate::api::{BackingStore, Scope};
use crate::error::KvsError;
use crate::scope::Ephemeral;

verus! {

/// The map an association list denotes.  A later entry would win over an
/// earlier one with the same key; the store keeps keys unique, so each key
/// occurs at most once.
pub open spec fn assoc_map(s: Seq<(String, Vec<u8>)>) -> Map<Seq<char>, Seq<u8>>
    decreases s.len(),
{
    if s.len() == 0 {
        Map::empty()
    } else {
        assoc_map(s.drop_last()).insert(s.last().0@, s.last().1@)
    }
}

/// No two entries share a key.
pub open spec fn distinct_keys(s: Seq<(String, Vec<u8>)>) -> bool {
    forall|i: int, j: int| 0 <= i < j < s.len() ==> s[i].0@ != s[j].0@
}

/// A key is in the denoted map exactly when some entry holds it.
proof fn lemma_assoc_contains(s: Seq<(String, Vec<u8>)>, k: Seq<char>)
    ensures
        assoc_map(s).contains_key(k) <==> (exists|i: int| 0 <= i < s.len() && s[i].0@ == k),
    decreases s.len(),
{
    if s.len() > 0 {
        let dl = s.drop_last();
        lemma_assoc_contains(dl, k);
        if s.last().0@ == k {
            assert(s[s.len() - 1].0@ == k);
        } else {
            if assoc_map(s).contains_key(k) {
                let i = choose|i: int| 0 <= i < dl.len() && dl[i].0@ == k;
                assert(s[i].0@ == k);
            }
            if exists|i: int| 0 <= i < s.len() && s[i].0@ == k {
                let i = choose|i: int| 0 <= i < s.len() && s[i].0@ == k;
                assert(dl[i].0@ == k);
            }
        }
    }
}

/// Each entry's value is what the denoted map holds for the entry's key,
/// when keys are unique.
proof fn lemma_assoc_get(s: Seq<(String, Vec<u8>)>, i: int)
    requires
        distinct_keys(s),
        0 <= i < s.len(),
    ensures
        assoc_map(s).contains_key(s[i].0@),
        assoc_map(s)[s[i].0@] == s[i].1@,
    decreases s.len(),
{
    if i < s.len() - 1 {
        let dl = s.drop_last();
        assert(distinct_keys(dl));
        lemma_assoc_get(dl, i);
        assert(s[i].0@ != s.last().0@);
    }
}

/// Removing entry `i` removes exactly its key from the denoted map, when
/// keys are unique.
proof fn lemma_assoc_remove(s: Seq<(String, Vec<u8>)>, i: int)
    requires
        distinct_keys(s),
        0 <= i < s.len(),
    ensures
        assoc_map(s.remove(i)) == assoc_map(s).remove(s[i].0@),
    decreases s.len(),
{
    let k = s[i].0@;
    s.remove_ensures(i);
    if i == s.len() - 1 {
        let dl = s.drop_last();
        assert(s.remove(i) =~= dl);
        lemma_assoc_contains(dl, k);
        assert(!assoc_map(dl).contains_key(k));
        assert(assoc_map(s).remove(k) =~= assoc_map(dl));
    } else {
        let dl = s.drop_last();
        assert(distinct_keys(dl));
        lemma_assoc_remove(dl, i);
        assert(s.remove(i).drop_last() =~= dl.remove(i));
        assert(s.remove(i).last() == s.last());
        assert(s.last().0@ != k);
        assert(assoc_map(s.remove(i)) == assoc_map(dl.remove(i)).insert(
            s.last().0@,
            s.last().1@,
        ));
        assert(assoc_map(dl).remove(k).insert(s.last().0@, s.last().1@) =~= assoc_map(
            dl,
        ).insert(s.last().0@, s.last().1@).remove(k));
    }
}

/// Removing an entry keeps the remaining keys unique, and its key — which
/// occurred only once — is gone.
proof fn lemma_distinct_remove(s: Seq<(String, Vec<u8>)>, i: int)
    requires
        distinct_keys(s),
        0 <= i < s.len(),
    ensures
        distinct_keys(s.remove(i)),
        forall|j: int| 0 <= j < s.remove(i).len() ==> #[trigger] s.remove(i)[j].0@ != s[i].0@,
{
    s.remove_ensures(i);
    assert forall|a: int, b: int| 0 <= a < b < s.remove(i).len() implies s.remove(i)[a].0@ != s
        .remove(i)[b].0@ by {
        let a0: int = if a < i {
            a
        } else {
            a + 1
        };
        let b0: int = if b < i {
            b
        } else {
            b + 1
        };
        assert(s.remove(i)[a] == s[a0]);
        assert(s.remove(i)[b] == s[b0]);
    }
    assert forall|j: int| 0 <= j < s.remove(i).len() implies #[trigger] s.remove(i)[j].0@ != s[
        i
    ].0@ by {
        let j0: int = if j < i {
            j
        } else {
            j + 1
        };
        assert(s.remove(i)[j] == s[j0]);
    }
}

/// In-memory key-value store.
///
/// All data stays in memory: fast access, no persistence, no I/O failures.
/// Every operation on it succeeds.
pub struct EphemeralStore {
    entries: Vec<(String, Vec<u8>)>,
}

impl EphemeralStore {
    /// Creates a new, empty in-memory store.
    pub fn new() -> (r: EphemeralStore)
        ensures
            r.inv(),
            r.contents() == Map::<Seq<char>, Seq<u8>>::empty(),
    {
        let r = EphemeralStore { entries: Vec::new() };
        proof {
            assert(r.contents() =~= Map::<Seq<char>, Seq<u8>>::empty());
        }
        r
    }

    /// Finds the index of the entry holding `key`, if one does.
    fn find(&self, key: &String) -> (r: Option<usize>)
        ensures
            match r {
                Some(i) => 0 <= i < self.entries@.len() && self.entries@[i as int].0@ == key@,
                None => forall|j: int| 0 <= j < self.entries@.len() ==> self.entries@[j].0@ != key@,
            },
    {
        let n = self.entries.len();
        let mut i: usize = 0;
        while i < n
            invariant
                n == self.entries@.len(),
                0 <= i <= n,
                forall|j: int| 0 <= j < i ==> self.entries@[j].0@ != key@,
            decreases n - i,
        {
            if self.entries[i].0 == *key {
                return Some(i);
            }
            i = i + 1;
        }
        None
    }
}

impl BackingStore for EphemeralStore {
    closed spec fn contents(&self) -> Map<Seq<char>, Seq<u8>> {
        assoc_map(self.entries@)
    }

    closed spec fn inv(&self) -> bool {
        distinct_keys(self.entries@)
    }

    fn keys(&self) -> (r: Result<Vec<String>, KvsError>)
        ensures
            r is Ok,
    {
        let n = self.entries.len();
        let mut ks: Vec<String> = Vec::new();
        for idx in 0..n
            invariant
                n == self.entries@.len(),
                ks@.len() == idx,
                forall|j: int| 0 <= j < idx ==> ks@[j]@ == self.entries@[j].0@,
        {
            ks.push(self.entries[idx].0.clone());
        }
        proof {
            let m = ks@.map_values(|k: String| k@);
            assert forall|j: int| 0 <= j < m.len() implies m[j] == self.entries@[j].0@ by {}
            assert forall|k: Seq<char>|
                m.to_set().contains(k) implies self.contents().dom().contains(k) by {
                let j = choose|j: int| 0 <= j < m.len() && m[j] == k;
                lemma_assoc_contains(self.entries@, k);
                assert(self.entries@[j].0@ == k);
            }
            assert forall|k: Seq<char>|
                self.contents().dom().contains(k) implies m.to_set().contains(k) by {
                lemma_assoc_contains(self.entries@, k);
                let j = choose|j: int| 0 <= j < self.entries@.len() && self.entries@[j].0@ == k;
                assert(m[j] == k);
                assert(m.contains(k));
            }
            assert(m.to_set() =~= self.contents().dom());
        }
        Ok(ks)
    }

    fn store(&mut self, key: &str, value: &[u8]) -> (r: Result<(), KvsError>)
        ensures
            r is Ok,
    {
        let owned = key.to_owned();
        let ghost s0 = self.entries@;
        let ghost k = key@;
        match self.find(&owned) {
            Some(i) => {
                proof {
                    lemma_assoc_remove(s0, i as int);
                    lemma_distinct_remove(s0, i as int);
                }
                self.entries.remove(i);
                proof {
                    assert(forall|j: int|
                        0 <= j < self.entries@.len() ==> #[trigger] self.entries@[j].0@ != k);
                }
            },
            None => {},
        }
        let ghost s1 = self.entries@;
        self.entries.push((owned, slice_to_vec(value)));
        proof {
            assert(self.entries@.drop_last() =~= s1);
            assert(self.entries@.last().0@ == k);
            assert(self.contents() == assoc_map(s1).insert(k, value@));
            if exists|i: int| 0 <= i < s0.len() && s0[i].0@ == k {
                assert(assoc_map(s1).insert(k, value@) =~= assoc_map(s0).insert(k, value@));
            } else {
                assert(s1 =~= s0);
            }
            assert forall|a: int, b: int|
                0 <= a < b < self.entries@.len() implies self.entries@[a].0@ != self.entries@[
                b
            ].0@ by {
                if b == self.entries@.len() - 1 {
                    assert(self.entries@[a] == s1[a]);
                } else {
                    assert(self.entries@[a] == s1[a]);
                    assert(self.entries@[b] == s1[b]);
                }
            }
        }
        Ok(())
    }

    fn retrieve(&self, key: &str) -> (r: Result<Option<Vec<u8>>, KvsError>)
        ensures
            r is Ok,
    {
        let owned = key.to_owned();
        match self.find(&owned) {
            Some(i) => {
                proof {
                    lemma_assoc_get(self.entries@, i as int);
                }
                Ok(Some(slice_to_vec(self.entries[i].1.as_slice())))
            },
            None => {
                proof {
                    lemma_assoc_contains(self.entries@, key@);
                }
                Ok(None)
            },
        }
    }

    fn remove(&mut self, key: &str) -> (r: Result<(), KvsError>)
        ensures
            r is Ok,
    {
        let owned = key.to_owned();
        let ghost s0 = self.entries@;
        match self.find(&owned) {
            Some(i) => {
                proof {
                    lemma_assoc_remove(s0, i as int);
                    lemma_distinct_remove(s0, i as int);
                }
                self.entries.remove(i);
                Ok(())
            },
            None => {
                proof {
                    lemma_assoc_contains(s0, key@);
                    assert(self.contents().remove(key@) =~= self.contents());
                }
                Ok(())
            },
        }
    }
}

impl Scope for Ephemeral {
    type Store = EphemeralStore;

    /// An in-memory store is always available and starts empty.
    fn new() -> (r: Result<EphemeralStore, KvsError>)
        ensures
            r is Ok,
            r matches Ok(s) ==> s.contents() == Map::<Seq<char>, Seq<u8>>::empty(),
    {
        Ok(EphemeralStore::new())
    }
}

} // verus!
