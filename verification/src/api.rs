//! The store abstraction: a uniform byte-level backend contract and the
//! typed front-end that layers the codec on top of it.
//!
//! A [`BackingStore`] maps string keys to byte values; its abstract
//! contents are a `Map<Seq<char>, Seq<u8>>`.  A [`Scope`] picks and builds
//! a ready-to-use backend.  [`KeyValueStore`] binds a scope to its backend
//! and converts values with [`OutBytes`] / [`InBytes`], so callers work
//! with typed values instead of raw bytes.

use vstd::prelude::*;

use crate::convert::{InBytes, OutBytes};
use crate::error::KvsError;

verus! {

/// The byte-level contract every storage backend implements.
///
/// `contents` is the backend's abstract state: the map from keys to stored
/// byte values.  Operations may fail (a durable backend does I/O); a
/// failed `store` or `remove` leaves the contents unchanged, and no
/// operation ever reports a decode error — those belong to the codec.
pub trait BackingStore: Sized {
    /// The map from keys to stored byte values that the backend holds.
    /// A backend overrides this with its real abstraction; the default
    /// carries no information.
    open spec fn contents(&self) -> Map<Seq<char>, Seq<u8>> {
        Map::empty()
    }

    /// The backend's internal well-formedness.
    open spec fn inv(&self) -> bool {
        true
    }

    /// Lists every stored key exactly once, in an unspecified order.
    fn keys(&self) -> (r: Result<Vec<String>, KvsError>)
        requires
            self.inv(),
        ensures
            r matches Ok(ks) ==> {
                &&& ks@.map_values(|k: String| k@).to_set() == self.contents().dom()
                &&& ks@.map_values(|k: String| k@).no_duplicates()
            },
    ;

    /// Stores `value` under `key`, replacing any prior value.
    fn store(&mut self, key: &str, value: &[u8]) -> (r: Result<(), KvsError>)
        requires
            old(self).inv(),
        ensures
            final(self).inv(),
            r is Ok ==> final(self).contents() == old(self).contents().insert(key@, value@),
            r is Err ==> final(self).contents() == old(self).contents(),
    ;

    /// Retrieves the value stored under `key`; an absent key is `None`,
    /// not an error.
    fn retrieve(&self, key: &str) -> (r: Result<Option<Vec<u8>>, KvsError>)
        requires
            self.inv(),
        ensures
            r matches Ok(v) ==> match v {
                Some(b) => self.contents().contains_key(key@) && b@ == self.contents()[key@],
                None => !self.contents().contains_key(key@),
            },
            r matches Err(e) ==> !e.is_decode_error(),
    ;

    /// Removes the value stored under `key`.
    fn remove(&mut self, key: &str) -> (r: Result<(), KvsError>)
        requires
            old(self).inv(),
        ensures
            final(self).inv(),
            r is Ok ==> final(self).contents() == old(self).contents().remove(key@),
            r is Err ==> final(self).contents() == old(self).contents(),
    ;
}

/// A storage locality: something that can produce a ready-to-use backend.
///
/// Resolving the backing location (a directory, a registry subtree) is the
/// implementor's concern; a failure to resolve it is reported through the
/// scope-specific error variants rather than a generic I/O error.
pub trait Scope: Sized {
    /// The backing store implementation this scope selects.
    type Store: BackingStore;

    /// Creates a new backend instance for this scope.
    fn new() -> (r: Result<Self::Store, KvsError>)
        ensures
            r matches Ok(s) ==> s.inv(),
    ;
}

/// A typed key-value store bound to a storage scope.
///
/// `store` encodes the value and hands the bytes to the backend;
/// `retrieve` reads the bytes back and decodes them as the requested type.
/// The bytes carry no type tag: decoding at a different type than was
/// encoded fails, or succeeds only by accident of coinciding byte shapes.
pub struct KeyValueStore<S: Scope> {
    inner: S::Store,
}

impl<S: Scope> KeyValueStore<S> {
    /// The abstract contents of the underlying backend.
    pub closed spec fn contents(&self) -> Map<Seq<char>, Seq<u8>> {
        self.inner.contents()
    }

    /// The underlying backend's well-formedness.
    pub closed spec fn inv(&self) -> bool {
        self.inner.inv()
    }

    /// Creates a key-value store for the chosen scope.
    pub fn new() -> (r: Result<Self, KvsError>)
        ensures
            r matches Ok(s) ==> s.inv(),
    {
        Ok(KeyValueStore { inner: S::new()? })
    }

    /// Lists every stored key exactly once, in an unspecified order.
    pub fn keys(&self) -> (r: Result<Vec<String>, KvsError>)
        requires
            self.inv(),
        ensures
            r matches Ok(ks) ==> {
                &&& ks@.map_values(|k: String| k@).to_set() == self.contents().dom()
                &&& ks@.map_values(|k: String| k@).no_duplicates()
            },
    {
        self.inner.keys()
    }

    /// Encodes `value` and stores the bytes under `key`, replacing any
    /// prior value.
    pub fn store<V: OutBytes>(&mut self, key: &str, value: V) -> (r: Result<(), KvsError>)
        requires
            old(self).inv(),
        ensures
            final(self).inv(),
            r is Ok ==> final(self).contents() == old(self).contents().insert(
                key@,
                value.encoded(),
            ),
            r is Err ==> final(self).contents() == old(self).contents(),
    {
        let bytes = value.out_bytes()?;
        self.inner.store(key, bytes.as_slice())
    }

    /// Retrieves the value under `key` and decodes it as `V`.  An absent
    /// key is `Ok(None)`, not an error; a present value whose bytes `V`
    /// rejects is a decode error.
    pub fn retrieve<V: InBytes>(&self, key: &str) -> (r: Result<Option<V>, KvsError>)
        requires
            self.inv(),
        ensures
            r matches Ok(v) ==> match v {
                Some(value) => {
                    &&& self.contents().contains_key(key@)
                    &&& V::accepts(self.contents()[key@])
                    &&& V::decoded_by(self.contents()[key@], value)
                },
                None => !self.contents().contains_key(key@),
            },
            r matches Err(e) ==> (e.is_decode_error() ==> self.contents().contains_key(key@)
                && !V::accepts(self.contents()[key@])),
    {
        match self.inner.retrieve(key)? {
            Some(data) => Ok(Some(V::in_bytes(data.as_slice())?)),
            None => Ok(None),
        }
    }

    /// Removes the value stored under `key`.
    pub fn remove(&mut self, key: &str) -> (r: Result<(), KvsError>)
        requires
            old(self).inv(),
        ensures
            final(self).inv(),
            r is Ok ==> final(self).contents() == old(self).contents().remove(key@),
            r is Err ==> final(self).contents() == old(self).contents(),
    {
        self.inner.remove(key)
    }
}

// Store laws.  `store`, `retrieve`, `remove` and `keys` tie their results
// to the contents map (`insert`, lookup, `remove`, `dom`); the lemmas below
// state what those maps then hold, so together with the contracts they say
// how the operations behave in sequence.

/// Atomic overwrite: after a successful `store` of `v` under `k`, the
/// contents hold exactly `v` for `k` — never the prior value and never a
/// mixture — and every other key is untouched.
pub proof fn lemma_store_overwrites(
    m: Map<Seq<char>, Seq<u8>>,
    k: Seq<char>,
    v: Seq<u8>,
    other: Seq<char>,
)
    ensures
        m.insert(k, v).contains_key(k),
        m.insert(k, v)[k] == v,
        other != k ==> (m.insert(k, v).contains_key(other) <==> m.contains_key(other)),
        other != k && m.contains_key(other) ==> m.insert(k, v)[other] == m[other],
{
}

/// Absence: after a successful `remove` of `k`, the key is absent — a
/// following `retrieve` reports `None`, not an error — and every other key
/// is untouched.
pub proof fn lemma_remove_makes_absent(m: Map<Seq<char>, Seq<u8>>, k: Seq<char>, other: Seq<char>)
    ensures
        !m.remove(k).contains_key(k),
        other != k ==> (m.remove(k).contains_key(other) <==> m.contains_key(other)),
        other != k && m.contains_key(other) ==> m.remove(k)[other] == m[other],
{
}

/// The contents after a batch of successful stores, applied in order.
pub open spec fn after_stores(
    m: Map<Seq<char>, Seq<u8>>,
    ps: Seq<(Seq<char>, Seq<u8>)>,
) -> Map<Seq<char>, Seq<u8>>
    decreases ps.len(),
{
    if ps.len() == 0 {
        m
    } else {
        after_stores(m, ps.drop_last()).insert(ps.last().0, ps.last().1)
    }
}

/// The set of keys a batch of stores writes.
pub open spec fn stored_keys(ps: Seq<(Seq<char>, Seq<u8>)>) -> Set<Seq<char>> {
    Set::new(|k: Seq<char>| exists|i: int| 0 <= i < ps.len() && ps[i].0 == k)
}

/// Key-listing completeness and exclusivity: after any batch of stores,
/// the key set is exactly the prior keys together with the stored ones —
/// in particular, storing N distinct keys into an empty store makes
/// `keys()` list exactly those N keys, each once.
pub proof fn lemma_keys_after_stores(m: Map<Seq<char>, Seq<u8>>, ps: Seq<(Seq<char>, Seq<u8>)>)
    ensures
        after_stores(m, ps).dom() == m.dom() + stored_keys(ps),
    decreases ps.len(),
{
    if ps.len() == 0 {
        assert(after_stores(m, ps).dom() =~= m.dom() + stored_keys(ps));
    } else {
        let dl = ps.drop_last();
        lemma_keys_after_stores(m, dl);
        assert forall|k: Seq<char>|
            after_stores(m, ps).dom().contains(k) implies (m.dom() + stored_keys(ps)).contains(
            k,
        ) by {
            if k == ps.last().0 {
                assert(ps[ps.len() - 1].0 == k);
            } else if !m.dom().contains(k) {
                let i = choose|i: int| 0 <= i < dl.len() && dl[i].0 == k;
                assert(ps[i].0 == k);
            }
        }
        assert forall|k: Seq<char>|
            (m.dom() + stored_keys(ps)).contains(k) implies after_stores(m, ps).dom().contains(
            k,
        ) by {
            if !m.dom().contains(k) {
                let i = choose|i: int| 0 <= i < ps.len() && ps[i].0 == k;
                if i < ps.len() - 1 {
                    assert(dl[i].0 == k);
                }
            }
        }
        assert(after_stores(m, ps).dom() =~= m.dom() + stored_keys(ps));
    }
}

} // verus!
