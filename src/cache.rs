//! Key-value stores for staged file contents: the interface that every backend
//! meets, the in-memory backend, and the path logic of the on-disk backend.

use vstd::prelude::*;
use vstd::string::StringExecFns;

verus! {

/// A store's contents, viewed as a map from key to payload.
pub type Entries = Map<Seq<char>, Seq<u8>>;

/// The payload stored under `key`, if any.
pub open spec fn lookup(m: Entries, key: Seq<char>) -> Option<Seq<u8>> {
    if m.contains_key(key) {
        Some(m[key])
    } else {
        None
    }
}

/// The view of a loaded payload.
pub open spec fn payload_view(r: Option<Vec<u8>>) -> Option<Seq<u8>> {
    match r {
        Some(v) => Some(v@),
        None => None,
    }
}

/// A store that maps keys to byte payloads; storing a key again replaces its payload.
pub trait Cache {
    /// The store's internal well-formedness.
    spec fn inv(&self) -> bool;

    /// What the store holds.
    spec fn contents(&self) -> Entries;

    /// Whether a payload is stored under `key`.
    fn has(&self, key: &str) -> (r: bool)
        requires
            self.inv(),
        ensures
            r == self.contents().contains_key(key@),
    ;

    /// The payload stored under `key`.
    fn load(&self, key: &str) -> (r: Option<Vec<u8>>)
        requires
            self.inv(),
        ensures
            payload_view(r) == lookup(self.contents(), key@),
    ;

    /// Stores `value` under `key`, replacing what was there.
    fn store(&mut self, key: &str, value: Vec<u8>)
        requires
            old(self).inv(),
        ensures
            final(self).inv(),
            final(self).contents() == old(self).contents().insert(key@, value@),
    ;
}

/// An in-process store.
pub struct MemoryCache {
    entries: Vec<(String, Vec<u8>)>,
    model: Ghost<Entries>,
}

impl MemoryCache {
    /// An empty store.
    pub fn new() -> (r: MemoryCache)
        ensures
            r.inv(),
            r.contents() == Map::<Seq<char>, Seq<u8>>::empty(),
    {
        MemoryCache { entries: Vec::new(), model: Ghost(Map::empty()) }
    }

    /// The position of `key` among the entries, if it is there.
    fn position(&self, key: &String) -> (r: Option<usize>)
        requires
            self.inv(),
        ensures
            match r {
                Some(i) => i < self.entries@.len() && self.entries@[i as int].0@ == key@,
                None => !self.contents().contains_key(key@),
            },
    {
        let mut i: usize = 0;
        while i < self.entries.len()
            invariant
                self.inv(),
                i <= self.entries@.len(),
                forall|j: int| 0 <= j < i ==> self.entries@[j].0@ != key@,
            decreases self.entries@.len() - i,
        {
            if self.entries[i].0 == *key {
                return Some(i);
            }
            i += 1;
        }
        None
    }
}

impl Cache for MemoryCache {
    closed spec fn inv(&self) -> bool {
        &&& forall|i: int|
            0 <= i < self.entries@.len() ==> #[trigger] self.model@.contains_key(
                self.entries@[i].0@,
            ) && self.model@[self.entries@[i].0@] == self.entries@[i].1@
        &&& forall|k: Seq<char>|
            #[trigger] self.model@.contains_key(k) ==> exists|i: int|
                0 <= i < self.entries@.len() && #[trigger] self.entries@[i].0@ == k
        &&& forall|i: int, j: int|
            0 <= i < j < self.entries@.len() ==> #[trigger] self.entries@[i].0@
                != #[trigger] self.entries@[j].0@
    }

    closed spec fn contents(&self) -> Entries {
        self.model@
    }

    fn has(&self, key: &str) -> (r: bool) {
        let k = key.to_owned();
        self.position(&k).is_some()
    }

    fn load(&self, key: &str) -> (r: Option<Vec<u8>>) {
        let k = key.to_owned();
        match self.position(&k) {
            Some(i) => {
                let v = self.entries[i].1.clone();
                assert(v@ == self.entries@[i as int].1@);
                Some(v)
            },
            None => None,
        }
    }

    fn store(&mut self, key: &str, value: Vec<u8>) {
        let k = key.to_owned();
        let ghost old_entries = self.entries@;
        let ghost old_model = self.model@;
        let ghost m = self.model@.insert(key@, value@);
        match self.position(&k) {
            Some(i) => {
                self.entries.set(i, (k, value));
                self.model = Ghost(m);
                assert forall|k2: Seq<char>| #[trigger] self.model@.contains_key(k2) implies exists|
                    j: int,
                | 0 <= j < self.entries@.len() && #[trigger] self.entries@[j].0@ == k2 by {
                    if k2 != key@ {
                        assert(old_model.contains_key(k2));
                        let j = choose|j: int|
                            0 <= j < old_entries.len() && #[trigger] old_entries[j].0@ == k2;
                        assert(self.entries@[j].0@ == k2);
                    } else {
                        assert(self.entries@[i as int].0@ == k2);
                    }
                }
            },
            None => {
                assert forall|j: int| 0 <= j < old_entries.len() implies old_entries[j].0@
                    != key@ by {
                    assert(old_model.contains_key(old_entries[j].0@));
                }
                self.entries.push((k, value));
                self.model = Ghost(m);
                assert forall|k2: Seq<char>| #[trigger] self.model@.contains_key(k2) implies exists|
                    j: int,
                | 0 <= j < self.entries@.len() && #[trigger] self.entries@[j].0@ == k2 by {
                    if k2 != key@ {
                        assert(old_model.contains_key(k2));
                        let j = choose|j: int|
                            0 <= j < old_entries.len() && #[trigger] old_entries[j].0@ == k2;
                        assert(self.entries@[j].0@ == k2);
                    } else {
                        assert(self.entries@[old_entries.len() as int].0@ == k2);
                    }
                }
            },
        }
    }
}

/// Errors in setting up an on-disk store.
#[derive(Debug, Clone, Copy, PartialEq, Eq, Structural)]
pub enum CacheError {
    /// The location exists and is a regular file.
    InvalidLocation,
    /// The location was missing and could not be created.
    DirectoryCreateFailed,
}

/// What is found at a store's location before the store is set up.
#[derive(Debug, Clone, Copy, PartialEq, Eq, Structural)]
pub enum LocationKind {
    Missing,
    Directory,
    File,
}

/// What is to be done with a store's location before the store is set up.
#[derive(Debug, Clone, Copy, PartialEq, Eq, Structural)]
pub enum LocationStep {
    /// Refuse the location: the store cannot live there.
    Reject,
    /// Create the directory, with any missing parents.
    Create,
    /// Use the directory as it is.
    Open,
}

/// A store kept in a directory: each key is one file under it, holding the payload.
pub struct DiskCache {
    cache_location: String,
}

impl DiskCache {
    /// The directory that holds the entries.
    pub closed spec fn location(&self) -> Seq<char> {
        self.cache_location@
    }

    /// What to do with a location before setting up a store there.
    pub fn location_step(kind: LocationKind) -> (r: LocationStep)
        ensures
            kind == LocationKind::File ==> r == LocationStep::Reject,
            kind == LocationKind::Missing ==> r == LocationStep::Create,
            kind == LocationKind::Directory ==> r == LocationStep::Open,
    {
        match kind {
            LocationKind::File => LocationStep::Reject,
            LocationKind::Missing => LocationStep::Create,
            LocationKind::Directory => LocationStep::Open,
        }
    }

    /// Sets up a store at `cache_location`, given what was found there and, where it
    /// was missing, whether creating the directory succeeded.
    pub fn new(cache_location: String, kind: LocationKind, created: bool) -> (r: Result<
        DiskCache,
        CacheError,
    >)
        ensures
            kind == LocationKind::File ==> r is Err && r->Err_0 == CacheError::InvalidLocation,
            kind == LocationKind::Missing && !created ==> r is Err && r->Err_0
                == CacheError::DirectoryCreateFailed,
            kind == LocationKind::Directory || (kind == LocationKind::Missing && created) ==> (r is Ok
                && r->Ok_0.location() == cache_location@),
    {
        match kind {
            LocationKind::File => Err(CacheError::InvalidLocation),
            LocationKind::Missing if !created => Err(CacheError::DirectoryCreateFailed),
            _ => Ok(DiskCache { cache_location }),
        }
    }

    /// The file that holds the payload of `key`.
    pub fn entry_path(&self, key: &str) -> (r: String)
        ensures
            r@ == self.location() + seq!['/'] + key@,
    {
        let sep = "/";
        proof {
            reveal_strlit("/");
        }
        let dir = self.cache_location.clone();
        let with_sep = dir.concat(sep);
        with_sep.concat(key)
    }
}

/// The contents after storing each of `writes` in turn, starting from `m`.
pub open spec fn after_stores(m: Entries, writes: Seq<(Seq<char>, Seq<u8>)>) -> Entries
    decreases writes.len(),
{
    if writes.len() == 0 {
        m
    } else {
        let last = writes.last();
        after_stores(m, writes.drop_last()).insert(last.0, last.1)
    }
}

/// After a payload is stored under a key, loading the key gives that payload and
/// the key is present.
pub proof fn lemma_store_then_load(m: Entries, key: Seq<char>, bytes: Seq<u8>)
    ensures
        lookup(m.insert(key, bytes), key) == Some(bytes),
        m.insert(key, bytes).contains_key(key),
{
}

/// Storing twice under one key keeps only the second payload.
pub proof fn lemma_store_overwrites(m: Entries, key: Seq<char>, first: Seq<u8>, second: Seq<u8>)
    ensures
        lookup(m.insert(key, first).insert(key, second), key) == Some(second),
{
}

/// In a store that started empty, a key that was never stored is absent and
/// loads nothing.
pub proof fn lemma_never_stored(writes: Seq<(Seq<char>, Seq<u8>)>, key: Seq<char>)
    requires
        forall|i: int| 0 <= i < writes.len() ==> (#[trigger] writes[i]).0 != key,
    ensures
        !after_stores(Map::empty(), writes).contains_key(key),
        lookup(after_stores(Map::empty(), writes), key) == None::<Seq<u8>>,
    decreases writes.len(),
{
    if writes.len() > 0 {
        let rest = writes.drop_last();
        assert forall|i: int| 0 <= i < rest.len() implies (#[trigger] rest[i]).0 != key by {
            assert(rest[i] == writes[i]);
        }
        lemma_never_stored(rest, key);
        assert(writes.last() == writes[writes.len() - 1]);
    }
}

} // verus!
