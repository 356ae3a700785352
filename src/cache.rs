//! A versioned cache of derived artifacts. An entry is stored with the
//! schema version it was written under and the time it was written; it is
//! handed back only under the same version and, where the cache has a time to
//! live, while it is younger than that. Times are milliseconds since the Unix
//! epoch. Reading and writing the entry's file is the caller's part.
use vstd::prelude::*;
use vstd::string::StringExecFns;

verus! {

/// What is stored under a key: the payload, the schema version it was
/// written under, and when it was written.
pub struct CacheEntry<T> {
    pub data: T,
    pub version: usize,
    pub created_at: u64,
}

/// A cache of one kind of artifact, under one schema version.
pub struct Cache<T> {
    kind: String,
    ttl: Option<u64>,
    version: usize,
    marker: core::marker::PhantomData<T>,
}

/// How old an entry written at `created_at` is at `now`; a clock that went
/// back counts as no time at all.
pub open spec fn age(created_at: u64, now: u64) -> int {
    if now >= created_at {
        now - created_at
    } else {
        0
    }
}

/// The file of an entry, relative to the project root.
pub open spec fn entry_path(kind: Seq<char>, key: Seq<char>) -> Seq<char> {
    ".cache/"@ + kind + "/"@ + key + ".json"@
}

impl<T> Cache<T> {
    pub closed spec fn kind(&self) -> Seq<char> {
        self.kind@
    }

    pub closed spec fn version(&self) -> usize {
        self.version
    }

    /// The time to live in milliseconds, if entries expire.
    pub closed spec fn ttl(&self) -> Option<u64> {
        self.ttl
    }

    /// The entry that writing `data` at `now` stores.
    pub open spec fn stored(&self, data: T, now: u64) -> CacheEntry<T> {
        CacheEntry { data, version: self.version(), created_at: now }
    }

    /// Whether a stored entry is handed back at `now`.
    pub open spec fn accepts(&self, entry: CacheEntry<T>, now: u64) -> bool {
        &&& entry.version == self.version()
        &&& match self.ttl() {
            Some(ttl) => age(entry.created_at, now) < ttl,
            None => true,
        }
    }

    /// What a read at `now` returns, given what is stored under the key.
    pub open spec fn lookup(&self, stored: Option<CacheEntry<T>>, now: u64) -> Option<T> {
        match stored {
            Some(entry) => if self.accepts(entry, now) {
                Some(entry.data)
            } else {
                None
            },
            None => None,
        }
    }

    pub fn new(kind: &str, version: usize) -> (c: Self)
        ensures
            c.kind() == kind@,
            c.version() == version,
            c.ttl() is None,
    {
        Cache {
            kind: String::from_str(kind),
            version,
            ttl: None,
            marker: core::marker::PhantomData,
        }
    }

    /// The same cache, with entries expiring `ttl` milliseconds after they
    /// were written.
    pub fn with_ttl(self, ttl: u64) -> (c: Self)
        ensures
            c.kind() == self.kind(),
            c.version() == self.version(),
            c.ttl() == Some(ttl),
    {
        let mut c = self;
        c.ttl = Some(ttl);
        c
    }

    /// The file that holds the entry of `key`: `.cache/<kind>/<key>.json`.
    pub fn get_path(&self, key: &str) -> (p: String)
        ensures
            p@ == entry_path(self.kind(), key@),
    {
        let mut p = String::from_str(".cache/");
        p.append(self.kind.as_str());
        p.append("/");
        p.append(key);
        p.append(".json");
        p
    }

    /// Writing `data` under `key` at `now`: the file to write, and the entry
    /// to write there in place of whatever it held.
    pub fn set(&self, key: &str, data: T, now: u64) -> (r: (String, CacheEntry<T>))
        ensures
            r.0@ == entry_path(self.kind(), key@),
            r.1 == self.stored(data, now),
    {
        (self.get_path(key), CacheEntry { data, version: self.version, created_at: now })
    }

    /// Reading at `now`, given the entry found under the key (`None` where
    /// there is none): the payload, or `None` where the entry was written
    /// under another version or has expired, exactly as if it were absent.
    pub fn get(&self, stored: Option<CacheEntry<T>>, now: u64) -> (r: Option<T>)
        ensures
            r == self.lookup(stored, now),
    {
        match stored {
            None => None,
            Some(entry) => {
                if entry.version != self.version {
                    return None;
                }
                match self.ttl {
                    None => Some(entry.data),
                    Some(ttl) => {
                        let age: u64 = if now >= entry.created_at {
                            now - entry.created_at
                        } else {
                            0
                        };
                        if age < ttl {
                            Some(entry.data)
                        } else {
                            None
                        }
                    },
                }
            },
        }
    }
}

/// What is written is read back under the same version while it is fresh;
/// under another version, or once the time to live has passed, the read is a
/// miss.
pub proof fn lemma_cache_round_trip<T>(cache: Cache<T>, other: Cache<T>, data: T, written: u64, read: u64)
    ensures
        cache.ttl() is None ==> cache.lookup(Some(cache.stored(data, written)), read) == Some(data),
        cache.ttl() matches Some(ttl) && age(written, read) < ttl ==> cache.lookup(
            Some(cache.stored(data, written)),
            read,
        ) == Some(data),
        other.version() != cache.version() ==> other.lookup(Some(cache.stored(data, written)), read)
            is None,
        cache.ttl() matches Some(ttl) && age(written, read) >= ttl ==> cache.lookup(
            Some(cache.stored(data, written)),
            read,
        ) is None,
{
}

} // verus!
