//! Content-addressed block storage: a durable key/value tree keyed by
//! SHA-256 digest, with an in-memory LRU in front for deduplication and
//! hot reads. The cache is never authoritative.

use vstd::prelude::*;
use crate::block::{BlockHash, sha256_of};

verus! {

/// How many blocks the LRU keeps; blocks are expected to stay under
/// 64 KiB, so this bounds the cache near 16 MiB.
pub const BLOCK_STORE_LRU_CAPACITY: usize = 256;

/// The durable key/value tree behind the block store, backed by `sled`.
#[verifier::external_body]
pub struct KvStore {
    db: sled::Db,
}

/// The mapping a `KvStore` holds.
pub uninterp spec fn kv_contents(s: KvStore) -> Map<Seq<u8>, Seq<u8>>;

impl KvStore {
    /// Relies on `sled::open`: opens or creates the tree under the given
    /// directory; its contents are whatever was stored there before.
    #[verifier::external_body]
    fn open(path: &str) -> (r: Result<KvStore, String>) {
        match sled::open(path) {
            Ok(db) => Ok(KvStore { db }),
            Err(e) => Err(format!("{}", e)),
        }
    }

    /// Relies on `sled::Tree::get`: the value stored under the key, if
    /// any; nothing is written.
    #[verifier::external_body]
    fn get(&self, key: &[u8]) -> (r: Result<Option<Vec<u8>>, String>)
        ensures
            match r {
                Ok(Some(v)) => kv_contents(*self).contains_key(key@) && kv_contents(*self)[key@]
                    == v@,
                Ok(None) => !kv_contents(*self).contains_key(key@),
                Err(_) => true,
            },
    {
        match self.db.get(key) {
            Ok(Some(v)) => Ok(Some(v.to_vec())),
            Ok(None) => Ok(None),
            Err(e) => Err(format!("{}", e)),
        }
    }

    /// Relies on `sled::Tree::insert`: on success the key holds the
    /// value and every other key is unchanged; on an error the write may
    /// or may not have landed, but no other key is touched.
    #[verifier::external_body]
    fn insert(&mut self, key: &[u8], value: &[u8]) -> (r: Result<(), String>)
        ensures
            match r {
                Ok(_) => kv_contents(*final(self)) == kv_contents(*old(self)).insert(key@, value@),
                Err(_) => kv_contents(*final(self)) == kv_contents(*old(self)) || kv_contents(
                    *final(self),
                ) == kv_contents(*old(self)).insert(key@, value@),
            },
    {
        match self.db.insert(key, value) {
            Ok(_) => Ok(()),
            Err(e) => Err(format!("{}", e)),
        }
    }
}

/// The in-memory LRU in front of the store, backed by
/// `lru_cache::LruCache`.
#[verifier::external_body]
pub struct BlockCache {
    cache: lru_cache::LruCache<Vec<u8>, Vec<u8>>,
}

/// The mapping a `BlockCache` currently holds.
pub uninterp spec fn cache_contents(c: BlockCache) -> Map<Seq<u8>, Seq<u8>>;

/// The entry bound a `BlockCache` was created with.
pub uninterp spec fn cache_capacity(c: BlockCache) -> nat;

impl BlockCache {
    /// Relies on `lru_cache::LruCache::new`: an empty cache that holds
    /// at most `capacity` entries. A zero bound would evict each entry
    /// the moment it is inserted, so it is not admitted.
    #[verifier::external_body]
    fn new(capacity: usize) -> (r: BlockCache)
        requires
            capacity >= 1,
        ensures
            cache_contents(r).dom() == Set::<Seq<u8>>::empty(),
            cache_capacity(r) == capacity,
    {
        BlockCache { cache: lru_cache::LruCache::new(capacity) }
    }

    /// Relies on `lru_cache::LruCache::get_mut`: the cached value for
    /// the key if present; recency changes, the mapping does not.
    #[verifier::external_body]
    fn get(&mut self, key: &[u8]) -> (r: Option<Vec<u8>>)
        ensures
            cache_contents(*final(self)) == cache_contents(*old(self)),
            cache_capacity(*final(self)) == cache_capacity(*old(self)),
            match r {
                Some(v) => cache_contents(*old(self)).contains_key(key@) && cache_contents(
                    *old(self),
                )[key@] == v@,
                None => !cache_contents(*old(self)).contains_key(key@),
            },
    {
        self.cache.get_mut(key).map(|v| v.clone())
    }

    /// Relies on `lru_cache::LruCache::insert`: afterwards the key holds
    /// the value; every other present key keeps its old value, though
    /// the least recently used entry may have been evicted. It evicts
    /// after inserting, so the bound must admit at least one entry or
    /// the new key itself would go.
    #[verifier::external_body]
    fn insert(&mut self, key: &[u8], value: &[u8])
        requires
            cache_capacity(*old(self)) >= 1,
        ensures
            cache_capacity(*final(self)) == cache_capacity(*old(self)),
            cache_contents(*final(self)).contains_key(key@),
            cache_contents(*final(self))[key@] == value@,
            forall|k: Seq<u8>| #[trigger] cache_contents(*final(self)).contains_key(k) ==> k
                == key@ || (cache_contents(*old(self)).contains_key(k) && cache_contents(
                *final(self),
            )[k] == cache_contents(*old(self))[k]),
    {
        self.cache.insert(key.to_vec(), value.to_vec());
    }

    /// Relies on `lru_cache::LruCache::remove`: the key is absent
    /// afterwards and no other mapping changes.
    #[verifier::external_body]
    fn remove(&mut self, key: &[u8])
        ensures
            cache_capacity(*final(self)) == cache_capacity(*old(self)),
            cache_contents(*final(self)) == cache_contents(*old(self)).remove(key@),
    {
        self.cache.remove(key);
    }
}

#[derive(Debug, Clone)]
pub enum StoreError {
    /// No block is stored under the requested hash.
    NotFound,
    /// The backing store failed; the message is its description.
    Io(String),
}

/// Content-addressed byte-block persistence. Every stored block's key is
/// the SHA-256 of its bytes, so re-storing identical bytes is idempotent
/// and the cache deduplicates by construction.
pub struct BlockStore {
    kv: KvStore,
    cache: BlockCache,
}

impl View for BlockStore {
    type V = Map<Seq<u8>, Seq<u8>>;

    closed spec fn view(&self) -> Map<Seq<u8>, Seq<u8>> {
        kv_contents(self.kv)
    }
}

impl BlockStore {
    /// Every cached entry agrees with the durable store, and the cache
    /// admits at least one entry.
    pub closed spec fn wf(self) -> bool {
        &&& cache_capacity(self.cache) >= 1
        &&& forall|k: Seq<u8>| #[trigger] cache_contents(self.cache).contains_key(k)
            ==> kv_contents(self.kv).contains_key(k) && cache_contents(self.cache)[k]
            == kv_contents(self.kv)[k]
    }

    /// Open or create the store under the given directory.
    pub fn open(path: &str) -> (r: Result<BlockStore, StoreError>)
        ensures
            match r {
                Ok(s) => s.wf(),
                Err(_) => true,
            },
    {
        match KvStore::open(path) {
            Ok(kv) => Ok(BlockStore { kv, cache: BlockCache::new(BLOCK_STORE_LRU_CAPACITY) }),
            Err(m) => Err(StoreError::Io(m)),
        }
    }

    /// Store bytes under their SHA-256 and return that hash. Storing the
    /// same bytes again leaves the same single block behind.
    pub fn set(&mut self, data: &[u8]) -> (r: Result<BlockHash, StoreError>)
        requires
            old(self).wf(),
        ensures
            final(self).wf(),
            match r {
                Ok(h) => h@ == sha256_of(data@) && final(self)@ == old(self)@.insert(
                    sha256_of(data@),
                    data@,
                ),
                Err(_) => final(self)@ == old(self)@ || final(self)@ == old(self)@.insert(
                    sha256_of(data@),
                    data@,
                ),
            },
    {
        let h = BlockHash::of_data(data);
        match self.kv.insert(h.as_bytes(), data) {
            Ok(_) => {
                self.cache.insert(h.as_bytes(), data);
                Ok(h)
            },
            Err(m) => {
                self.cache.remove(h.as_bytes());
                Err(StoreError::Io(m))
            },
        }
    }

    /// The block bytes stored under `hash`, or `NotFound`.
    pub fn get(&mut self, hash: &BlockHash) -> (r: Result<Vec<u8>, StoreError>)
        requires
            old(self).wf(),
        ensures
            final(self).wf(),
            final(self)@ == old(self)@,
            match r {
                Ok(v) => old(self)@.contains_key(hash@) && v@ == old(self)@[hash@],
                Err(StoreError::NotFound) => !old(self)@.contains_key(hash@),
                Err(StoreError::Io(_)) => true,
            },
    {
        match self.cache.get(hash.as_bytes()) {
            Some(v) => Ok(v),
            None => match self.kv.get(hash.as_bytes()) {
                Ok(Some(v)) => {
                    self.cache.insert(hash.as_bytes(), v.as_slice());
                    Ok(v)
                },
                Ok(None) => Err(StoreError::NotFound),
                Err(m) => Err(StoreError::Io(m)),
            },
        }
    }
}

/// Hash integrity: what `set` stores under the hash it returns is
/// exactly the given bytes, so a `get` of that hash finds them.
pub proof fn lemma_hash_integrity(m: Map<Seq<u8>, Seq<u8>>, data: Seq<u8>)
    ensures
        m.insert(sha256_of(data), data).contains_key(sha256_of(data)),
        m.insert(sha256_of(data), data)[sha256_of(data)] == data,
{
}

/// Dedup idempotence: storing the same bytes twice leaves exactly the
/// store that storing them once leaves, under the same hash.
pub proof fn lemma_set_idempotent(m: Map<Seq<u8>, Seq<u8>>, data: Seq<u8>)
    ensures
        m.insert(sha256_of(data), data).insert(sha256_of(data), data) == m.insert(
            sha256_of(data),
            data,
        ),
{
    assert(m.insert(sha256_of(data), data).insert(sha256_of(data), data) =~= m.insert(
        sha256_of(data),
        data,
    ));
}

} // verus!
