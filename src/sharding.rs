use vstd::prelude::*;
use std::collections::HashMap;
use std::sync::{Arc, Mutex};

verus! {

/// `std::sync::Mutex`, carried through as an opaque value.
#[verifier::external_type_specification]
#[verifier::external_body]
#[verifier::reject_recursive_types(T)]
pub struct ExMutex<T: ?Sized>(std::sync::Mutex<T>);

/// Relies on `Mutex::new`, which wraps the value and cannot fail.
pub assume_specification<T>[ std::sync::Mutex::<T>::new ](t: T) -> std::sync::Mutex<T>;

/// A key-value store cut into independently locked shards, each key living in the
/// shard its hash selects.
pub struct ShardedMutexKvStore {
    data: Arc<Vec<Mutex<HashMap<String, Vec<u8>>>>>,
}

impl ShardedMutexKvStore {
    /// The number of shards.
    pub closed spec fn shard_count(&self) -> nat {
        (*self.data)@.len()
    }

    /// A store with `num_shards` empty shards.
    pub fn new(num_shards: usize) -> (r: ShardedMutexKvStore)
        ensures
            r.shard_count() == num_shards,
    {
        let mut db: Vec<Mutex<HashMap<String, Vec<u8>>>> = Vec::with_capacity(num_shards);
        let mut i: usize = 0;
        while i < num_shards
            invariant
                0 <= i <= num_shards,
                db@.len() == i,
            decreases num_shards - i,
        {
            db.push(Mutex::new(HashMap::new()));
            i = i + 1;
        }
        ShardedMutexKvStore { data: Arc::new(db) }
    }

    /// Relies on `BuildHasher::hash_one` with std's `DefaultHasher`; nothing is
    /// promised of the value.
    #[verifier::external_body]
    fn hash(&self, key: &str) -> usize {
        let build = std::hash::BuildHasherDefault::<std::collections::hash_map::DefaultHasher>::default();
        std::hash::BuildHasher::hash_one(&build, key) as usize
    }

    /// The shard that a key with hash `h` lives in.
    pub fn shard_of(&self, h: usize) -> (r: usize)
        requires
            self.shard_count() > 0,
        ensures
            r == h as nat % self.shard_count(),
            r < self.shard_count(),
    {
        h % self.data.len()
    }

    /// The shard of a tenant id.
    pub fn get_shard(&self, user_id: String) -> (r: usize)
        requires
            self.shard_count() > 0,
        ensures
            r < self.shard_count(),
    {
        let h = self.hash(user_id.as_str());
        self.shard_of(h)
    }
}

} // verus!
