//! The in-memory cache of tile sizes.

use dashmap::DashMap;
use rustc_hash::FxBuildHasher;
use vstd::prelude::*;

use crate::tiles::Encoding;

verus! {

/// What a size is cached under: the same tile has one entry per encoding.
#[derive(Debug, Clone, Copy, PartialEq, Eq, Hash, Structural)]
pub struct CacheKey {
    pub level: u8,
    pub tile_id: u32,
    pub encoding: Encoding,
}

/// `dashmap::DashMap`, a concurrent hash map.
#[verifier::external_type_specification]
#[verifier::external_body]
#[verifier::reject_recursive_types(K)]
#[verifier::reject_recursive_types(V)]
#[verifier::reject_recursive_types(S)]
pub struct ExDashMap<K, V, S>(DashMap<K, V, S>);

/// `rustc_hash::FxBuildHasher`, the hasher of the map.
#[verifier::external_type_specification]
#[verifier::external_body]
pub struct ExFxBuildHasher(FxBuildHasher);

/// Sizes under plain keys: level, tile id and the number of the encoding.
pub type SizeMap = DashMap<(u8, u32, u8), Option<u64>, FxBuildHasher>;

/// The entries of a map that nobody else is writing to.
pub uninterp spec fn entries(map: SizeMap) -> Map<(u8, u32, u8), Option<u64>>;

/// `DashMap::with_hasher` makes a map without entries.
#[verifier::external_body]
fn map_new() -> (made: SizeMap)
    ensures
        (entries(made) == Map::<(u8, u32, u8), Option<u64>>::empty()),
{
    DashMap::with_hasher(FxBuildHasher)
}

/// `DashMap::get` finds the value of the key, or nothing where the map has no such
/// key. The value is copied out, so no lock on the map outlives the call.
#[verifier::external_body]
fn map_get(
    map: &SizeMap,
    key: (u8, u32, u8),
) -> (value: Option<Option<u64>>)
    ensures
        value == (if entries(*map).contains_key(key) {
            Some(entries(*map)[key])
        } else {
            None
        }),
{
    map.get(&key).map(|entry| *entry.value())
}

/// `DashMap::insert` puts the value under the key, in place of the value that was
/// there, and returns that one. The exclusive borrow keeps other writers out.
#[verifier::external_body]
fn map_insert(
    map: &mut SizeMap,
    key: (u8, u32, u8),
    value: Option<u64>,
) -> (replaced: Option<Option<u64>>)
    ensures
        entries(*final(map)) == entries(*old(map)).insert(key, value),
        replaced == (if entries(*old(map)).contains_key(key) {
            Some(entries(*old(map))[key])
        } else {
            None
        }),
{
    map.insert(key, value)
}

/// `DashMap::len` counts the entries.
#[verifier::external_body]
fn map_len(map: &SizeMap) -> (len: usize)
    ensures
        len == entries(*map).len(),
{
    map.len()
}

/// In-memory cache of tile sizes: `Some(bytes)` for a known size, `None` for a tile
/// that is known not to exist.
///
/// The map can be written through a shared borrow, but only with an exclusive one is
/// it certain what it holds afterwards. The field is private, so no write gets past
/// `insert`.
pub struct SizeCache {
    map: SizeMap,
}

/// The number by which the map tells encodings apart.
spec fn spec_code(encoding: Encoding) -> u8 {
    match encoding {
        Encoding::Identity => 0,
        Encoding::Gzip => 1,
        Encoding::Zstd => 2,
    }
}

spec fn map_key(key: CacheKey) -> (u8, u32, u8) {
    (key.level, key.tile_id, spec_code(key.encoding))
}

impl View for SizeCache {
    type V = Map<CacheKey, Option<u64>>;

    closed spec fn view(&self) -> Map<CacheKey, Option<u64>> {
        Map::new(
            |key: CacheKey| entries(self.map).contains_key(map_key(key)),
            |key: CacheKey| entries(self.map)[map_key(key)],
        )
    }
}

/// What a cache with the given entries holds under `key`: `None` if nothing,
/// `Some(None)` for a tile that is known not to exist.
pub open spec fn lookup(sizes: Map<CacheKey, Option<u64>>, key: CacheKey) -> Option<Option<u64>> {
    if sizes.contains_key(key) {
        Some(sizes[key])
    } else {
        None
    }
}

/// A lookup finds something exactly where there is an entry, and then the entry.
pub proof fn lemma_lookup_finds_the_entry(sizes: Map<CacheKey, Option<u64>>, key: CacheKey)
    ensures
        lookup(sizes, key) is Some <==> sizes.contains_key(key),
        lookup(sizes, key) matches Some(value) ==> value == sizes[key],
{
}

/// A lookup finds what was last inserted under the key. An insertion changes no other
/// key, be it of another tile or of the same tile in another encoding.
pub proof fn lemma_lookup_after_insert(
    sizes: Map<CacheKey, Option<u64>>,
    key: CacheKey,
    value: Option<u64>,
    other: CacheKey,
)
    ensures
        lookup(sizes.insert(key, value), key) == Some(value),
        other != key ==> lookup(sizes.insert(key, value), other) == lookup(sizes, other),
{
}

fn code(encoding: Encoding) -> (c: u8)
    ensures
        c == spec_code(encoding),
{
    match encoding {
        Encoding::Identity => 0,
        Encoding::Gzip => 1,
        Encoding::Zstd => 2,
    }
}

impl SizeCache {
    /// The map holds finitely many entries, and each under the number of an encoding.
    pub closed spec fn wf(self) -> bool {
        &&& entries(self.map).dom().finite()
        &&& forall|k: (u8, u32, u8)| #[trigger] entries(self.map).contains_key(k) ==> k.2 < 3
    }

    /// An empty cache.
    pub fn new() -> (cache: SizeCache)
        ensures
            cache.wf(),
            cache@ == Map::<CacheKey, Option<u64>>::empty(),
    {
        let cache = SizeCache { map: map_new() };
        assert(cache@ =~= Map::<CacheKey, Option<u64>>::empty());
        cache
    }

    /// What is cached under `key`: `None` if nothing is, `Some(None)` for a tile that is
    /// known not to exist.
    pub fn get(&self, key: &CacheKey) -> (value: Option<Option<u64>>)
        ensures
            value == lookup(self@, *key),
            value is Some <==> self@.contains_key(*key),
            value matches Some(v) ==> v == self@[*key],
    {
        map_get(&self.map, (key.level, key.tile_id, code(key.encoding)))
    }

    /// Caches `value` under `key` and returns what was cached there before.
    pub fn insert(&mut self, key: CacheKey, value: Option<u64>) -> (replaced: Option<Option<u64>>)
        ensures
            old(self).wf() ==> final(self).wf(),
            final(self)@ == old(self)@.insert(key, value),
            replaced == lookup(old(self)@, key),
            replaced is Some <==> old(self)@.contains_key(key),
            replaced matches Some(v) ==> v == old(self)@[key],
    {
        let replaced = map_insert(
            &mut self.map,
            (key.level, key.tile_id, code(key.encoding)),
            value,
        );
        assert(self@ =~= old(self)@.insert(key, value));
        replaced
    }

    /// The number of entries.
    pub fn len(&self) -> (len: usize)
        requires
            self.wf(),
        ensures
            self@.dom().finite(),
            len == self@.len(),
    {
        proof {
            let keys = self@.dom();
            let raw = entries(self.map).dom();
            let decode = |k: (u8, u32, u8)|
                CacheKey {
                    level: k.0,
                    tile_id: k.1,
                    encoding: if k.2 == 0 {
                        Encoding::Identity
                    } else if k.2 == 1 {
                        Encoding::Gzip
                    } else {
                        Encoding::Zstd
                    },
                };
            assert forall|key: CacheKey| keys.contains(key) implies raw.map(decode).contains(
                key,
            ) by {
                assert(raw.contains(map_key(key)));
                assert(decode(map_key(key)) == key);
            }
            assert forall|key: CacheKey| raw.map(decode).contains(key) implies keys.contains(
                key,
            ) by {
                let k = choose|k: (u8, u32, u8)| raw.contains(k) && decode(k) == key;
                assert(entries(self.map).contains_key(k));
                assert(map_key(key) == k);
            }
            assert(keys =~= raw.map(decode));
            assert forall|a: (u8, u32, u8), b: (u8, u32, u8)|
                raw.contains(a) && raw.contains(b) && decode(a) == decode(b) implies a == b by {
                assert(entries(self.map).contains_key(a));
                assert(entries(self.map).contains_key(b));
                assert(map_key(decode(a)) == a);
                assert(map_key(decode(b)) == b);
            }
            assert(vstd::relations::injective_on(decode, raw));
            raw.lemma_map_finite(decode);
            vstd::set_lib::lemma_map_size(raw, keys, decode);
        }
        map_len(&self.map)
    }
}

} // verus!
