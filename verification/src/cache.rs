//! The two bounded caches of the file system, kept in `lru` caches: which
//! entry a name resolves to in a directory, and the attributes of an entry.
//!
//! Each cache's contents are named by a spec function; the wrappers below say
//! what each call does to them. Which entry a full cache drops to make room
//! is left open: only that it is another one than the entry being put.
use vstd::prelude::*;
use crate::fs::FileAttr;
use fxhash::FxBuildHasher;
use lru::LruCache;

verus! {

#[verifier::external_type_specification]
#[verifier::external_body]
#[verifier::reject_recursive_types(K)]
#[verifier::reject_recursive_types(V)]
#[verifier::reject_recursive_types(S)]
pub struct ExLruCache<K, V, S>(lru::LruCache<K, V, S>);

#[verifier::external_type_specification]
#[verifier::external_body]
pub struct ExFxHasher(fxhash::FxHasher);

#[verifier::external_type_specification]
#[verifier::external_body]
#[verifier::reject_recursive_types(H)]
pub struct ExBuildHasherDefault<H>(std::hash::BuildHasherDefault<H>);

/// The cache of resolved names: the entry index, or none, that a name
/// resolves to in the directory of a given inode.
pub type ResolveCache = LruCache<(u64, Vec<u8>), Option<u32>, FxBuildHasher>;

/// The cache of attributes, by entry index.
pub type AttrCache = LruCache<u32, FileAttr, FxBuildHasher>;

/// What the cache of resolved names holds, keyed by inode and name.
pub uninterp spec fn resolve_contents(c: LruCache<(u64, Vec<u8>), Option<u32>, FxBuildHasher>) -> Map<(u64, Seq<u8>), Option<u32>>;

/// What the cache of attributes holds, keyed by entry index.
pub uninterp spec fn attr_contents(c: LruCache<u32, FileAttr, FxBuildHasher>) -> Map<u32, FileAttr>;

/// `LruCache::with_hasher` with a default `FxBuildHasher`: an empty cache of
/// resolved names that holds at most `cap` of them.
#[verifier::external_body]
pub(crate) fn new_resolve_cache(cap: usize) -> (cache: ResolveCache)
    requires
        cap > 0,
    ensures
        resolve_contents(cache).dom().is_empty(),
{
    LruCache::with_hasher(std::num::NonZeroUsize::new(cap).unwrap(), FxBuildHasher::default())
}

/// `LruCache::get` on the cache of resolved names: the value kept for
/// `(ino, name)`, if any. It only moves that key to the front of the cache.
#[verifier::external_body]
pub(crate) fn resolve_get(c: &mut ResolveCache, ino: u64, name: &[u8]) -> (r: Option<Option<u32>>)
    ensures
        resolve_contents(*final(c)) == resolve_contents(*old(c)),
        match r {
            Some(v) => resolve_contents(*old(c)).contains_key((ino, name@))
                && resolve_contents(*old(c))[(ino, name@)] == v,
            None => !resolve_contents(*old(c)).contains_key((ino, name@)),
        },
{
    c.get(&(ino, name.to_vec())).copied()
}

/// `LruCache::put` on the cache of resolved names: keeps `v` for
/// `(ino, name)`. Every other key keeps its value or is dropped.
#[verifier::external_body]
pub(crate) fn resolve_put(c: &mut ResolveCache, ino: u64, name: Vec<u8>, v: Option<u32>)
    ensures
        resolve_contents(*final(c)).contains_key((ino, name@)),
        resolve_contents(*final(c))[(ino, name@)] == v,
        forall|k: (u64, Seq<u8>)|
            k != (ino, name@) && #[trigger] resolve_contents(*final(c)).contains_key(k) ==> resolve_contents(
                *old(c),
            ).contains_key(k) && resolve_contents(*final(c))[k] == resolve_contents(*old(c))[k],
{
    c.put((ino, name), v);
}

/// `LruCache::with_hasher` with a default `FxBuildHasher`: an empty cache of
/// attributes that holds at most `cap` of them.
#[verifier::external_body]
pub(crate) fn new_attr_cache(cap: usize) -> (cache: AttrCache)
    requires
        cap > 0,
    ensures
        attr_contents(cache).dom().is_empty(),
{
    LruCache::with_hasher(std::num::NonZeroUsize::new(cap).unwrap(), FxBuildHasher::default())
}

/// `LruCache::get` on the cache of attributes: the attributes kept for the
/// entry `idx`, if any. It only moves that key to the front of the cache.
#[verifier::external_body]
pub(crate) fn attr_get(c: &mut AttrCache, idx: u32) -> (r: Option<FileAttr>)
    ensures
        attr_contents(*final(c)) == attr_contents(*old(c)),
        match r {
            Some(v) => attr_contents(*old(c)).contains_key(idx) && attr_contents(*old(c))[idx] == v,
            None => !attr_contents(*old(c)).contains_key(idx),
        },
{
    c.get(&idx).copied()
}

/// `LruCache::push` on the cache of attributes: keeps `attr` for the entry
/// `idx`. Every other key keeps its value or is dropped.
#[verifier::external_body]
pub(crate) fn attr_push(c: &mut AttrCache, idx: u32, attr: FileAttr)
    ensures
        attr_contents(*final(c)).contains_key(idx),
        attr_contents(*final(c))[idx] == attr,
        forall|k: u32|
            k != idx && #[trigger] attr_contents(*final(c)).contains_key(k) ==> attr_contents(
                *old(c),
            ).contains_key(k) && attr_contents(*final(c))[k] == attr_contents(*old(c))[k],
{
    c.push(idx, attr);
}

} // verus!
