use page_binding::cache::Cache;
use page_binding::errors::CacheError;
use page_binding::mem_cache::MemCache;
use page_binding::node::{bind, unbind, NodeHandle};
use page_binding::page::{decode_type, encode_type, AccessMode, PageType};

#[test]
fn acquire_hit_needs_no_reload() {
    let mut cache = MemCache::new(2);
    cache.install(100, PageType::Leaf);
    assert!(cache.acquire(100, PageType::Leaf, AccessMode::Read).is_ok());
    assert!(cache.acquire(100, PageType::Leaf, AccessMode::Read).is_ok());
    assert_eq!(cache.ref_count(100), 2);
    cache.release(100);
    cache.release(100);
    assert_eq!(cache.ref_count(100), 0);
    // Lazy reclamation: the page stays resident after its pins drop.
    assert_eq!(cache.resident_type(100), Some(PageType::Leaf));
}

#[test]
fn acquire_errors_match_their_inputs() {
    let mut cache = MemCache::new(1);
    cache.install(100, PageType::Superblock);
    assert!(matches!(
        cache.acquire(0, PageType::Leaf, AccessMode::Read),
        Err(CacheError::InvalidAddress)
    ));
    assert!(matches!(
        cache.acquire(7, PageType::Leaf, AccessMode::Read),
        Err(CacheError::InvalidAddress)
    ));
    assert!(matches!(
        cache.acquire(100, PageType::FreeList, AccessMode::Read),
        Err(CacheError::TypeMismatch)
    ));
    assert!(cache.acquire(100, PageType::Superblock, AccessMode::Read).is_ok());
    cache.release(100);
}

#[test]
fn flush_all_persists_every_dirty_page() {
    let mut cache = MemCache::new(2);
    cache.install(100, PageType::Leaf);
    cache.install(200, PageType::Internal);

    let leaf = bind(&NodeHandle::new(100, PageType::Leaf), &mut cache, AccessMode::Write)
        .unwrap();
    leaf.set_key_count(&mut cache, 11);
    unbind(leaf, &mut cache);
    let internal = bind(
        &NodeHandle::new(200, PageType::Internal),
        &mut cache,
        AccessMode::Write,
    )
    .unwrap();
    internal.set_key_count(&mut cache, 22);
    unbind(internal, &mut cache);

    assert!(cache.flush_all().is_ok());

    // Force both pages through eviction and reload: a third address takes
    // a slot, then each original address is bound afresh.
    cache.install(300, PageType::Leaf);
    let third = bind(&NodeHandle::new(300, PageType::Leaf), &mut cache, AccessMode::Read)
        .unwrap();
    unbind(third, &mut cache);

    let leaf = bind(&NodeHandle::new(100, PageType::Leaf), &mut cache, AccessMode::Read)
        .unwrap();
    assert_eq!(leaf.key_count(&cache), 11);
    unbind(leaf, &mut cache);
    let internal = bind(
        &NodeHandle::new(200, PageType::Internal),
        &mut cache,
        AccessMode::Read,
    )
    .unwrap();
    assert_eq!(internal.key_count(&cache), 22);
    unbind(internal, &mut cache);
}

#[test]
fn mark_dirty_is_idempotent() {
    let mut cache = MemCache::new(1);
    cache.install(100, PageType::Leaf);
    assert!(cache.acquire(100, PageType::Leaf, AccessMode::Write).is_ok());
    cache.mark_dirty(100);
    cache.mark_dirty(100);
    cache.release(100);
    // The doubly-marked page still evicts with one write-back and reloads.
    cache.install(200, PageType::Leaf);
    assert!(cache.acquire(200, PageType::Leaf, AccessMode::Read).is_ok());
    cache.release(200);
    assert!(cache.acquire(100, PageType::Leaf, AccessMode::Read).is_ok());
    cache.release(100);
}

#[test]
fn pool_never_exceeds_capacity() {
    let mut cache = MemCache::new(2);
    cache.install(100, PageType::Leaf);
    cache.install(200, PageType::Leaf);
    cache.install(300, PageType::Leaf);
    assert!(cache.acquire(100, PageType::Leaf, AccessMode::Read).is_ok());
    assert!(cache.acquire(200, PageType::Leaf, AccessMode::Read).is_ok());
    // Both slots pinned: a third resident page would exceed capacity.
    assert!(matches!(
        cache.acquire(300, PageType::Leaf, AccessMode::Read),
        Err(CacheError::CapacityExhausted)
    ));
    // Pinned pages are never evicted: both stay resident and readable.
    assert_eq!(cache.resident_type(100), Some(PageType::Leaf));
    assert_eq!(cache.resident_type(200), Some(PageType::Leaf));
    cache.release(100);
    // With one slot evictable the third address is admitted.
    assert!(cache.acquire(300, PageType::Leaf, AccessMode::Read).is_ok());
    cache.release(200);
    cache.release(300);
}

#[test]
fn type_tags_encode_and_decode_exactly() {
    assert_eq!(encode_type(PageType::Superblock), 1);
    assert_eq!(encode_type(PageType::Internal), 2);
    assert_eq!(encode_type(PageType::Leaf), 3);
    assert_eq!(encode_type(PageType::FreeList), 4);
    assert_eq!(decode_type(1), Some(PageType::Superblock));
    assert_eq!(decode_type(2), Some(PageType::Internal));
    assert_eq!(decode_type(3), Some(PageType::Leaf));
    assert_eq!(decode_type(4), Some(PageType::FreeList));
    assert_eq!(decode_type(0), None);
    assert_eq!(decode_type(9), None);
}

#[test]
fn ref_count_reports_zero_for_absent_addresses() {
    let cache = MemCache::new(1);
    assert_eq!(cache.ref_count(100), 0);
    assert_eq!(cache.resident_type(100), None);
}
