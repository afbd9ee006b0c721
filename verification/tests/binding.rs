use page_binding::cache::Cache;
use page_binding::errors::CacheError;
use page_binding::mem_cache::MemCache;
use page_binding::node::{bind, unbind, NodeHandle};
use page_binding::page::{AccessMode, PageType};

#[test]
fn bind_address_zero_fails_invalid_address() {
    let mut cache = MemCache::new(2);
    cache.install(100, PageType::Leaf);
    let handle = NodeHandle::new(0, PageType::Leaf);
    let r = bind(&handle, &mut cache, AccessMode::Read);
    assert!(matches!(r, Err(CacheError::InvalidAddress)));
    assert_eq!(cache.ref_count(0), 0);
    assert_eq!(cache.resident_type(0), None);
}

#[test]
fn bind_unallocated_address_fails_invalid_address() {
    let mut cache = MemCache::new(2);
    cache.install(100, PageType::Leaf);
    let handle = NodeHandle::new(999, PageType::Leaf);
    let r = bind(&handle, &mut cache, AccessMode::Read);
    assert!(matches!(r, Err(CacheError::InvalidAddress)));
}

#[test]
fn bind_wrong_type_on_load_fails_type_mismatch() {
    let mut cache = MemCache::new(2);
    cache.install(100, PageType::Leaf);
    let wrong = NodeHandle::new(100, PageType::Internal);
    let r = bind(&wrong, &mut cache, AccessMode::Read);
    assert!(matches!(r, Err(CacheError::TypeMismatch)));
    // Nothing was loaded or mutated by the failed bind.
    assert_eq!(cache.resident_type(100), None);
    // The right type still binds.
    let right = NodeHandle::new(100, PageType::Leaf);
    let b = bind(&right, &mut cache, AccessMode::Read).unwrap();
    assert_eq!(b.page_type(), PageType::Leaf);
    unbind(b, &mut cache);
}

#[test]
fn bind_wrong_type_resident_leaves_first_binding_intact() {
    let mut cache = MemCache::new(2);
    cache.install(100, PageType::Leaf);
    let leaf = NodeHandle::new(100, PageType::Leaf);
    let first = bind(&leaf, &mut cache, AccessMode::Read).unwrap();
    assert_eq!(cache.ref_count(100), 1);

    let internal = NodeHandle::new(100, PageType::Internal);
    let r = bind(&internal, &mut cache, AccessMode::Read);
    assert!(matches!(r, Err(CacheError::TypeMismatch)));

    // The first binding is unaffected: still pinned, still readable.
    assert_eq!(cache.ref_count(100), 1);
    assert_eq!(cache.resident_type(100), Some(PageType::Leaf));
    assert_eq!(first.key_count(&cache), 0);
    unbind(first, &mut cache);
    assert_eq!(cache.ref_count(100), 0);
}

#[test]
fn bind_then_unbind_leaves_ref_count_unchanged() {
    let mut cache = MemCache::new(2);
    cache.install(100, PageType::Leaf);
    let handle = NodeHandle::new(100, PageType::Leaf);

    // Before the pair: not resident, count zero.
    assert_eq!(cache.ref_count(100), 0);
    let b = bind(&handle, &mut cache, AccessMode::Read).unwrap();
    assert_eq!(cache.ref_count(100), 1);
    unbind(b, &mut cache);
    assert_eq!(cache.ref_count(100), 0);

    // Around a resident page the pair is neutral as well.
    let outer = bind(&handle, &mut cache, AccessMode::Read).unwrap();
    assert_eq!(cache.ref_count(100), 1);
    let inner = bind(&handle, &mut cache, AccessMode::Read).unwrap();
    assert_eq!(cache.ref_count(100), 2);
    unbind(inner, &mut cache);
    assert_eq!(cache.ref_count(100), 1);
    unbind(outer, &mut cache);
    assert_eq!(cache.ref_count(100), 0);
}

#[test]
fn saturated_pool_rejects_then_admits_after_unbind() {
    // Capacity one: a second address cannot be admitted while the first
    // binding holds its pin; after the unbind it proceeds and succeeds.
    let mut cache = MemCache::new(1);
    cache.install(100, PageType::Leaf);
    cache.install(200, PageType::Leaf);

    let first = NodeHandle::new(100, PageType::Leaf);
    let second = NodeHandle::new(200, PageType::Leaf);

    let held = bind(&first, &mut cache, AccessMode::Read).unwrap();
    let refused = bind(&second, &mut cache, AccessMode::Read);
    assert!(matches!(refused, Err(CacheError::CapacityExhausted)));

    unbind(held, &mut cache);
    let admitted = bind(&second, &mut cache, AccessMode::Read).unwrap();
    assert_eq!(cache.resident_type(200), Some(PageType::Leaf));
    unbind(admitted, &mut cache);
}

#[test]
fn write_survives_eviction_and_reload() {
    // Capacity one: binding the second address evicts the first page,
    // writing it back because it is dirty; rebinding the first address
    // reloads the flushed bytes.
    let mut cache = MemCache::new(1);
    cache.install(100, PageType::Leaf);
    cache.install(200, PageType::Leaf);
    let handle = NodeHandle::new(100, PageType::Leaf);
    let other = NodeHandle::new(200, PageType::Leaf);

    let b = bind(&handle, &mut cache, AccessMode::Write).unwrap();
    b.set_key_count(&mut cache, 0x1234);
    b.write_byte(&mut cache, 5, 0xAB);
    unbind(b, &mut cache);

    let evictor = bind(&other, &mut cache, AccessMode::Read).unwrap();
    assert_eq!(cache.resident_type(100), None);
    unbind(evictor, &mut cache);

    let again = bind(&handle, &mut cache, AccessMode::Read).unwrap();
    assert_eq!(again.key_count(&cache), 0x1234);
    assert_eq!(again.read_byte(&cache, 5), 0xAB);
    unbind(again, &mut cache);
}

#[test]
fn explicit_flush_persists_before_eviction() {
    let mut cache = MemCache::new(1);
    cache.install(100, PageType::Internal);
    cache.install(200, PageType::Leaf);
    let handle = NodeHandle::new(100, PageType::Internal);

    let b = bind(&handle, &mut cache, AccessMode::Write).unwrap();
    b.set_key_count(&mut cache, 7);
    assert!(cache.flush(100).is_ok());
    unbind(b, &mut cache);

    let evictor = bind(&NodeHandle::new(200, PageType::Leaf), &mut cache, AccessMode::Read)
        .unwrap();
    unbind(evictor, &mut cache);

    let again = bind(&handle, &mut cache, AccessMode::Read).unwrap();
    assert_eq!(again.key_count(&cache), 7);
    unbind(again, &mut cache);
}

#[test]
fn write_pin_is_exclusive() {
    let mut cache = MemCache::new(2);
    cache.install(100, PageType::Leaf);
    let handle = NodeHandle::new(100, PageType::Leaf);

    // A write grant is refused while a read pin is held.
    let reader = bind(&handle, &mut cache, AccessMode::Read).unwrap();
    let refused = bind(&handle, &mut cache, AccessMode::Write);
    assert!(matches!(refused, Err(CacheError::CapacityExhausted)));
    unbind(reader, &mut cache);

    // Any further grant is refused while a write pin is held.
    let writer = bind(&handle, &mut cache, AccessMode::Write).unwrap();
    let refused = bind(&handle, &mut cache, AccessMode::Read);
    assert!(matches!(refused, Err(CacheError::CapacityExhausted)));
    unbind(writer, &mut cache);

    // Unpinned again, both modes are grantable in turn.
    let again = bind(&handle, &mut cache, AccessMode::Write).unwrap();
    assert_eq!(again.access_mode(), AccessMode::Write);
    unbind(again, &mut cache);
}

#[test]
fn shared_read_pins_coexist() {
    let mut cache = MemCache::new(2);
    cache.install(100, PageType::Leaf);
    let handle = NodeHandle::new(100, PageType::Leaf);
    let a = bind(&handle, &mut cache, AccessMode::Read).unwrap();
    let b = bind(&handle, &mut cache, AccessMode::Read).unwrap();
    assert_eq!(cache.ref_count(100), 2);
    assert_eq!(a.key_count(&cache), 0);
    assert_eq!(b.key_count(&cache), 0);
    unbind(a, &mut cache);
    unbind(b, &mut cache);
}

#[test]
fn header_layout_is_tag_then_key_count() {
    let mut cache = MemCache::new(1);
    cache.install(100, PageType::Leaf);
    let handle = NodeHandle::new(100, PageType::Leaf);
    let b = bind(&handle, &mut cache, AccessMode::Write).unwrap();

    // A fresh page stores zero keys and its tag byte first.
    assert_eq!(b.key_count(&cache), 0);
    assert_eq!(b.read_byte(&cache, 0), 3);

    // The count is stored little-endian in the two bytes after the tag.
    b.set_key_count(&mut cache, 0x0201);
    assert_eq!(b.read_byte(&cache, 1), 0x01);
    assert_eq!(b.read_byte(&cache, 2), 0x02);
    assert_eq!(b.key_count(&cache), 0x0201);
    unbind(b, &mut cache);
}
