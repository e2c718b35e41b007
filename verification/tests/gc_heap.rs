use quicksilver::gc::{GcHeap, GcHeapConfig, HeapData, WeakRef};

fn test_config() -> GcHeapConfig {
    GcHeapConfig { initial_threshold: 4096, growth_factor_permille: 2000, min_threshold: 1024, max_threshold: 1024 * 1024 }
}

fn num(x: f64) -> HeapData {
    HeapData::Number(x.to_bits())
}

#[test]
fn test_gc_heap_creation() {
    let heap = GcHeap::new(test_config());
    assert_eq!(heap.object_count(), 0);
    assert_eq!(heap.live_object_count(), 0);
    assert_eq!(heap.total_bytes(), 0);
    assert_eq!(heap.stats().total_collections, 0);
}

#[test]
fn test_gc_heap_allocate() {
    let mut heap = GcHeap::new(test_config());
    let id0 = heap.allocate(num(42.0), vec![], 8);
    let id1 = heap.allocate(HeapData::Boolean(true), vec![], 1);
    assert_eq!(id0, 0);
    assert_eq!(id1, 1);
    assert_eq!(heap.live_object_count(), 2);
    assert_eq!(heap.total_bytes(), 9);
}

#[test]
fn test_gc_heap_mark_sweep_basic() {
    let mut heap = GcHeap::new(test_config());
    let root = heap.allocate(num(1.0), vec![], 8);
    let _garbage = heap.allocate(num(2.0), vec![], 8);
    heap.add_root(root);
    let result = heap.collect();
    assert_eq!(result.objects_freed, 1);
    assert_eq!(result.bytes_freed, 8);
    assert_eq!(heap.live_object_count(), 1);
}

#[test]
fn test_gc_heap_roots_prevent_collection() {
    let mut heap = GcHeap::new(test_config());
    let a = heap.allocate(HeapData::String("hello".into()), vec![], 16);
    let b = heap.allocate(HeapData::String("world".into()), vec![], 16);
    heap.add_root(a);
    heap.add_root(b);
    let result = heap.collect();
    assert_eq!(result.objects_freed, 0);
    assert_eq!(heap.live_object_count(), 2);
}

#[test]
fn test_gc_heap_circular_references() {
    let mut heap = GcHeap::new(test_config());
    let a = heap.allocate(HeapData::Object(vec![]), vec![], 32);
    let b = heap.allocate(HeapData::Object(vec![]), vec![], 32);
    let c = heap.allocate(HeapData::Object(vec![]), vec![], 32);
    heap.add_reference(a, b);
    heap.add_reference(b, c);
    heap.add_reference(c, a);
    let result = heap.collect();
    assert_eq!(result.objects_freed, 3);
    assert_eq!(result.bytes_freed, 96);
    assert_eq!(heap.live_object_count(), 0);
}

#[test]
fn test_gc_heap_circular_references_with_root() {
    let mut heap = GcHeap::new(test_config());
    let a = heap.allocate(HeapData::Object(vec![]), vec![], 32);
    let b = heap.allocate(HeapData::Object(vec![]), vec![], 32);
    heap.add_reference(a, b);
    heap.add_reference(b, a);
    heap.add_root(a);
    let result = heap.collect();
    assert_eq!(result.objects_freed, 0);
    assert_eq!(heap.live_object_count(), 2);
}

#[test]
fn test_gc_weak_ref_cleared() {
    let mut heap = GcHeap::new(test_config());
    let root = heap.allocate(num(1.0), vec![], 8);
    let target = heap.allocate(num(2.0), vec![], 8);
    heap.add_root(root);
    let weak = WeakRef::new(target);
    assert!(weak.deref(&heap));
    assert_eq!(weak.target(), Some(target));
    heap.collect();
    assert!(!weak.deref(&heap));
}

#[test]
fn test_gc_heap_threshold_adjustment() {
    let config = GcHeapConfig { initial_threshold: 100, growth_factor_permille: 2000, min_threshold: 50, max_threshold: 10000 };
    let mut heap = GcHeap::new(config);
    let a = heap.allocate(num(1.0), vec![], 80);
    heap.add_root(a);
    assert!(heap.should_collect() || heap.total_bytes() < 100);
    heap.collect();
    let stats = heap.stats();
    assert!(stats.current_threshold >= 50);
    assert!(stats.current_threshold <= 10000);
    assert_eq!(stats.current_threshold, 160);
}

#[test]
fn test_gc_heap_multiple_collections() {
    let mut heap = GcHeap::new(test_config());
    let root = heap.allocate(HeapData::Object(vec![]), vec![], 16);
    heap.add_root(root);
    for i in 0..5 {
        heap.allocate(num(i as f64), vec![], 8);
    }
    let r1 = heap.collect();
    assert_eq!(r1.objects_freed, 5);
    for i in 0..3 {
        heap.allocate(num(i as f64), vec![], 8);
    }
    let r2 = heap.collect();
    assert_eq!(r2.objects_freed, 3);
    assert_eq!(heap.stats().total_collections, 2);
    assert_eq!(heap.live_object_count(), 1);
}

#[test]
fn test_gc_heap_free_list_reuse() {
    let mut heap = GcHeap::new(test_config());
    let root = heap.allocate(num(0.0), vec![], 8);
    heap.add_root(root);
    let garbage = heap.allocate(num(1.0), vec![], 8);
    assert_eq!(garbage, 1);
    heap.collect();
    assert_eq!(heap.live_object_count(), 1);
    let reused = heap.allocate(num(2.0), vec![], 8);
    assert_eq!(reused, 1);
    assert_eq!(heap.object_count(), 2);
}

#[test]
fn test_gc_heap_stats_tracking() {
    let mut heap = GcHeap::new(test_config());
    let a = heap.allocate(num(1.0), vec![], 64);
    heap.allocate(num(2.0), vec![], 64);
    heap.add_root(a);
    heap.collect();
    let stats = heap.stats();
    assert_eq!(stats.total_allocations, 2);
    assert_eq!(stats.total_collections, 1);
    assert_eq!(stats.total_bytes_freed, 64);
    assert_eq!(stats.current_heap_size, 64);
    assert_eq!(stats.current_object_count, 1);
    assert_eq!(stats.peak_heap_size, 128);
}

#[test]
fn test_gc_heap_large_stress() {
    let mut heap = GcHeap::new(test_config());
    let root = heap.allocate(HeapData::Object(vec![]), vec![], 16);
    heap.add_root(root);
    for i in 0..500 {
        heap.allocate(num(i as f64), vec![], 8);
    }
    assert_eq!(heap.live_object_count(), 501);
    let result = heap.collect();
    assert_eq!(result.objects_freed, 500);
    assert_eq!(heap.live_object_count(), 1);
}

#[test]
fn test_gc_heap_generation_tracking() {
    let mut heap = GcHeap::new(test_config());
    let root = heap.allocate(num(1.0), vec![], 8);
    heap.add_root(root);
    assert_eq!(heap.collect().generation, 1);
    assert_eq!(heap.collect().generation, 2);
    assert_eq!(heap.collect().generation, 3);
}

#[test]
fn test_gc_heap_data_variants() {
    let mut heap = GcHeap::new(test_config());
    let obj = heap.allocate(HeapData::Object(vec![("x".to_string(), 0)]), vec![], 32);
    let arr = heap.allocate(HeapData::Array(vec![0, 1]), vec![], 24);
    let s = heap.allocate(HeapData::String("test".into()), vec![], 16);
    let n = heap.allocate(num(3.14), vec![], 8);
    let b = heap.allocate(HeapData::Boolean(false), vec![], 1);
    let c = heap.allocate(HeapData::Closure { upvalues: vec![0] }, vec![], 16);
    for id in [obj, arr, s, n, b, c] {
        heap.add_root(id);
    }
    assert_eq!(heap.live_object_count(), 6);
    let result = heap.collect();
    assert_eq!(result.objects_freed, 0);
    assert_eq!(heap.live_object_count(), 6);
}

#[test]
fn test_gc_heap_remove_root() {
    let mut heap = GcHeap::new(test_config());
    let a = heap.allocate(num(1.0), vec![], 8);
    heap.add_root(a);
    heap.collect();
    assert_eq!(heap.live_object_count(), 1);
    heap.remove_root(a);
    heap.collect();
    assert_eq!(heap.live_object_count(), 0);
}

#[test]
fn test_gc_heap_reference_chain() {
    let mut heap = GcHeap::new(test_config());
    let root = heap.allocate(HeapData::Object(vec![]), vec![], 16);
    let a = heap.allocate(HeapData::Object(vec![]), vec![], 16);
    let b = heap.allocate(HeapData::Object(vec![]), vec![], 16);
    let c = heap.allocate(HeapData::Object(vec![]), vec![], 16);
    let _g = heap.allocate(num(0.0), vec![], 8);
    heap.add_reference(root, a);
    heap.add_reference(a, b);
    heap.add_reference(b, c);
    heap.add_root(root);
    let result = heap.collect();
    assert_eq!(result.objects_freed, 1);
    assert_eq!(heap.live_object_count(), 4);
}

#[test]
fn test_gc_weak_ref_invalidate() {
    let heap = GcHeap::new(test_config());
    let mut weak = WeakRef::new(0);
    assert_eq!(weak.target(), Some(0));
    weak.invalidate();
    assert_eq!(weak.target(), None);
    assert!(!weak.deref(&heap));
}

#[test]
fn test_gc_heap_should_collect() {
    let config = GcHeapConfig { initial_threshold: 100, growth_factor_permille: 1500, min_threshold: 50, max_threshold: 10000 };
    let mut heap = GcHeap::new(config);
    assert!(!heap.should_collect());
    heap.allocate(num(1.0), vec![], 50);
    assert!(!heap.should_collect());
    heap.allocate(num(2.0), vec![], 60);
    assert!(heap.should_collect());
}

#[test]
fn references_through_dead_objects_do_not_keep_alive() {
    let mut heap = GcHeap::new(test_config());
    let root = heap.allocate(HeapData::Object(vec![]), vec![], 4);
    let child = heap.allocate(HeapData::Object(vec![]), vec![], 4);
    heap.add_reference(root, child);
    heap.add_root(root);
    heap.add_root(root);
    heap.collect();
    assert_eq!(heap.live_object_count(), 2);
    heap.remove_root(root);
    let r = heap.collect();
    assert_eq!(r.objects_freed, 2);
    assert_eq!(r.objects_surviving, 0);
    assert_eq!(heap.total_bytes(), 0);
    let config = GcHeapConfig::default();
    assert_eq!(config.growth_factor_permille, 1500);
    assert_eq!(heap.stats().current_threshold, 1024);
}
