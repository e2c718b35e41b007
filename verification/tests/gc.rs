use quicksilver::gc::{GcColor, GcConfig, GcHandle, GcRef, GcWriteBarrier, Trace, Tracer, WeakRef, WriteBarrier};

#[test]
fn test_gc_handle() {
    let handle = GcHandle::new(42);
    assert_eq!(handle.ref_count(), 1);

    let handle2 = handle.clone();
    assert_eq!(handle.ref_count(), 2);
    assert_eq!(handle2.ref_count(), 2);

    drop(handle2);
    assert_eq!(handle.ref_count(), 1);
}

#[test]
fn test_gc_write_barrier() {
    let mut wb = GcWriteBarrier::new();
    assert!(wb.is_enabled());

    wb.record_write(1);
    wb.record_write(2);
    wb.record_write(3);

    let dirty = wb.drain();
    assert_eq!(dirty, vec![1, 2, 3]);
    assert!(wb.drain().is_empty());

    wb.disable();
    assert!(!wb.is_enabled());
    wb.record_write(4);
    assert!(wb.drain().is_empty());

    wb.enable();
    wb.record_write(5);
    assert_eq!(wb.drain(), vec![5]);
}

#[test]
fn test_gc_color_values() {
    assert_ne!(GcColor::White, GcColor::Gray);
    assert_ne!(GcColor::Gray, GcColor::Black);
    assert_ne!(GcColor::White, GcColor::Black);
    let c = GcColor::Gray;
    let c2 = c;
    assert_eq!(c, c2);
}

struct Dummy;

impl Trace for Dummy {
    fn trace(&self, _tracer: &mut Tracer) {}
    fn size_hint(&self) -> usize {
        0
    }
}

#[test]
fn test_gc_ref_clone_copy() {
    let r: GcRef<Dummy> = GcRef::new(42);
    let r2 = r;
    let r3 = r.clone();
    assert_eq!(r.id(), 42);
    assert_eq!(r2.id(), 42);
    assert_eq!(r3.id(), 42);
}

#[test]
fn gc_config_defaults() {
    let c = GcConfig::default();
    assert_eq!(c.allocation_threshold, 1000);
    assert!(!c.verbose);
}

#[test]
fn tracer_counts_start_at_zero() {
    let mut t = Tracer::new();
    t.mark(3);
    assert_eq!(t.marked_count(), 0);
    assert_eq!(t.marked_bytes(), 0);
    WriteBarrier::record_write(1, 2);
}

#[test]
fn weak_ref_invalidate() {
    let mut w = WeakRef::new(7);
    assert_eq!(w.target(), Some(7));
    w.invalidate();
    assert_eq!(w.target(), None);
}
