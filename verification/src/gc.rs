//! Garbage collection: the tracing heap with its tri-colour mark-and-sweep
//! collection, configuration and statistics, reference counted handles,
//! object colours and headers, the tracer's worklist, the write barrier and
//! weak references.
use vstd::prelude::*;
use std::rc::Rc;
use std::cell::RefCell;
use crate::event_loop::{instant_elapsed, instant_now};

verus! {

/// GC configuration
#[derive(Debug, Clone)]
pub struct GcConfig {
    /// Collection threshold (number of allocations before GC)
    pub allocation_threshold: usize,
    /// Enable verbose GC logging
    pub verbose: bool,
}

impl Default for GcConfig {
    fn default() -> (r: Self)
        ensures
            r.allocation_threshold == 1000,
            !r.verbose,
    {
        GcConfig { allocation_threshold: 1000, verbose: false }
    }
}

/// GC statistics
#[derive(Debug, Clone)]
pub struct GcStats {
    /// Total objects allocated
    pub total_allocations: usize,
    /// Current live objects
    pub live_objects: usize,
    /// Objects freed in last collection
    pub last_freed: usize,
    /// Total objects freed
    pub total_freed: usize,
    /// Number of collections
    pub collections: u64,
    /// Total time spent in GC (microseconds)
    pub total_gc_time_us: u64,
    /// Maximum pause time (microseconds)
    pub max_pause_us: u64,
}

impl Default for GcStats {
    fn default() -> (r: Self)
        ensures
            r.total_allocations == 0 && r.live_objects == 0 && r.last_freed == 0 && r.total_freed == 0
                && r.collections == 0 && r.total_gc_time_us == 0 && r.max_pause_us == 0,
    {
        GcStats {
            total_allocations: 0,
            live_objects: 0,
            last_freed: 0,
            total_freed: 0,
            collections: 0,
            total_gc_time_us: 0,
            max_pause_us: 0,
        }
    }
}

#[verifier::external_type_specification]
#[verifier::external_body]
#[verifier::reject_recursive_types(T)]
pub struct ExRefCell<T: ?Sized>(RefCell<T>);

/// `RefCell::new`: a cell holding `value`; its contents are not modelled.
#[verifier::external_body]
fn refcell_new<T>(value: T) -> RefCell<T> {
    RefCell::new(value)
}

/// `Rc::strong_count`: how many strong handles share the allocation.  It
/// depends on handles elsewhere; what holds of every outcome is that the
/// handle passed in is itself one of them.
#[verifier::external_body]
fn rc_strong_count<T>(rc: &Rc<RefCell<T>>) -> (r: usize)
    ensures
        r >= 1,
{
    Rc::strong_count(rc)
}

/// A handle to a GC-managed object
#[derive(Clone)]
#[verifier::reject_recursive_types(T)]
pub struct GcHandle<T> {
    inner: Rc<RefCell<T>>,
}

impl<T> GcHandle<T> {
    /// The shared cell the handle points to.
    pub closed spec fn spec_inner(&self) -> Rc<RefCell<T>> {
        self.inner
    }

    /// Create a new GC handle
    pub fn new(value: T) -> (r: Self) {
        GcHandle { inner: Rc::new(refcell_new(value)) }
    }

    /// Get reference count: how many handles share this object, this one
    /// among them.
    pub fn ref_count(&self) -> (r: usize)
        ensures
            r >= 1,
    {
        rc_strong_count(&self.inner)
    }

    /// Get the inner Rc
    pub fn inner(&self) -> (r: &Rc<RefCell<T>>)
        ensures
            *r == self.spec_inner(),
    {
        &self.inner
    }
}

/// Write barrier for incremental/generational GC (placeholder for future use)
pub struct WriteBarrier;

impl WriteBarrier {
    /// Record a write from one object to another; it records nothing yet.
    pub fn record_write(_from: usize, _to: usize) {
    }
}

/// Objects that the collector can trace.
pub trait Trace {
    /// Report the objects this one refers to.
    fn trace(&self, tracer: &mut Tracer);

    /// The object's size in bytes.
    fn size_hint(&self) -> usize;
}

/// The tri-colour marking state of an object.
#[derive(Debug, Clone, Copy, PartialEq, Eq, Structural)]
pub enum GcColor {
    White,
    Gray,
    Black,
}

/// The header the collector keeps for each heap object.
#[derive(Debug)]
pub struct GcHeader {
    pub color: GcColor,
    pub size: usize,
    pub marked: bool,
    pub generation: u32,
}

/// A typed reference to a heap object by its id.
pub struct GcRef<T: Trace> {
    id: usize,
    _phantom: std::marker::PhantomData<T>,
}

impl<T: Trace> GcRef<T> {
    /// The id the reference stands for.
    pub closed spec fn spec_id(&self) -> usize {
        self.id
    }

    /// A reference to the object with `id`.
    pub fn new(id: usize) -> (r: Self)
        ensures
            r.spec_id() == id,
    {
        GcRef { id, _phantom: std::marker::PhantomData }
    }

    /// The id of the referenced object.
    pub fn id(&self) -> (r: usize)
        ensures
            r == self.spec_id(),
    {
        self.id
    }
}

impl<T: Trace> Clone for GcRef<T> {
    fn clone(&self) -> (r: Self)
        ensures
            r.spec_id() == self.spec_id(),
    {
        GcRef { id: self.id, _phantom: std::marker::PhantomData }
    }
}

impl<T: Trace> Copy for GcRef<T> {

}

/// The worklist of objects to trace, with the count and bytes marked.
pub struct Tracer {
    worklist: Vec<usize>,
    marked_count: usize,
    marked_bytes: usize,
}

impl Tracer {
    /// The ids waiting to be traced, oldest first.
    pub closed spec fn pending(&self) -> Seq<usize> {
        self.worklist@
    }

    /// The number of objects marked.
    pub closed spec fn spec_marked_count(&self) -> usize {
        self.marked_count
    }

    /// The bytes of the objects marked.
    pub closed spec fn spec_marked_bytes(&self) -> usize {
        self.marked_bytes
    }

    /// An empty tracer.
    pub fn new() -> (r: Self)
        ensures
            r.pending().len() == 0,
            r.spec_marked_count() == 0,
            r.spec_marked_bytes() == 0,
    {
        Tracer { worklist: Vec::new(), marked_count: 0, marked_bytes: 0 }
    }

    /// Queue the object with `id` for tracing.
    pub fn mark(&mut self, id: usize)
        ensures
            final(self).pending() == old(self).pending().push(id),
            final(self).spec_marked_count() == old(self).spec_marked_count(),
            final(self).spec_marked_bytes() == old(self).spec_marked_bytes(),
    {
        self.worklist.push(id);
    }

    /// The number of objects marked.
    pub fn marked_count(&self) -> (r: usize)
        ensures
            r == self.spec_marked_count(),
    {
        self.marked_count
    }

    /// The bytes of the objects marked.
    pub fn marked_bytes(&self) -> (r: usize)
        ensures
            r == self.spec_marked_bytes(),
    {
        self.marked_bytes
    }
}

impl Default for Tracer {
    fn default() -> (r: Self)
        ensures
            r.pending().len() == 0,
            r.spec_marked_count() == 0,
            r.spec_marked_bytes() == 0,
    {
        Tracer::new()
    }
}

/// What one collection did.
#[derive(Debug, Clone)]
pub struct CollectionResult {
    pub objects_freed: usize,
    pub bytes_freed: usize,
    pub objects_surviving: usize,
    pub duration_us: u64,
    pub generation: u32,
}

/// Statistics of a collected heap.
#[derive(Debug, Clone)]
pub struct GcHeapStats {
    pub total_allocations: u64,
    pub total_collections: u64,
    pub total_bytes_freed: u64,
    pub current_heap_size: usize,
    pub current_object_count: usize,
    pub current_threshold: usize,
    pub peak_heap_size: usize,
}

impl Default for GcHeapStats {
    fn default() -> (r: Self)
        ensures
            r.total_allocations == 0 && r.total_collections == 0 && r.total_bytes_freed == 0
                && r.current_heap_size == 0 && r.current_object_count == 0 && r.current_threshold == 0
                && r.peak_heap_size == 0,
    {
        GcHeapStats {
            total_allocations: 0,
            total_collections: 0,
            total_bytes_freed: 0,
            current_heap_size: 0,
            current_object_count: 0,
            current_threshold: 0,
            peak_heap_size: 0,
        }
    }
}

/// Records the objects written to while the barrier is enabled.
pub struct GcWriteBarrier {
    dirty_objects: Vec<usize>,
    enabled: bool,
}

impl GcWriteBarrier {
    /// The objects recorded since the last drain, in order.
    pub closed spec fn dirty(&self) -> Seq<usize> {
        self.dirty_objects@
    }

    /// Whether writes are being recorded.
    pub closed spec fn spec_enabled(&self) -> bool {
        self.enabled
    }

    /// An enabled barrier with nothing recorded.
    pub fn new() -> (r: Self)
        ensures
            r.dirty().len() == 0,
            r.spec_enabled(),
    {
        GcWriteBarrier { dirty_objects: Vec::new(), enabled: true }
    }

    /// Record a write to `object_id` when enabled.
    pub fn record_write(&mut self, object_id: usize)
        ensures
            final(self).dirty() == if old(self).spec_enabled() {
                old(self).dirty().push(object_id)
            } else {
                old(self).dirty()
            },
            final(self).spec_enabled() == old(self).spec_enabled(),
    {
        if self.enabled {
            self.dirty_objects.push(object_id);
        }
    }

    /// Take the recorded objects, leaving none.
    pub fn drain(&mut self) -> (r: Vec<usize>)
        ensures
            r@ == old(self).dirty(),
            final(self).dirty().len() == 0,
            final(self).spec_enabled() == old(self).spec_enabled(),
    {
        let mut taken: Vec<usize> = Vec::new();
        std::mem::swap(&mut taken, &mut self.dirty_objects);
        taken
    }

    /// Start recording writes.
    pub fn enable(&mut self)
        ensures
            final(self).spec_enabled(),
            final(self).dirty() == old(self).dirty(),
    {
        self.enabled = true;
    }

    /// Stop recording writes.
    pub fn disable(&mut self)
        ensures
            !final(self).spec_enabled(),
            final(self).dirty() == old(self).dirty(),
    {
        self.enabled = false;
    }

    /// Whether writes are being recorded.
    pub fn is_enabled(&self) -> (r: bool)
        ensures
            r == self.spec_enabled(),
    {
        self.enabled
    }
}

impl Default for GcWriteBarrier {
    fn default() -> (r: Self)
        ensures
            r.dirty().len() == 0,
            r.spec_enabled(),
    {
        GcWriteBarrier::new()
    }
}

/// A reference that does not keep its target alive.
pub struct WeakRef {
    target_id: usize,
    is_alive: bool,
}

impl WeakRef {
    /// The target while the reference has not been invalidated.
    pub closed spec fn spec_target(&self) -> Option<usize> {
        if self.is_alive {
            Some(self.target_id)
        } else {
            None
        }
    }

    /// A live reference to `target_id`.
    pub fn new(target_id: usize) -> (r: Self)
        ensures
            r.spec_target() == Some(target_id),
    {
        WeakRef { target_id, is_alive: true }
    }

    /// The target, unless the reference was invalidated.
    pub fn target(&self) -> (r: Option<usize>)
        ensures
            r == self.spec_target(),
    {
        if self.is_alive {
            Some(self.target_id)
        } else {
            None
        }
    }

    /// Whether the target is still a live object of the heap (never, once
    /// invalidated).
    pub fn deref(&self, heap: &GcHeap) -> (r: bool)
        ensures
            r == match self.spec_target() {
                Some(t) => t < heap.slots().len() && heap.slots()[t as int].alive,
                None => false,
            },
    {
        if !self.is_alive {
            return false;
        }
        self.target_id < heap.objects.len() && heap.objects[self.target_id].alive
    }

    /// Invalidate the reference.
    pub fn invalidate(&mut self)
        ensures
            final(self).spec_target() is None,
    {
        self.is_alive = false;
    }
}

// ───────────────────────────── The tracing heap ─────────────────────────────

/// What a heap object holds.  A number is held by its IEEE-754 bit pattern.
#[derive(Debug)]
pub enum HeapData {
    /// Named properties pointing at other heap objects.
    Object(Vec<(String, usize)>),
    /// Heap object ids.
    Array(Vec<usize>),
    String(String),
    Number(u64),
    Boolean(bool),
    /// A closure with the ids of its captured upvalues.
    Closure { upvalues: Vec<usize> },
    /// A freed slot.
    Empty,
}

/// A slot of the heap: the object's header and data, the ids it refers
/// to, and whether it is alive.
#[derive(Debug)]
pub struct HeapObject {
    pub header: GcHeader,
    pub data: HeapData,
    pub references: Vec<usize>,
    pub alive: bool,
}

/// When the heap collects: the first threshold in bytes, the factor (in
/// thousandths) by which the surviving size grows into the next threshold,
/// and the bounds of the threshold.
#[derive(Debug, Clone, Copy)]
pub struct GcHeapConfig {
    pub initial_threshold: usize,
    pub growth_factor_permille: u64,
    pub min_threshold: usize,
    pub max_threshold: usize,
}

impl Default for GcHeapConfig {
    /// A threshold of 1 MiB to start, growing by 1.5 within 256 KiB and
    /// 256 MiB.
    fn default() -> (r: Self)
        ensures
            r.initial_threshold == 1048576,
            r.growth_factor_permille == 1500,
            r.min_threshold == 262144,
            r.max_threshold == 268435456,
    {
        GcHeapConfig {
            initial_threshold: 1048576,
            growth_factor_permille: 1500,
            min_threshold: 262144,
            max_threshold: 268435456,
        }
    }
}

/// The bytes of the live objects.
pub open spec fn live_bytes(s: Seq<HeapObject>) -> nat
    decreases s.len(),
{
    if s.len() == 0 {
        0
    } else {
        live_bytes(s.drop_last()) + if s.last().alive {
            s.last().header.size as nat
        } else {
            0
        }
    }
}

/// The number of live objects.
pub open spec fn live_count(s: Seq<HeapObject>) -> nat
    decreases s.len(),
{
    if s.len() == 0 {
        0
    } else {
        live_count(s.drop_last()) + if s.last().alive {
            1nat
        } else {
            0
        }
    }
}

/// The number of live white objects.
pub open spec fn white_count(s: Seq<HeapObject>) -> nat
    decreases s.len(),
{
    if s.len() == 0 {
        0
    } else {
        white_count(s.drop_last()) + if s.last().alive && s.last().header.color == GcColor::White {
            1nat
        } else {
            0
        }
    }
}

/// The size an object adds to the live bytes.
pub open spec fn byte_weight(o: HeapObject) -> nat {
    if o.alive {
        o.header.size as nat
    } else {
        0
    }
}

/// What an object adds to the live count.
pub open spec fn live_weight(o: HeapObject) -> nat {
    if o.alive {
        1
    } else {
        0
    }
}

/// What an object adds to the white count.
pub open spec fn white_weight(o: HeapObject) -> nat {
    if o.alive && o.header.color == GcColor::White {
        1
    } else {
        0
    }
}

/// Replacing one object changes each total by the difference of its part.
pub proof fn lemma_update_totals(s: Seq<HeapObject>, i: int, o: HeapObject)
    requires
        0 <= i < s.len(),
    ensures
        live_bytes(s.update(i, o)) + byte_weight(s[i]) == live_bytes(s) + byte_weight(o),
        live_count(s.update(i, o)) + live_weight(s[i]) == live_count(s) + live_weight(o),
        white_count(s.update(i, o)) + white_weight(s[i]) == white_count(s) + white_weight(o),
    decreases s.len(),
{
    let u = s.update(i, o);
    if i == s.len() - 1 {
        assert(u.drop_last() =~= s.drop_last());
    } else {
        assert(u.drop_last() =~= s.drop_last().update(i, o));
        lemma_update_totals(s.drop_last(), i, o);
    }
}

/// Appending one object adds its part to each total.
pub proof fn lemma_push_totals(s: Seq<HeapObject>, o: HeapObject)
    ensures
        live_bytes(s.push(o)) == live_bytes(s) + byte_weight(o),
        live_count(s.push(o)) == live_count(s) + live_weight(o),
        white_count(s.push(o)) == white_count(s) + white_weight(o),
{
    assert(s.push(o).drop_last() =~= s);
}

/// The tri-colour mark-and-sweep heap: objects in slots (freed slots are
/// reused, the last freed first), the roots, the live bytes, the threshold
/// of the next collection, and counters.
#[derive(Debug)]
pub struct GcHeap {
    objects: Vec<HeapObject>,
    free_list: Vec<usize>,
    roots: Vec<usize>,
    total_bytes: usize,
    threshold: usize,
    collections: u64,
    total_freed: u64,
    generation: u32,
    config: GcHeapConfig,
    peak_heap_size: usize,
    total_allocations: u64,
}

impl GcHeap {
    /// The slots.
    pub closed spec fn slots(&self) -> Seq<HeapObject> {
        self.objects@
    }

    /// The freed slots, the next to be reused last.
    pub closed spec fn free_slots(&self) -> Seq<usize> {
        self.free_list@
    }

    /// The roots.
    pub closed spec fn root_ids(&self) -> Seq<usize> {
        self.roots@
    }

    /// The live bytes.
    pub closed spec fn heap_bytes(&self) -> usize {
        self.total_bytes
    }

    /// The threshold of the next collection.
    pub closed spec fn collect_threshold(&self) -> usize {
        self.threshold
    }

    /// The number of collections.
    pub closed spec fn collection_count(&self) -> u64 {
        self.collections
    }

    /// The bytes freed by all collections.
    pub closed spec fn freed_total(&self) -> u64 {
        self.total_freed
    }

    /// The generation, one more per collection.
    pub closed spec fn generation_number(&self) -> u32 {
        self.generation
    }

    /// The configuration.
    pub closed spec fn settings(&self) -> GcHeapConfig {
        self.config
    }

    /// The most live bytes there have been.
    pub closed spec fn peak(&self) -> usize {
        self.peak_heap_size
    }

    /// The number of allocations.
    pub closed spec fn allocation_count(&self) -> u64 {
        self.total_allocations
    }

    /// The live bytes are counted right, and the freed slots are exactly
    /// the dead ones, each once.
    pub closed spec fn wf(&self) -> bool {
        &&& self.total_bytes == live_bytes(self.objects@)
        &&& self.free_list@.no_duplicates()
        &&& forall|k: int| 0 <= k < self.free_list@.len() ==> (#[trigger] self.free_list@[k]) < self.objects@.len()
            && !self.objects@[self.free_list@[k] as int].alive
        &&& forall|i: int| 0 <= i < self.objects@.len() && !(#[trigger] self.objects@[i]).alive ==> self.free_list@.contains(i as usize)
    }

    /// The freed slots of a well-formed heap are exactly its dead slots,
    /// each once: the next allocation reuses one of them while there is one.
    pub open spec fn frees_exactly_dead(&self) -> bool {
        &&& self.free_slots().no_duplicates()
        &&& forall|k: int| 0 <= k < self.free_slots().len() ==> (#[trigger] self.free_slots()[k]) < self.slots().len()
            && !self.slots()[self.free_slots()[k] as int].alive
        &&& forall|i: int| 0 <= i < self.slots().len() && !(#[trigger] self.slots()[i]).alive ==> self.free_slots().contains(i as usize)
    }

    /// A well-formed heap counts as its live bytes exactly the sizes of its
    /// live objects.
    pub proof fn lemma_heap_bytes_counted(&self)
        requires
            self.wf(),
        ensures
            self.heap_bytes() == live_bytes(self.slots()),
    {
    }

    /// A well-formed heap frees exactly its dead slots.
    pub proof fn lemma_frees_exactly_dead(&self)
        requires
            self.wf(),
        ensures
            self.frees_exactly_dead(),
    {
    }

    /// An empty heap with the configuration; its threshold is the initial one.
    pub fn new(config: GcHeapConfig) -> (r: Self)
        ensures
            r.wf(),
            r.slots().len() == 0,
            r.free_slots().len() == 0,
            r.root_ids().len() == 0,
            r.heap_bytes() == 0,
            r.collect_threshold() == config.initial_threshold,
            r.collection_count() == 0,
            r.freed_total() == 0,
            r.generation_number() == 0,
            r.settings() == config,
            r.peak() == 0,
            r.allocation_count() == 0,
    {
        GcHeap {
            objects: Vec::new(),
            free_list: Vec::new(),
            roots: Vec::new(),
            total_bytes: 0,
            threshold: config.initial_threshold,
            collections: 0,
            total_freed: 0,
            generation: 0,
            config,
            peak_heap_size: 0,
            total_allocations: 0,
        }
    }

    /// Allocate a white object of the current generation, in the last freed
    /// slot if there is one, else in a new slot; the result is its id.
    pub fn allocate(&mut self, data: HeapData, references: Vec<usize>, size: usize) -> (id: usize)
        requires
            old(self).wf(),
            old(self).heap_bytes() + size <= usize::MAX,
            old(self).allocation_count() < u64::MAX,
        ensures
            final(self).wf(),
            ({
                let o = final(self).slots()[id as int];
                &&& o.header == GcHeader { color: GcColor::White, size, marked: false, generation: old(self).generation_number() }
                &&& o.data == data
                &&& o.references == references
                &&& o.alive
            }),
            old(self).free_slots().len() > 0 ==> id == old(self).free_slots().last() && final(self).free_slots()
                == old(self).free_slots().drop_last() && final(self).slots().len() == old(self).slots().len()
                && forall|i: int| 0 <= i < old(self).slots().len() && i != id ==> final(self).slots()[i] == old(self).slots()[i],
            old(self).free_slots().len() == 0 ==> id == old(self).slots().len() && final(self).slots().drop_last()
                == old(self).slots() && final(self).free_slots() == old(self).free_slots(),
            final(self).heap_bytes() == old(self).heap_bytes() + size,
            final(self).peak() == if old(self).heap_bytes() + size > old(self).peak() {
                (old(self).heap_bytes() + size) as usize
            } else {
                old(self).peak()
            },
            final(self).allocation_count() == old(self).allocation_count() + 1,
            final(self).root_ids() == old(self).root_ids(),
            final(self).collect_threshold() == old(self).collect_threshold(),
            final(self).collection_count() == old(self).collection_count(),
            final(self).freed_total() == old(self).freed_total(),
            final(self).generation_number() == old(self).generation_number(),
            final(self).settings() == old(self).settings(),
    {
        let header = GcHeader { color: GcColor::White, size, marked: false, generation: self.generation };
        let obj = HeapObject { header, data, references, alive: true };
        self.total_bytes = self.total_bytes + size;
        self.total_allocations = self.total_allocations + 1;
        if self.total_bytes > self.peak_heap_size {
            self.peak_heap_size = self.total_bytes;
        }
        let n = self.free_list.len();
        if n > 0 {
            let idx = self.free_list.pop().unwrap();
            proof {
                assert(old(self).free_list@[n - 1] == idx);
                lemma_update_totals(self.objects@, idx as int, obj);
            }
            let ghost before = self.objects@;
            self.objects.set(idx, obj);
            let len = self.objects.len();
            proof {
                assert forall|k: int| 0 <= k < self.free_list@.len() implies (#[trigger] self.free_list@[k]) < self.objects@.len()
                    && !self.objects@[self.free_list@[k] as int].alive by {
                    assert(self.free_list@[k] == old(self).free_list@[k]);
                    assert(old(self).free_list@[k] != idx);
                }
                assert forall|i: int| 0 <= i < self.objects@.len() && !(#[trigger] self.objects@[i]).alive implies self.free_list@.contains(i as usize) by {
                    assert(self.objects@[idx as int].alive);
                    assert(i != idx as int);
                    assert(self.objects@.len() == len);
                    assert((i as usize) as int == i);
                    assert(i as usize != idx);
                    assert(before[i] == self.objects@[i]);
                    assert(old(self).free_list@.contains(i as usize));
                    let k = choose|k: int| 0 <= k < old(self).free_list@.len() && old(self).free_list@[k] == i as usize;
                    assert(k != n - 1);
                    assert(self.free_list@[k] == i as usize);
                }
            }
            idx
        } else {
            let idx = self.objects.len();
            proof {
                lemma_push_totals(self.objects@, obj);
            }
            self.objects.push(obj);
            proof {
                assert forall|i: int| 0 <= i < self.objects@.len() && !(#[trigger] self.objects@[i]).alive implies self.free_list@.contains(i as usize) by {
                    assert(i < old(self).objects@.len());
                    assert(old(self).objects@[i] == self.objects@[i]);
                }
            }
            idx
        }
    }

    /// Make the object a root, unless it is one already.
    pub fn add_root(&mut self, id: usize)
        ensures
            final(self).root_ids() == if old(self).root_ids().contains(id) {
                old(self).root_ids()
            } else {
                old(self).root_ids().push(id)
            },
            final(self).slots() == old(self).slots(),
            final(self).free_slots() == old(self).free_slots(),
            final(self).heap_bytes() == old(self).heap_bytes(),
            old(self).wf() ==> final(self).wf(),
    {
        let mut i: usize = 0;
        while i < self.roots.len()
            invariant
                i <= self.roots@.len(),
                forall|j: int| 0 <= j < i ==> self.roots@[j] != id,
            decreases self.roots@.len() - i,
        {
            if self.roots[i] == id {
                return;
            }
            i = i + 1;
        }
        self.roots.push(id);
    }

    /// The object is no longer a root.
    pub fn remove_root(&mut self, id: usize)
        ensures
            final(self).root_ids() == old(self).root_ids().filter(|r: usize| r != id),
            final(self).slots() == old(self).slots(),
            final(self).free_slots() == old(self).free_slots(),
            final(self).heap_bytes() == old(self).heap_bytes(),
            old(self).wf() ==> final(self).wf(),
    {
        let mut kept: Vec<usize> = Vec::new();
        let mut i: usize = 0;
        while i < self.roots.len()
            invariant
                i <= self.roots@.len(),
                kept@ == self.roots@.take(i as int).filter(|r: usize| r != id),
            decreases self.roots@.len() - i,
        {
            proof {
                reveal_with_fuel(Seq::filter, 1);
                assert(self.roots@.take(i as int + 1).drop_last() =~= self.roots@.take(i as int));
            }
            if self.roots[i] != id {
                kept.push(self.roots[i]);
            }
            i = i + 1;
        }
        assert(self.roots@.take(i as int) =~= self.roots@);
        self.roots = kept;
    }

    /// Add a reference from a live object to another id, unless it has it.
    pub fn add_reference(&mut self, from: usize, to: usize)
        ensures
            (from < old(self).slots().len() && old(self).slots()[from as int].alive && !old(self).slots()[from as int].references@.contains(to))
                ==> final(self).slots() == old(self).slots().update(
                from as int,
                HeapObject { references: final(self).slots()[from as int].references, ..old(self).slots()[from as int] },
            ) && final(self).slots()[from as int].references@ == old(self).slots()[from as int].references@.push(to),
            !(from < old(self).slots().len() && old(self).slots()[from as int].alive && !old(self).slots()[from as int].references@.contains(to))
                ==> final(self).slots() == old(self).slots(),
            final(self).root_ids() == old(self).root_ids(),
            final(self).free_slots() == old(self).free_slots(),
            final(self).heap_bytes() == old(self).heap_bytes(),
            old(self).wf() ==> final(self).wf(),
    {
        if from < self.objects.len() && self.objects[from].alive {
            let mut found = false;
            let mut i: usize = 0;
            while i < self.objects[from].references.len()
                invariant
                    from < self.objects@.len(),
                    i <= self.objects@[from as int].references@.len(),
                    found == self.objects@[from as int].references@.take(i as int).contains(to),
                decreases self.objects@[from as int].references@.len() - i,
            {
                proof {
                    let t = self.objects@[from as int].references@.take(i as int + 1);
                    assert(t =~= self.objects@[from as int].references@.take(i as int).push(t[i as int]));
                }
                if self.objects[from].references[i] == to {
                    found = true;
                }
                i = i + 1;
            }
            assert(self.objects@[from as int].references@.take(i as int) =~= self.objects@[from as int].references@);
            if !found {
                let mut obj = self.objects.remove(from);
                let ghost o0 = obj;
                obj.references.push(to);
                self.objects.insert(from, obj);
                proof {
                    lemma_update_totals(old(self).objects@, from as int, obj);
                    assert(self.objects@ =~= old(self).objects@.update(from as int, obj));
                }
            }
        }
    }

    /// Whether the live bytes reached the threshold.
    pub fn should_collect(&self) -> (r: bool)
        ensures
            r == (self.heap_bytes() >= self.collect_threshold()),
    {
        self.total_bytes >= self.threshold
    }

    /// The number of slots, freed ones included.
    pub fn object_count(&self) -> (r: usize)
        ensures
            r == self.slots().len(),
    {
        self.objects.len()
    }

    /// The number of live objects.
    pub fn live_object_count(&self) -> (r: usize)
        ensures
            r == live_count(self.slots()),
    {
        let mut n: usize = 0;
        let mut i: usize = 0;
        while i < self.objects.len()
            invariant
                i <= self.objects@.len(),
                n == live_count(self.objects@.take(i as int)),
                n <= i,
            decreases self.objects@.len() - i,
        {
            proof {
                assert(self.objects@.take(i as int + 1).drop_last() =~= self.objects@.take(i as int));
            }
            if self.objects[i].alive {
                n = n + 1;
            }
            i = i + 1;
        }
        assert(self.objects@.take(i as int) =~= self.objects@);
        n
    }

    /// The live bytes.
    pub fn total_bytes(&self) -> (r: usize)
        ensures
            r == self.heap_bytes(),
    {
        self.total_bytes
    }

    /// Tri-colour marking: every live object turns white, the live roots
    /// gray, and then each gray object in turn black, its live white
    /// references gray, until none is gray.
    fn mark_phase(&mut self)
        requires
            old(self).wf(),
        ensures
            final(self).wf(),
            same_shape(old(self).objects@, final(self).objects@),
            final(self).free_list@ == old(self).free_list@,
            final(self).roots@ == old(self).roots@,
            final(self).total_bytes == old(self).total_bytes,
            final(self).threshold == old(self).threshold,
            final(self).collections == old(self).collections,
            final(self).total_freed == old(self).total_freed,
            final(self).generation == old(self).generation,
            final(self).config == old(self).config,
            final(self).peak_heap_size == old(self).peak_heap_size,
            final(self).total_allocations == old(self).total_allocations,
            forall|i: int|
                0 <= i < final(self).objects@.len() && #[trigger] final(self).objects@[i].alive ==> {
                    &&& (final(self).objects@[i].header.color == GcColor::Black) == reachable(
                        old(self).objects@,
                        old(self).roots@,
                        i as usize,
                    )
                    &&& final(self).objects@[i].header.color != GcColor::Gray
                    &&& final(self).objects@[i].header.marked == (final(self).objects@[i].header.color == GcColor::Black)
                },
    {
        let ghost objs0 = self.objects@;
        let n = self.objects.len();
        let mut i: usize = 0;
        while i < n
            invariant
                n == self.objects@.len(),
                i <= n,
                same_shape(objs0, self.objects@),
                self.total_bytes == live_bytes(self.objects@),
                self.free_list@ == old(self).free_list@,
                self.roots@ == old(self).roots@,
                self.threshold == old(self).threshold,
                self.collections == old(self).collections,
                self.total_freed == old(self).total_freed,
                self.generation == old(self).generation,
                self.config == old(self).config,
                self.peak_heap_size == old(self).peak_heap_size,
                self.total_allocations == old(self).total_allocations,
                self.total_bytes == old(self).total_bytes,
                forall|j: int| 0 <= j < i && #[trigger] self.objects@[j].alive ==> self.objects@[j].header.color
                    == GcColor::White && !self.objects@[j].header.marked,
            decreases n - i,
        {
            if self.objects[i].alive {
                let ghost before = self.objects@;
                self.objects[i].header.color = GcColor::White;
                self.objects[i].header.marked = false;
                proof {
                    lemma_update_totals(before, i as int, self.objects@[i as int]);
                    assert(self.objects@ =~= before.update(i as int, self.objects@[i as int]));
                }
            }
            i = i + 1;
        }
        let mut worklist: Vec<usize> = Vec::new();
        let mut r: usize = 0;
        while r < self.roots.len()
            invariant
                n == self.objects@.len(),
                r <= self.roots@.len(),
                same_shape(objs0, self.objects@),
                self.total_bytes == live_bytes(self.objects@),
                self.free_list@ == old(self).free_list@,
                self.roots@ == old(self).roots@,
                self.threshold == old(self).threshold,
                self.collections == old(self).collections,
                self.total_freed == old(self).total_freed,
                self.generation == old(self).generation,
                self.config == old(self).config,
                self.peak_heap_size == old(self).peak_heap_size,
                self.total_allocations == old(self).total_allocations,
                self.total_bytes == old(self).total_bytes,
                mark_state(objs0, self.roots@, self.objects@, worklist@),
                queued_marked(self.objects@, worklist@),
                forall|j: int| #![trigger self.roots@[j]] 0 <= j < r && self.roots@[j] < n && self.objects@[self.roots@[j] as int].alive
                    ==> self.objects@[self.roots@[j] as int].header.color != GcColor::White,
                forall|j: int| 0 <= j < n && #[trigger] self.objects@[j].alive ==> self.objects@[j].header.color != GcColor::Black,
            decreases self.roots@.len() - r,
        {
            let root_id = self.roots[r];
            if root_id < n && self.objects[root_id].alive {
                let ghost before = self.objects@;
                self.objects[root_id].header.color = GcColor::Gray;
                let ghost wl = worklist@;
                worklist.push(root_id);
                proof {
                    lemma_gray_pushed(before, self.objects@, wl, root_id);
                    lemma_update_totals(before, root_id as int, self.objects@[root_id as int]);
                    assert(self.objects@ =~= before.update(root_id as int, self.objects@[root_id as int]));
                    assert(is_path(objs0, self.roots@, seq![root_id]));
                    assert(reachable(objs0, self.roots@, root_id));
                    assert forall|j: int| 0 <= j < n && #[trigger] self.objects@[j].alive && self.objects@[j].header.color
                        != GcColor::White implies reachable(objs0, self.roots@, j as usize) by {
                        if j != root_id as int {
                            assert(before[j] == self.objects@[j]);
                        }
                    }
                }
            }
            r = r + 1;
        }
        while worklist.len() > 0
            invariant
                n == self.objects@.len(),
                same_shape(objs0, self.objects@),
                self.total_bytes == live_bytes(self.objects@),
                self.free_list@ == old(self).free_list@,
                self.roots@ == old(self).roots@,
                self.threshold == old(self).threshold,
                self.collections == old(self).collections,
                self.total_freed == old(self).total_freed,
                self.generation == old(self).generation,
                self.config == old(self).config,
                self.peak_heap_size == old(self).peak_heap_size,
                self.total_allocations == old(self).total_allocations,
                self.total_bytes == old(self).total_bytes,
                mark_state(objs0, self.roots@, self.objects@, worklist@),
                queued_marked(self.objects@, worklist@),
                roots_marked(self.roots@, self.objects@),
                black_closed(self.objects@),
            decreases white_count(self.objects@), worklist@.len(),
        {
            let ghost wl_before = worklist@;
            let obj_id = worklist.pop().unwrap();
            proof {
                lemma_pop_keeps(self.objects@, wl_before, obj_id);
            }
            if obj_id < n && self.objects[obj_id].alive && self.objects[obj_id].header.color != GcColor::Black {
                let ghost before_black = self.objects@;
                let ghost wl_after_pop = worklist@;
                proof {
                    assert(reachable(objs0, self.roots@, obj_id));
                }
                self.objects[obj_id].header.color = GcColor::Black;
                self.objects[obj_id].header.marked = true;
                proof {
                    lemma_update_totals(before_black, obj_id as int, self.objects@[obj_id as int]);
                    assert(self.objects@ =~= before_black.update(obj_id as int, self.objects@[obj_id as int]));
                }
                let refs = copy_ids(&self.objects[obj_id].references);
                let ghost wc_start = white_count(self.objects@);
                let mut k: usize = 0;
                while k < refs.len()
                    invariant
                        n == self.objects@.len(),
                        obj_id < n,
                        refs@ == self.objects@[obj_id as int].references@,
                        k <= refs@.len(),
                        self.free_list@ == old(self).free_list@,
                        self.roots@ == old(self).roots@,
                        self.threshold == old(self).threshold,
                        self.collections == old(self).collections,
                        self.total_freed == old(self).total_freed,
                        self.generation == old(self).generation,
                        self.config == old(self).config,
                        self.peak_heap_size == old(self).peak_heap_size,
                        self.total_allocations == old(self).total_allocations,
                        self.total_bytes == old(self).total_bytes,
                        same_shape(objs0, self.objects@),
                        self.total_bytes == live_bytes(self.objects@),
                        self.objects@[obj_id as int].alive,
                        self.objects@[obj_id as int].header.color == GcColor::Black,
                        self.objects@[obj_id as int].header.marked,
                        reachable(objs0, self.roots@, obj_id),
                        mark_state(objs0, self.roots@, self.objects@, worklist@),
                        queued_marked(self.objects@, worklist@),
                        roots_marked(self.roots@, self.objects@),
                        black_closed_except(self.objects@, obj_id),
                        forall|m: int| #![trigger refs@[m]] 0 <= m < k && refs@[m] < n && self.objects@[refs@[m] as int].alive
                            ==> self.objects@[refs@[m] as int].header.color != GcColor::White,
                        white_count(self.objects@) + (worklist@.len() - wl_after_pop.len()) == wc_start,
                        worklist@.len() >= wl_after_pop.len(),
                    decreases refs@.len() - k,
                {
                    let ref_id = refs[k];
                    if ref_id < n && self.objects[ref_id].alive && self.objects[ref_id].header.color == GcColor::White {
                        let ghost before = self.objects@;
                        self.objects[ref_id].header.color = GcColor::Gray;
                        let ghost wl = worklist@;
                        worklist.push(ref_id);
                        proof {
                            lemma_gray_pushed(before, self.objects@, wl, ref_id);
                            lemma_update_totals(before, ref_id as int, self.objects@[ref_id as int]);
                            assert(self.objects@ =~= before.update(ref_id as int, self.objects@[ref_id as int]));
                            lemma_path_extend(objs0, self.roots@, obj_id, ref_id);
                            assert forall|j: int| 0 <= j < n && #[trigger] self.objects@[j].alive && self.objects@[j].header.color
                                != GcColor::White implies reachable(objs0, self.roots@, j as usize) by {
                                if j != ref_id as int {
                                    assert(before[j] == self.objects@[j]);
                                }
                            }
                        }
                    }
                    k = k + 1;
                }
                proof {
                    assert(black_closed(self.objects@));
                }
            }
        }
        proof {
            lemma_marked_complete(objs0, self.roots@, self.objects@);
        }
    }

    /// Free every live white object: it dies, its data and references are
    /// dropped, its slot joins the freed ones (in slot order), and its
    /// bytes are no longer counted.  The result is the number of objects
    /// and of bytes freed.
    fn sweep_phase(&mut self) -> (r: (usize, usize))
        requires
            old(self).wf(),
        ensures
            final(self).wf(),
            final(self).objects@.len() == old(self).objects@.len(),
            forall|i: int| 0 <= i < old(self).objects@.len() ==> swept(old(self).objects@[i], #[trigger] final(self).objects@[i]),
            final(self).free_list@ == old(self).free_list@ + freed_upto(old(self).objects@, old(self).objects@.len() as int),
            r.0 == freed_upto(old(self).objects@, old(self).objects@.len() as int).len(),
            r.1 == old(self).total_bytes - final(self).total_bytes,
            final(self).roots@ == old(self).roots@,
            final(self).threshold == old(self).threshold,
            final(self).collections == old(self).collections,
            final(self).total_freed == old(self).total_freed,
            final(self).generation == old(self).generation,
            final(self).config == old(self).config,
            final(self).peak_heap_size == old(self).peak_heap_size,
            final(self).total_allocations == old(self).total_allocations,
    {
        let ghost objs0 = self.objects@;
        let ghost free0 = self.free_list@;
        let n = self.objects.len();
        let mut freed_count: usize = 0;
        let mut freed_bytes: usize = 0;
        let mut i: usize = 0;
        while i < n
            invariant
                n == self.objects@.len(),
                n == objs0.len(),
                i <= n,
                forall|j: int| 0 <= j < i ==> swept(objs0[j], #[trigger] self.objects@[j]),
                forall|j: int| i <= j < n ==> #[trigger] self.objects@[j] == objs0[j],
                self.free_list@ == free0 + freed_upto(objs0, i as int),
                freed_count == freed_upto(objs0, i as int).len(),
                freed_count <= i,
                freed_bytes + live_bytes(self.objects@) == live_bytes(objs0),
                self.total_bytes == live_bytes(objs0),
                free0.no_duplicates(),
                forall|k: int| 0 <= k < free0.len() ==> (#[trigger] free0[k]) < n && !objs0[free0[k] as int].alive,
                forall|j: int| 0 <= j < n && !(#[trigger] objs0[j]).alive ==> free0.contains(j as usize),
                self.roots@ == old(self).roots@,
                self.threshold == old(self).threshold,
                self.collections == old(self).collections,
                self.total_freed == old(self).total_freed,
                self.generation == old(self).generation,
                self.config == old(self).config,
                self.peak_heap_size == old(self).peak_heap_size,
                self.total_allocations == old(self).total_allocations,
            decreases n - i,
        {
            let ghost before = self.objects@;
            if self.objects[i].alive && self.objects[i].header.color == GcColor::White {
                proof {
                    lemma_live_bytes_bound(self.objects@, i as int);
                }
                freed_bytes = freed_bytes + self.objects[i].header.size;
                self.objects[i].alive = false;
                self.objects[i].data = HeapData::Empty;
                self.objects[i].references.clear();
                self.free_list.push(i);
                freed_count = freed_count + 1;
                proof {
                    lemma_update_totals(before, i as int, self.objects@[i as int]);
                    assert(self.objects@ =~= before.update(i as int, self.objects@[i as int]));
                }
            }
            proof {
                assert(freed_upto(objs0, i as int + 1) == freed_upto(objs0, i as int) + if objs0[i as int].alive
                    && objs0[i as int].header.color == GcColor::White {
                    seq![i]
                } else {
                    Seq::<usize>::empty()
                });
                assert(self.free_list@ =~= free0 + freed_upto(objs0, i as int + 1));
            }
            i = i + 1;
        }
        proof {
            lemma_sweep_free_list(objs0, free0, self.objects@);
        }
        self.total_bytes = self.total_bytes - freed_bytes;
        (freed_count, freed_bytes)
    }

    /// Collect: a new generation, the marking, then the sweep; the freed
    /// bytes are counted, and the next threshold is the surviving bytes
    /// grown by the configured factor, within the configured bounds.
    /// Exactly the live objects reachable from a live root through live
    /// objects survive, black and marked.
    pub fn collect(&mut self) -> (r: CollectionResult)
        requires
            old(self).wf(),
            old(self).generation_number() < u32::MAX,
            old(self).collection_count() < u64::MAX,
            old(self).freed_total() + old(self).heap_bytes() <= u64::MAX,
        ensures
            final(self).wf(),
            final(self).slots().len() == old(self).slots().len(),
            forall|i: int|
                0 <= i < old(self).slots().len() ==> (#[trigger] final(self).slots()[i]).alive == (old(self).slots()[i].alive
                    && reachable(old(self).slots(), old(self).root_ids(), i as usize)),
            forall|i: int|
                0 <= i < old(self).slots().len() && #[trigger] final(self).slots()[i].alive ==> survived(
                    old(self).slots()[i],
                    final(self).slots()[i],
                ),
            forall|i: int|
                0 <= i < old(self).slots().len() && old(self).slots()[i].alive && !(#[trigger] final(self).slots()[i]).alive
                    ==> final(self).slots()[i].data == HeapData::Empty && final(self).slots()[i].references@.len() == 0,
            r.objects_freed == live_count(old(self).slots()) - live_count(final(self).slots()),
            r.bytes_freed == old(self).heap_bytes() - final(self).heap_bytes(),
            r.bytes_freed == live_bytes(old(self).slots()) - live_bytes(final(self).slots()),
            final(self).heap_bytes() == live_bytes(final(self).slots()),
            r.objects_surviving == live_count(final(self).slots()),
            r.generation == final(self).generation_number(),
            final(self).frees_exactly_dead(),
            final(self).generation_number() == old(self).generation_number() + 1,
            final(self).collection_count() == old(self).collection_count() + 1,
            final(self).freed_total() == old(self).freed_total() + r.bytes_freed,
            final(self).collect_threshold() == next_threshold(final(self).heap_bytes(), old(self).settings()),
            final(self).root_ids() == old(self).root_ids(),
            final(self).settings() == old(self).settings(),
            final(self).peak() == old(self).peak(),
            final(self).allocation_count() == old(self).allocation_count(),
    {
        let start = instant_now();
        self.generation = self.generation + 1;
        let ghost objs0 = self.objects@;
        self.mark_phase();
        let ghost marked = self.objects@;
        let (freed_count, freed_bytes) = self.sweep_phase();
        self.collections = self.collections + 1;
        self.total_freed = self.total_freed + freed_bytes as u64;
        self.threshold = threshold_after(self.total_bytes, &self.config);
        let duration_us = duration_as_micros(&instant_elapsed(&start)) as u64;
        let surviving = self.live_object_count();
        proof {
            assert forall|i: int| 0 <= i < objs0.len() implies (#[trigger] self.objects@[i]).alive == (objs0[i].alive && reachable(
                objs0,
                old(self).roots@,
                i as usize,
            )) by {
                assert(swept(marked[i], self.objects@[i]));
                assert(marked[i] == HeapObject {
                    header: GcHeader { color: marked[i].header.color, marked: marked[i].header.marked, ..objs0[i].header },
                    ..objs0[i]
                });
            }
            assert forall|i: int| 0 <= i < objs0.len() && #[trigger] self.objects@[i].alive implies survived(objs0[i], self.objects@[i]) by {
                assert(swept(marked[i], self.objects@[i]));
                assert(marked[i] == HeapObject {
                    header: GcHeader { color: marked[i].header.color, marked: marked[i].header.marked, ..objs0[i].header },
                    ..objs0[i]
                });
            }
            assert forall|i: int| 0 <= i < objs0.len() && objs0[i].alive && !(#[trigger] self.objects@[i]).alive implies self.objects@[i].data
                == HeapData::Empty && self.objects@[i].references@.len() == 0 by {
                assert(swept(marked[i], self.objects@[i]));
                assert(marked[i].alive == objs0[i].alive);
            }
            lemma_freed_count(marked, self.objects@, marked.len() as int);
            assert(marked.take(marked.len() as int) =~= marked);
            assert(self.objects@.take(marked.len() as int) =~= self.objects@);
            lemma_same_shape_counts(objs0, marked);
        }
        CollectionResult {
            objects_freed: freed_count,
            bytes_freed: freed_bytes,
            objects_surviving: surviving,
            duration_us,
            generation: self.generation,
        }
    }

    /// The heap's counters: allocations, collections, bytes freed, live
    /// bytes and objects, the threshold and the peak.
    pub fn stats(&self) -> (r: GcHeapStats)
        ensures
            r.total_allocations == self.allocation_count(),
            r.total_collections == self.collection_count(),
            r.total_bytes_freed == self.freed_total(),
            r.current_heap_size == self.heap_bytes(),
            r.current_object_count == live_count(self.slots()),
            r.current_threshold == self.collect_threshold(),
            r.peak_heap_size == self.peak(),
    {
        GcHeapStats {
            total_allocations: self.total_allocations,
            total_collections: self.collections,
            total_bytes_freed: self.total_freed,
            current_heap_size: self.total_bytes,
            current_object_count: self.live_object_count(),
            current_threshold: self.threshold,
            peak_heap_size: self.peak_heap_size,
        }
    }
}

impl Default for GcHeap {
    /// A heap with the default configuration.
    fn default() -> (r: Self)
        ensures
            r.wf(),
            r.slots().len() == 0,
            r.heap_bytes() == 0,
            r.collect_threshold() == 1048576,
    {
        GcHeap::new(GcHeapConfig::default())
    }
}

/// `Duration::as_micros`: the length of the duration in microseconds.
#[verifier::external_body]
fn duration_as_micros(d: &std::time::Duration) -> u128 {
    d.as_micros()
}

/// The threshold after a collection that left `bytes` live: `bytes` times
/// the growth factor (in thousandths, rounded down, at most `usize::MAX`),
/// raised to the minimum, then lowered to the maximum.
pub open spec fn next_threshold(bytes: usize, c: GcHeapConfig) -> usize {
    let scaled = (bytes as nat * c.growth_factor_permille as nat) / 1000;
    let t: usize = if scaled > usize::MAX {
        usize::MAX
    } else {
        scaled as usize
    };
    let raised: usize = if t < c.min_threshold {
        c.min_threshold
    } else {
        t
    };
    if raised > c.max_threshold {
        c.max_threshold
    } else {
        raised
    }
}

fn threshold_after(bytes: usize, c: &GcHeapConfig) -> (r: usize)
    ensures
        r == next_threshold(bytes, *c),
{
    proof {
        assert((bytes as u128) * (c.growth_factor_permille as u128) <= u128::MAX) by (nonlinear_arith)
            requires
                bytes <= u64::MAX,
                c.growth_factor_permille <= u64::MAX,
        ;
    }
    let scaled: u128 = (bytes as u128) * (c.growth_factor_permille as u128) / 1000;
    let t: usize = if scaled > usize::MAX as u128 {
        usize::MAX
    } else {
        scaled as usize
    };
    let raised = if t < c.min_threshold {
        c.min_threshold
    } else {
        t
    };
    if raised > c.max_threshold {
        c.max_threshold
    } else {
        raised
    }
}

/// `after` is `before` as a survivor of a collection: black and marked.
pub open spec fn survived(before: HeapObject, after: HeapObject) -> bool {
    after == HeapObject {
        header: GcHeader { color: GcColor::Black, marked: true, ..before.header },
        ..before
    }
}

/// What sweeping does to an object: a live white one dies, its data and
/// references dropped; any other stays as it was.
pub open spec fn swept(before: HeapObject, after: HeapObject) -> bool {
    if before.alive && before.header.color == GcColor::White {
        &&& !after.alive
        &&& after.data == HeapData::Empty
        &&& after.references@.len() == 0
        &&& after.header == before.header
    } else {
        after == before
    }
}

/// The ids of the live white objects among the first `i` slots, in order.
pub open spec fn freed_upto(s: Seq<HeapObject>, i: int) -> Seq<usize>
    decreases i,
{
    if i <= 0 {
        Seq::empty()
    } else {
        freed_upto(s, i - 1) + if s[i - 1].alive && s[i - 1].header.color == GcColor::White {
            seq![(i - 1) as usize]
        } else {
            Seq::<usize>::empty()
        }
    }
}

proof fn lemma_live_bytes_bound(s: Seq<HeapObject>, i: int)
    requires
        0 <= i < s.len(),
        s[i].alive,
    ensures
        s[i].header.size <= live_bytes(s),
    decreases s.len(),
{
    if i < s.len() - 1 {
        lemma_live_bytes_bound(s.drop_last(), i);
    }
}

proof fn lemma_freed_upto_facts(s: Seq<HeapObject>, i: int)
    requires
        0 <= i <= s.len(),
        s.len() <= usize::MAX,
    ensures
        forall|k: int| 0 <= k < freed_upto(s, i).len() ==> (#[trigger] freed_upto(s, i)[k]) < i
            && s[freed_upto(s, i)[k] as int].alive && s[freed_upto(s, i)[k] as int].header.color == GcColor::White,
        forall|k: int, l: int| 0 <= k < l < freed_upto(s, i).len() ==> #[trigger] freed_upto(s, i)[k] < #[trigger] freed_upto(s, i)[l],
        forall|j: int| 0 <= j < i && s[j].alive && s[j].header.color == GcColor::White ==> #[trigger] freed_upto(s, i).contains(j as usize),
    decreases i,
{
    if i > 0 {
        lemma_freed_upto_facts(s, i - 1);
        let prev = freed_upto(s, i - 1);
        let cur = freed_upto(s, i);
        if s[i - 1].alive && s[i - 1].header.color == GcColor::White {
            assert(cur == prev + seq![(i - 1) as usize]);
            assert forall|k: int| 0 <= k < cur.len() implies (#[trigger] cur[k]) < i && s[cur[k] as int].alive
                && s[cur[k] as int].header.color == GcColor::White by {
                if k < prev.len() {
                    assert(cur[k] == prev[k]);
                } else {
                    assert(cur[k] == (i - 1) as usize);
                }
            }
            assert forall|k: int, l: int| 0 <= k < l < cur.len() implies #[trigger] cur[k] < #[trigger] cur[l] by {
                if l < prev.len() {
                    assert(cur[k] == prev[k] && cur[l] == prev[l]);
                } else {
                    assert(cur[k] == prev[k]);
                    assert(prev[k] < i - 1);
                    assert(cur[l] == (i - 1) as usize);
                }
            }
            assert forall|j: int| 0 <= j < i && s[j].alive && s[j].header.color == GcColor::White implies #[trigger] cur.contains(j as usize) by {
                if j == i - 1 {
                    assert(cur[prev.len() as int] == (i - 1) as usize);
                } else {
                    assert(prev.contains(j as usize));
                    let k = choose|k: int| 0 <= k < prev.len() && prev[k] == j as usize;
                    assert(cur[k] == prev[k]);
                }
            }
        } else {
            assert(cur =~= prev);
        }
    }
}

proof fn lemma_sweep_free_list(objs0: Seq<HeapObject>, free0: Seq<usize>, objs: Seq<HeapObject>)
    requires
        objs.len() == objs0.len(),
        objs0.len() <= usize::MAX,
        forall|j: int| 0 <= j < objs0.len() ==> swept(objs0[j], #[trigger] objs[j]),
        free0.no_duplicates(),
        forall|k: int| 0 <= k < free0.len() ==> (#[trigger] free0[k]) < objs0.len() && !objs0[free0[k] as int].alive,
        forall|j: int| 0 <= j < objs0.len() && !(#[trigger] objs0[j]).alive ==> free0.contains(j as usize),
    ensures
        ({
            let f = free0 + freed_upto(objs0, objs0.len() as int);
            &&& f.no_duplicates()
            &&& forall|k: int| 0 <= k < f.len() ==> (#[trigger] f[k]) < objs.len() && !objs[f[k] as int].alive
            &&& forall|j: int| 0 <= j < objs.len() && !(#[trigger] objs[j]).alive ==> f.contains(j as usize)
        }),
{
    let fr = freed_upto(objs0, objs0.len() as int);
    let f = free0 + fr;
    lemma_freed_upto_facts(objs0, objs0.len() as int);
    assert forall|a: int, b: int| 0 <= a < f.len() && 0 <= b < f.len() && a != b implies f[a] != f[b] by {
        if a < free0.len() && b < free0.len() {
        } else if a >= free0.len() && b >= free0.len() {
            if a < b {
                assert(fr[a - free0.len()] < fr[b - free0.len()]);
            } else {
                assert(fr[b - free0.len()] < fr[a - free0.len()]);
            }
        } else if a < free0.len() {
            assert(!objs0[f[a] as int].alive);
            assert(objs0[fr[b - free0.len()] as int].alive);
        } else {
            assert(!objs0[f[b] as int].alive);
            assert(objs0[fr[a - free0.len()] as int].alive);
        }
    }
    assert forall|k: int| 0 <= k < f.len() implies (#[trigger] f[k]) < objs.len() && !objs[f[k] as int].alive by {
        if k < free0.len() {
            assert(f[k] == free0[k]);
            assert(swept(objs0[free0[k] as int], objs[free0[k] as int]));
        } else {
            assert(f[k] == fr[k - free0.len()]);
            assert(swept(objs0[fr[k - free0.len()] as int], objs[fr[k - free0.len()] as int]));
        }
    }
    assert forall|j: int| 0 <= j < objs.len() && !(#[trigger] objs[j]).alive implies f.contains(j as usize) by {
        assert(swept(objs0[j], objs[j]));
        if !objs0[j].alive {
            let k = choose|k: int| 0 <= k < free0.len() && free0[k] == j as usize;
            assert(f[k] == j as usize);
        } else {
            assert(fr.contains(j as usize));
            let k = choose|k: int| 0 <= k < fr.len() && fr[k] == j as usize;
            assert(f[free0.len() + k] == j as usize);
        }
    }
}

proof fn lemma_freed_count(before: Seq<HeapObject>, after: Seq<HeapObject>, i: int)
    requires
        0 <= i <= before.len(),
        after.len() == before.len(),
        forall|j: int| 0 <= j < before.len() ==> swept(before[j], #[trigger] after[j]),
    ensures
        live_count(before.take(i)) == live_count(after.take(i)) + freed_upto(before, i).len(),
    decreases i,
{
    if i > 0 {
        lemma_freed_count(before, after, i - 1);
        assert(before.take(i).drop_last() =~= before.take(i - 1));
        assert(after.take(i).drop_last() =~= after.take(i - 1));
        assert(swept(before[i - 1], after[i - 1]));
    }
}

proof fn lemma_same_shape_counts(a: Seq<HeapObject>, b: Seq<HeapObject>)
    requires
        same_shape(a, b),
    ensures
        live_count(a) == live_count(b),
        live_bytes(a) == live_bytes(b),
    decreases a.len(),
{
    if a.len() > 0 {
        assert(same_shape(a.drop_last(), b.drop_last())) by {
            assert forall|i: int| 0 <= i < a.drop_last().len() implies (#[trigger] b.drop_last()[i]) == HeapObject {
                header: GcHeader { color: b.drop_last()[i].header.color, marked: b.drop_last()[i].header.marked, ..a.drop_last()[i].header },
                ..a.drop_last()[i]
            } by {
                assert(b.drop_last()[i] == b[i]);
                assert(a.drop_last()[i] == a[i]);
            }
        }
        lemma_same_shape_counts(a.drop_last(), b.drop_last());
        assert(b.last() == b[b.len() - 1]);
    }
}


fn copy_ids(v: &Vec<usize>) -> (r: Vec<usize>)
    ensures
        r@ == v@,
{
    let mut out: Vec<usize> = Vec::new();
    let mut i: usize = 0;
    while i < v.len()
        invariant
            i <= v@.len(),
            out@ == v@.take(i as int),
        decreases v@.len() - i,
    {
        out.push(v[i]);
        assert(v@.take(i as int + 1) =~= v@.take(i as int).push(v@[i as int]));
        i = i + 1;
    }
    assert(v@.take(i as int) =~= v@);
    out
}

/// The two heaps have the same slots, the same live objects with the same
/// references, data, sizes and generations; only colours and marks may
/// differ.
pub open spec fn same_shape(a: Seq<HeapObject>, b: Seq<HeapObject>) -> bool {
    &&& a.len() == b.len()
    &&& forall|i: int|
        0 <= i < a.len() ==> (#[trigger] b[i]) == HeapObject {
            header: GcHeader { color: b[i].header.color, marked: b[i].header.marked, ..a[i].header },
            ..a[i]
        }
}

/// A live object refers to another live object.
pub open spec fn points_to(s: Seq<HeapObject>, a: usize, b: usize) -> bool {
    &&& a < s.len() && s[a as int].alive
    &&& b < s.len() && s[b as int].alive
    &&& s[a as int].references@.contains(b)
}

/// A chain of references from a live root.
pub open spec fn is_path(s: Seq<HeapObject>, roots: Seq<usize>, p: Seq<usize>) -> bool {
    &&& p.len() > 0
    &&& roots.contains(p[0])
    &&& p[0] < s.len() && s[p[0] as int].alive
    &&& forall|k: int| 1 <= k < p.len() ==> points_to(s, p[k - 1], #[trigger] p[k])
}

/// The object can be reached from a live root through live objects.
pub open spec fn reachable(s: Seq<HeapObject>, roots: Seq<usize>, i: usize) -> bool {
    exists|p: Seq<usize>| #[trigger] is_path(s, roots, p) && p.last() == i
}

/// The marking is under way: every live gray object waits in the worklist,
/// and every live object that is not white can be reached.
pub open spec fn mark_state(s0: Seq<HeapObject>, roots: Seq<usize>, s: Seq<HeapObject>, worklist: Seq<usize>) -> bool {
    &&& forall|j: int| 0 <= j < s.len() && #[trigger] s[j].alive && s[j].header.color == GcColor::Gray ==> worklist.contains(j as usize)
    &&& forall|j: int| 0 <= j < s.len() && #[trigger] s[j].alive && s[j].header.color != GcColor::White ==> reachable(s0, roots, j as usize)
    &&& forall|j: int| 0 <= j < s.len() && #[trigger] s[j].alive ==> (s[j].header.marked == (s[j].header.color == GcColor::Black))
}

/// Every live queued object is not white.
pub open spec fn queued_marked(s: Seq<HeapObject>, worklist: Seq<usize>) -> bool {
    forall|k: int| #![trigger worklist[k]] 0 <= k < worklist.len() && worklist[k] < s.len() && s[worklist[k] as int].alive
        ==> s[worklist[k] as int].header.color != GcColor::White
}

/// Taking the last queued object leaves every other gray object queued.
proof fn lemma_pop_keeps(s: Seq<HeapObject>, wl: Seq<usize>, x: usize)
    requires
        s.len() <= usize::MAX,
        wl.len() > 0,
        wl.last() == x,
        forall|j: int| 0 <= j < s.len() && #[trigger] s[j].alive && s[j].header.color == GcColor::Gray ==> wl.contains(j as usize),
        queued_marked(s, wl),
    ensures
        forall|j: int|
            0 <= j < s.len() && #[trigger] s[j].alive && s[j].header.color == GcColor::Gray && j != x as int ==> wl.drop_last().contains(j as usize),
        queued_marked(s, wl.drop_last()),
        x < s.len() && s[x as int].alive ==> s[x as int].header.color != GcColor::White,
{
    assert forall|j: int| 0 <= j < s.len() && #[trigger] s[j].alive && s[j].header.color == GcColor::Gray && j != x as int implies wl.drop_last().contains(j as usize) by {
        let k = choose|k: int| 0 <= k < wl.len() && wl[k] == j as usize;
        assert(k != wl.len() - 1);
        assert(wl.drop_last()[k] == j as usize);
    }
    assert forall|k: int| #![trigger wl.drop_last()[k]] 0 <= k < wl.drop_last().len() && wl.drop_last()[k] < s.len()
        && s[wl.drop_last()[k] as int].alive implies s[wl.drop_last()[k] as int].header.color != GcColor::White by {
        assert(wl.drop_last()[k] == wl[k]);
    }
    assert(wl[wl.len() - 1] == x);
}

/// Turning a white object gray and queueing it keeps every gray object
/// queued and every queued object non-white.
proof fn lemma_gray_pushed(before: Seq<HeapObject>, after: Seq<HeapObject>, wl: Seq<usize>, x: usize)
    requires
        before.len() <= usize::MAX,
        x < before.len(),
        after == before.update(x as int, after[x as int]),
        after[x as int].header.color == GcColor::Gray,
        after[x as int].alive,
        forall|j: int| 0 <= j < before.len() && #[trigger] before[j].alive && before[j].header.color == GcColor::Gray ==> wl.contains(j as usize),
        queued_marked(before, wl),
    ensures
        forall|j: int| 0 <= j < after.len() && #[trigger] after[j].alive && after[j].header.color == GcColor::Gray ==> wl.push(x).contains(j as usize),
        queued_marked(after, wl.push(x)),
{
    let w = wl.push(x);
    assert forall|j: int| 0 <= j < after.len() && #[trigger] after[j].alive && after[j].header.color == GcColor::Gray implies w.contains(j as usize) by {
        if j == x as int {
            assert(w[wl.len() as int] == x);
        } else {
            assert(after[j] == before[j]);
            let k = choose|k: int| 0 <= k < wl.len() && wl[k] == j as usize;
            assert(w[k] == j as usize);
        }
    }
    assert forall|k: int| #![trigger w[k]] 0 <= k < w.len() && w[k] < after.len() && after[w[k] as int].alive implies after[w[k] as int].header.color
        != GcColor::White by {
        if k < wl.len() {
            assert(w[k] == wl[k]);
            if wl[k] != x {
                assert(after[wl[k] as int] == before[wl[k] as int]);
            }
        }
    }
}

/// Every live root is not white.
pub open spec fn roots_marked(roots: Seq<usize>, s: Seq<HeapObject>) -> bool {
    forall|j: int| #![trigger roots[j]] 0 <= j < roots.len() && roots[j] < s.len() && s[roots[j] as int].alive
        ==> s[roots[j] as int].header.color != GcColor::White
}

/// No live black object refers to a live white one.
pub open spec fn black_closed(s: Seq<HeapObject>) -> bool {
    forall|a: int, b: usize| #![trigger s[a].references@.contains(b)]
        0 <= a < s.len() && s[a].alive && s[a].header.color == GcColor::Black && s[a].references@.contains(b) && b < s.len()
            && s[b as int].alive ==> s[b as int].header.color != GcColor::White
}

/// No live black object but `x` refers to a live white one.
pub open spec fn black_closed_except(s: Seq<HeapObject>, x: usize) -> bool {
    forall|a: int, b: usize| #![trigger s[a].references@.contains(b)]
        0 <= a < s.len() && a != x && s[a].alive && s[a].header.color == GcColor::Black && s[a].references@.contains(b)
            && b < s.len() && s[b as int].alive ==> s[b as int].header.color != GcColor::White
}

proof fn lemma_path_extend(s: Seq<HeapObject>, roots: Seq<usize>, a: usize, b: usize)
    requires
        reachable(s, roots, a),
        points_to(s, a, b),
    ensures
        reachable(s, roots, b),
{
    let p = choose|p: Seq<usize>| #[trigger] is_path(s, roots, p) && p.last() == a;
    let q = p.push(b);
    assert forall|k: int| 1 <= k < q.len() implies points_to(s, q[k - 1], #[trigger] q[k]) by {
        if k < p.len() {
            assert(q[k - 1] == p[k - 1] && q[k] == p[k]);
        } else {
            assert(q[k - 1] == a && q[k] == b);
        }
    }
    assert(is_path(s, roots, q));
}

/// Once no object is gray, the black objects are exactly the reachable ones.
proof fn lemma_marked_complete(s0: Seq<HeapObject>, roots: Seq<usize>, s: Seq<HeapObject>)
    requires
        s.len() <= usize::MAX,
        same_shape(s0, s),
        mark_state(s0, roots, s, Seq::<usize>::empty()),
        roots_marked(roots, s),
        black_closed(s),
    ensures
        forall|i: int|
            0 <= i < s.len() && #[trigger] s[i].alive ==> {
                &&& (s[i].header.color == GcColor::Black) == reachable(s0, roots, i as usize)
                &&& s[i].header.color != GcColor::Gray
            },
{
    assert forall|i: int| 0 <= i < s.len() && #[trigger] s[i].alive implies s[i].header.color != GcColor::Gray by {
        if s[i].header.color == GcColor::Gray {
            assert(Seq::<usize>::empty().contains(i as usize));
        }
    }
    assert forall|i: int| 0 <= i < s.len() && #[trigger] s[i].alive && reachable(s0, roots, i as usize) implies s[i].header.color
        == GcColor::Black by {
        let p = choose|p: Seq<usize>| #[trigger] is_path(s0, roots, p) && p.last() == i as usize;
        lemma_path_black(s0, roots, s, p, (p.len() - 1) as nat);
    }
}

proof fn lemma_path_black(s0: Seq<HeapObject>, roots: Seq<usize>, s: Seq<HeapObject>, p: Seq<usize>, k: nat)
    requires
        same_shape(s0, s),
        is_path(s0, roots, p),
        k < p.len(),
        forall|i: int| 0 <= i < s.len() && #[trigger] s[i].alive ==> s[i].header.color != GcColor::Gray,
        roots_marked(roots, s),
        black_closed(s),
    ensures
        p[k as int] < s.len(),
        s[p[k as int] as int].alive,
        s[p[k as int] as int].header.color == GcColor::Black,
    decreases k,
{
    if k == 0 {
        let j = choose|j: int| 0 <= j < roots.len() && roots[j] == p[0];
        assert(roots[j] == p[0]);
        assert(s[roots[j] as int].alive);
        assert(s[roots[j] as int].header.color != GcColor::White);
        assert(s[p[0] as int] == HeapObject {
            header: GcHeader { color: s[p[0] as int].header.color, marked: s[p[0] as int].header.marked, ..s0[p[0] as int].header },
            ..s0[p[0] as int]
        });
    } else {
        lemma_path_black(s0, roots, s, p, (k - 1) as nat);
        let a = p[k - 1];
        let b = p[k as int];
        assert(points_to(s0, a, b));
        assert(s[a as int] == HeapObject {
            header: GcHeader { color: s[a as int].header.color, marked: s[a as int].header.marked, ..s0[a as int].header },
            ..s0[a as int]
        });
        assert(s[b as int] == HeapObject {
            header: GcHeader { color: s[b as int].header.color, marked: s[b as int].header.marked, ..s0[b as int].header },
            ..s0[b as int]
        });
        assert(s[a as int].references@.contains(b));
        assert(s[a as int].alive && s[a as int].header.color == GcColor::Black);
        assert(b < s.len() && s[b as int].alive);
        assert(s[b as int].header.color != GcColor::White);
        assert(s[b as int].header.color != GcColor::Gray);
    }
}

} // verus!
