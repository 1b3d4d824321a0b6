//! The heap: the owner of one space and of all root tables, the rooting API
//! (scopes and local, global and heap handles), value equality, and the
//! copying collector with its full functional specification.

use vstd::prelude::*;

use core::marker::PhantomData;

use crate::object::{
    host_ok, value_ok, view_children, HeapHandle, HostObject, HostValue, HostView,
    TraceableObject, HOST_PAYLOAD_SIZE,
};
use crate::object::{
    lemma_count_forwarded_bounds, lemma_sum_in_same_footprints, same_but_fwd, traced_to, vis_inv,
    visitor_extends, List, ObjectVisitor, ValueMap,
};
use crate::pointer::{
    encode_bool, encode_num, encode_object_index, is_bool_bits, is_null_bits, is_num_bits,
    is_ptr_bits, ptr_index_bits, ObjectHeader, ObjectType, TaggedPtr, HEADER_SIZE, NULL_BITS,
    PTR_MASK,
};
use crate::space::{
    lemma_total_alloc_lower, lemma_total_alloc_push, lemma_total_alloc_same_footprints,
    total_alloc, Space, MAX_SPACE_BYTES,
};
use crate::types::GCError;

verus! {

/// The byte footprint of one host object in a space: its header plus its
/// one-word payload.
pub const HOST_ALLOC_SIZE: usize = HEADER_SIZE + HOST_PAYLOAD_SIZE;

/// Phantom marker for handles that carry a boxed double.
pub struct Num;

/// The heap: one active space, the scope stack of local roots, the global
/// root table, and the owner table holding every boxed native.
#[derive(Debug)]
pub struct Heap {
    pub space: Space,
    /// All local roots, flattened: the slots of every open scope, innermost
    /// scope last.
    pub scope_slots: Vec<HeapHandle<()>>,
    /// Where each open scope's slots begin inside `scope_slots`.
    pub scope_starts: Vec<usize>,
    /// Long-lived roots; a slot is freed by clearing it to `None`, never by
    /// compaction, so indices stay stable.
    pub globals: Vec<Option<HeapHandle<()>>>,
    /// The owner table: the only owning reference to each live object's boxed
    /// native, one entry per object in the space, in the same order.
    pub hosts: Vec<HostValue>,
    /// How many natives have been finalized so far, over the heap's lifetime.
    pub finalized: usize,
}

/// The two heaps have the same roots: scope slots, scope frames and globals.
pub open spec fn same_roots(h0: Heap, h1: Heap) -> bool {
    &&& h1.scope_slots@ == h0.scope_slots@
    &&& h1.scope_starts@ == h0.scope_starts@
    &&& h1.globals@ == h0.globals@
}

/// The two heaps have the same store: space contents, occupancy, natives and
/// finalization count.
pub open spec fn same_store(h0: Heap, h1: Heap) -> bool {
    &&& h1.space.objects@ == h0.space.objects@
    &&& h1.space.next == h0.space.next
    &&& h1.space.size_in_bytes == h0.space.size_in_bytes
    &&& h1.hosts@ == h0.hosts@
    &&& h1.finalized == h0.finalized
}

impl Heap {
    /// How many objects the active space holds.
    pub open spec fn n_objects(self) -> int {
        self.space.objects@.len() as int
    }

    /// The abstract contents of the native owned by object `i`.
    pub open spec fn host_view(self, i: int) -> HostView {
        self.hosts@[i]@
    }

    /// Well-formedness: occupancy equals the objects' footprints, every
    /// object is a host object whose payload cell names its own slot in the
    /// owner table, no forwarding pointer survives outside a collection, and
    /// every root and every handle inside a native points into the space.
    pub open spec fn wf(self) -> bool {
        let n = self.n_objects();
        &&& self.space.inv()
        &&& self.space.next == total_alloc(self.space.objects@)
        &&& self.hosts@.len() == n
        &&& forall|i: int|
            0 <= i < n ==> {
                let o = #[trigger] self.space.objects@[i];
                &&& o.header.object_type == ObjectType::Host
                &&& o.header.object_size == HOST_PAYLOAD_SIZE
                &&& o.header.new_header_ptr is None
                &&& o.payload == (TraceableObject { host_index: i as usize })
            }
        &&& forall|k: int|
            0 <= k < self.scope_slots@.len() ==> value_ok(
                (#[trigger] self.scope_slots@[k]).ptr,
                n,
            )
        &&& forall|g: int|
            0 <= g < self.globals@.len() ==> match #[trigger] self.globals@[g] {
                Some(h) => value_ok(h.ptr, n),
                None => true,
            }
        &&& forall|i: int| 0 <= i < n ==> host_ok(#[trigger] self.hosts@[i]@, n)
        &&& forall|f: int|
            0 <= f < self.scope_starts@.len() ==> #[trigger] self.scope_starts@[f]
                <= self.scope_slots@.len()
        &&& forall|f1: int, f2: int|
            0 <= f1 <= f2 < self.scope_starts@.len() ==> #[trigger] self.scope_starts@[f1]
                <= #[trigger] self.scope_starts@[f2]
    }

    /// Create a heap whose single space takes half the requested bytes, the
    /// other half staying available for the destination space of a
    /// collection.
    pub fn new(size_in_bytes: usize) -> (r: Result<Heap, GCError>)
        ensures
            (size_in_bytes / 2 <= MAX_SPACE_BYTES) <==> r is Ok,
            match r {
                Ok(h) => {
                    &&& h.wf()
                    &&& h.space.size_in_bytes == size_in_bytes / 2
                    &&& h.space.next == 0
                    &&& h.n_objects() == 0
                    &&& h.scope_slots@.len() == 0
                    &&& h.scope_starts@.len() == 0
                    &&& h.globals@.len() == 0
                    &&& h.finalized == 0
                },
                Err(e) => e == GCError::OSOutOfMemory,
            },
    {
        let half_size = size_in_bytes / 2;
        let space = match Space::new(half_size) {
            Ok(s) => s,
            Err(e) => {
                return Err(e);
            },
        };
        Ok(
            Heap {
                space,
                scope_slots: Vec::new(),
                scope_starts: Vec::new(),
                globals: Vec::new(),
                hosts: Vec::new(),
                finalized: 0,
            },
        )
    }

    /// The bytes currently occupied by objects in the active space.
    pub fn used(&self) -> (r: usize)
        ensures
            r == self.space.next,
    {
        self.space.used_bytes()
    }

    /// How many natives have been finalized by collections so far.
    pub fn finalized_count(&self) -> (r: usize)
        ensures
            r == self.finalized,
    {
        self.finalized
    }

    /// Reserve one host object: write its header, point its payload cell at
    /// a fresh slot of the owner table, and move the boxed native there. The
    /// caller decides how to root the returned pointer. On `NoSpace` the heap
    /// is unchanged; the heap never collects on its own here.
    fn emplace(&mut self, value: HostValue) -> (r: Result<crate::pointer::ObjectPtr, GCError>)
        requires
            old(self).wf(),
            host_ok(value@, old(self).n_objects()),
        ensures
            final(self).wf(),
            same_roots(*old(self), *final(self)),
            final(self).finalized == old(self).finalized,
            final(self).space.size_in_bytes == old(self).space.size_in_bytes,
            (old(self).space.next + HOST_ALLOC_SIZE <= old(self).space.size_in_bytes) <==> r is Ok,
            match r {
                Ok(p) => {
                    &&& p.index == old(self).n_objects()
                    &&& final(self).n_objects() == old(self).n_objects() + 1
                    &&& final(self).hosts@ == old(self).hosts@.push(value)
                    &&& final(self).space.next == old(self).space.next + HOST_ALLOC_SIZE
                    &&& forall|i: int|
                        0 <= i < old(self).n_objects() ==> #[trigger] final(self).space.objects@[i]
                            == old(self).space.objects@[i]
                },
                Err(e) => {
                    &&& e == GCError::NoSpace
                    &&& same_store(*old(self), *final(self))
                },
            },
    {
        let host_index = self.hosts.len();
        let hp = match ObjectHeader::new(&mut self.space, HOST_PAYLOAD_SIZE, ObjectType::Host) {
            Ok(h) => h,
            Err(e) => {
                return Err(e);
            },
        };
        let object_ptr = hp.to_object_ptr();
        let cell = TraceableObject { host_index };
        cell.store(&mut self.space, object_ptr);
        self.hosts.push(value);
        proof {
            let objs0 = old(self).space.objects@;
            let pushed = self.space.objects@;
            lemma_total_alloc_push(
                objs0,
                objs0.push(pushed[objs0.len() as int]).last(),
            );
            lemma_total_alloc_same_footprints(
                objs0.push(pushed[objs0.len() as int]),
                pushed,
            );
        }
        Ok(object_ptr)
    }

    /// Every object index fits comfortably inside a tagged pointer's payload.
    proof fn lemma_len_bound(self)
        requires
            self.wf(),
        ensures
            self.n_objects() <= MAX_SPACE_BYTES,
            self.n_objects() <= PTR_MASK,
    {
        lemma_total_alloc_lower(self.space.objects@);
    }
}

// ---------------------------------------------------------------------------
// Handle scopes and local handles.
// ---------------------------------------------------------------------------

/// A stack frame of local roots. Scopes nest strictly: creating one pushes a
/// frame on the heap's scope stack and closing it pops that frame, ending the
/// life of every local handle created in it.
pub struct HandleScope {
    pub index: usize,
}

impl HandleScope {
    /// This scope refers to a live frame.
    pub open spec fn valid(self, h: Heap) -> bool {
        self.index < h.scope_starts@.len()
    }

    /// This scope is the innermost open one; only it may hand out new local
    /// handles.
    pub open spec fn is_top(self, h: Heap) -> bool {
        self.index + 1 == h.scope_starts@.len()
    }

    /// Open a fresh scope on top of the heap's scope stack.
    pub fn new(heap: &mut Heap) -> (s: HandleScope)
        requires
            old(heap).wf(),
        ensures
            final(heap).wf(),
            s.index == old(heap).scope_starts@.len(),
            s.is_top(*final(heap)),
            final(heap).scope_starts@ == old(heap).scope_starts@.push(
                old(heap).scope_slots@.len() as usize,
            ),
            final(heap).scope_slots@ == old(heap).scope_slots@,
            final(heap).globals@ == old(heap).globals@,
            same_store(*old(heap), *final(heap)),
    {
        let index = heap.scope_starts.len();
        let start = heap.scope_slots.len();
        heap.scope_starts.push(start);
        HandleScope { index }
    }

    /// Close this scope: pop its frame and drop every local root it issued.
    /// Scopes close strictly innermost-first.
    pub fn close(self, heap: &mut Heap)
        requires
            old(heap).wf(),
            self.is_top(*old(heap)),
        ensures
            final(heap).wf(),
            final(heap).scope_starts@ == old(heap).scope_starts@.drop_last(),
            final(heap).scope_slots@ == old(heap).scope_slots@.subrange(
                0,
                old(heap).scope_starts@.last() as int,
            ),
            final(heap).globals@ == old(heap).globals@,
            same_store(*old(heap), *final(heap)),
    {
        let start = heap.scope_starts[self.index];
        heap.scope_starts.pop();
        let ghost slots0 = heap.scope_slots@;
        heap.scope_slots.truncate(start);
        proof {
            assert(heap.scope_slots@ =~= slots0.subrange(0, start as int));
        }
    }

    /// Root one tagged value in this scope, returning its slot.
    fn add(&self, heap: &mut Heap, ptr: TaggedPtr) -> (slot: usize)
        requires
            old(heap).wf(),
            self.is_top(*old(heap)),
            value_ok(ptr, old(heap).n_objects()),
        ensures
            final(heap).wf(),
            self.is_top(*final(heap)),
            slot == old(heap).scope_slots@.len(),
            final(heap).scope_slots@.len() == old(heap).scope_slots@.len() + 1,
            final(heap).scope_slots@[slot as int].ptr == ptr,
            forall|k: int|
                0 <= k < old(heap).scope_slots@.len() ==> #[trigger] final(heap).scope_slots@[k]
                    == old(heap).scope_slots@[k],
            final(heap).scope_starts@ == old(heap).scope_starts@,
            final(heap).globals@ == old(heap).globals@,
            same_store(*old(heap), *final(heap)),
    {
        let slot = heap.scope_slots.len();
        heap.scope_slots.push(HeapHandle { ptr, phantom: PhantomData });
        slot
    }

    /// Root a boxed double, given as its IEEE bit pattern.
    pub fn create_num(&self, heap: &mut Heap, bits: u64) -> (r: LocalHandle<Num>)
        requires
            old(heap).wf(),
            self.is_top(*old(heap)),
            is_num_bits(bits),
        ensures
            final(heap).wf(),
            self.is_top(*final(heap)),
            r.valid(*final(heap)),
            r.ptr_spec(*final(heap)) == encode_num(bits),
            scope_push(*old(heap), *final(heap), encode_num(bits)),
    {
        proof {
            crate::pointer::lemma_singletons_disjoint_from_doubles(bits);
        }
        LocalHandle { slot: self.add(heap, TaggedPtr::from_num_bits(bits)), phantom: PhantomData }
    }

    /// Root a boolean singleton.
    pub fn create_bool(&self, heap: &mut Heap, value: bool) -> (r: LocalHandle<bool>)
        requires
            old(heap).wf(),
            self.is_top(*old(heap)),
        ensures
            final(heap).wf(),
            self.is_top(*final(heap)),
            r.valid(*final(heap)),
            r.ptr_spec(*final(heap)) == encode_bool(value),
            scope_push(*old(heap), *final(heap), encode_bool(value)),
    {
        proof {
            crate::pointer::lemma_singleton_encodings();
        }
        LocalHandle { slot: self.add(heap, TaggedPtr::from_bool(value)), phantom: PhantomData }
    }

    /// Root the null singleton.
    pub fn create_null(&self, heap: &mut Heap) -> (r: LocalHandle<()>)
        requires
            old(heap).wf(),
            self.is_top(*old(heap)),
        ensures
            final(heap).wf(),
            self.is_top(*final(heap)),
            r.valid(*final(heap)),
            r.ptr_spec(*final(heap)).bits == NULL_BITS,
            scope_push(*old(heap), *final(heap), (TaggedPtr { bits: NULL_BITS })),
    {
        proof {
            crate::pointer::lemma_singleton_encodings();
        }
        LocalHandle { slot: self.add(heap, TaggedPtr::null()), phantom: PhantomData }
    }

    /// Allocate a default-constructed native of kind `T` on the heap and root
    /// it here. Fails with `NoSpace`, leaving the heap unchanged, exactly
    /// when the object does not fit; the heap never collects on its own.
    pub fn create<T: HostObject>(&self, heap: &mut Heap) -> (r: Result<LocalHandle<T>, GCError>)
        requires
            old(heap).wf(),
            self.is_top(*old(heap)),
        ensures
            final(heap).wf(),
            self.is_top(*final(heap)),
            (old(heap).space.next + HOST_ALLOC_SIZE <= old(heap).space.size_in_bytes) <==> r is Ok,
            match r {
                Ok(h) => alloc_post::<T>(
                    *old(heap),
                    *final(heap),
                    h,
                    T::default_view(),
                ),
                Err(e) => {
                    &&& e == GCError::NoSpace
                    &&& same_store(*old(heap), *final(heap))
                    &&& same_roots(*old(heap), *final(heap))
                },
            },
    {
        proof {
            T::lemma_default_no_children();
        }
        self.take(heap, T::default_host())
    }

    /// Move a native onto the heap and root it here. Fails with `NoSpace`,
    /// leaving the heap unchanged, exactly when the object does not fit.
    pub fn take<T: HostObject>(&self, heap: &mut Heap, object: T) -> (r: Result<
        LocalHandle<T>,
        GCError,
    >)
        requires
            old(heap).wf(),
            self.is_top(*old(heap)),
            host_ok(object.value_view(), old(heap).n_objects()),
        ensures
            final(heap).wf(),
            self.is_top(*final(heap)),
            (old(heap).space.next + HOST_ALLOC_SIZE <= old(heap).space.size_in_bytes) <==> r is Ok,
            match r {
                Ok(h) => alloc_post::<T>(
                    *old(heap),
                    *final(heap),
                    h,
                    object.value_view(),
                ),
                Err(e) => {
                    &&& e == GCError::NoSpace
                    &&& same_store(*old(heap), *final(heap))
                    &&& same_roots(*old(heap), *final(heap))
                },
            },
    {
        let value = object.into_value();
        let object_ptr = match heap.emplace(value) {
            Ok(p) => p,
            Err(e) => {
                return Err(e);
            },
        };
        proof {
            heap.lemma_len_bound();
        }
        let tagged = TaggedPtr::from_object(object_ptr);
        let slot = self.add(heap, tagged);
        Ok(LocalHandle { slot, phantom: PhantomData })
    }

    /// Root a freshly taken copy of the given string.
    pub fn str(&self, heap: &mut Heap, object: &str) -> (r: Result<LocalHandle<String>, GCError>)
        requires
            old(heap).wf(),
            self.is_top(*old(heap)),
        ensures
            final(heap).wf(),
            self.is_top(*final(heap)),
            (old(heap).space.next + HOST_ALLOC_SIZE <= old(heap).space.size_in_bytes) <==> r is Ok,
            match r {
                Ok(h) => alloc_post::<String>(
                    *old(heap),
                    *final(heap),
                    h,
                    HostView::StrV(object@),
                ),
                Err(e) => {
                    &&& e == GCError::NoSpace
                    &&& same_store(*old(heap), *final(heap))
                    &&& same_roots(*old(heap), *final(heap))
                },
            },
    {
        self.take(heap, object.to_owned())
    }

    /// Root the current value of a global handle in this scope.
    pub fn from_global<T>(&self, heap: &mut Heap, handle: &GlobalHandle<T>) -> (r: LocalHandle<T>)
        requires
            old(heap).wf(),
            self.is_top(*old(heap)),
            handle.valid(*old(heap)),
        ensures
            final(heap).wf(),
            self.is_top(*final(heap)),
            r.valid(*final(heap)),
            r.ptr_spec(*final(heap)) == handle.ptr_spec(*old(heap)),
            scope_push(*old(heap), *final(heap), handle.ptr_spec(*old(heap))),
    {
        let ptr = handle.ptr(heap);
        LocalHandle { slot: self.add(heap, ptr), phantom: PhantomData }
    }

    /// Root the current value of a heap handle in this scope.
    pub fn from_heap<T>(&self, heap: &mut Heap, handle: &HeapHandle<T>) -> (r: LocalHandle<T>)
        requires
            old(heap).wf(),
            self.is_top(*old(heap)),
            value_ok(handle.ptr, old(heap).n_objects()),
        ensures
            final(heap).wf(),
            self.is_top(*final(heap)),
            r.valid(*final(heap)),
            r.ptr_spec(*final(heap)) == handle.ptr,
            scope_push(*old(heap), *final(heap), handle.ptr),
    {
        let ptr = handle.ptr();
        LocalHandle { slot: self.add(heap, ptr), phantom: PhantomData }
    }

    /// Root the current value of an optional heap handle, if there is one.
    pub fn from_maybe_heap<T>(&self, heap: &mut Heap, maybe_handle: &Option<HeapHandle<T>>) -> (r:
        Option<LocalHandle<T>>)
        requires
            old(heap).wf(),
            self.is_top(*old(heap)),
            match *maybe_handle {
                Some(h) => value_ok(h.ptr, old(heap).n_objects()),
                None => true,
            },
        ensures
            final(heap).wf(),
            self.is_top(*final(heap)),
            match *maybe_handle {
                Some(h) => {
                    &&& r is Some
                    &&& r->Some_0.valid(*final(heap))
                    &&& r->Some_0.ptr_spec(*final(heap)) == h.ptr
                    &&& scope_push(*old(heap), *final(heap), h.ptr)
                },
                None => r is None && same_roots(*old(heap), *final(heap)) && same_store(
                    *old(heap),
                    *final(heap),
                ),
            },
    {
        match maybe_handle {
            Some(h) => Some(self.from_heap(heap, h)),
            None => None,
        }
    }
}

/// Exactly one local root was pushed, holding `ptr`; nothing else changed.
pub open spec fn scope_push(h0: Heap, h1: Heap, ptr: TaggedPtr) -> bool {
    &&& h1.scope_slots@.len() == h0.scope_slots@.len() + 1
    &&& h1.scope_slots@.last().ptr == ptr
    &&& forall|k: int|
        0 <= k < h0.scope_slots@.len() ==> #[trigger] h1.scope_slots@[k] == h0.scope_slots@[k]
    &&& h1.scope_starts@ == h0.scope_starts@
    &&& h1.globals@ == h0.globals@
    &&& same_store(h0, h1)
}

/// One object of kind `T` with contents `view` was allocated and rooted in
/// the top scope: the object table, owner table and scope slots each grew by
/// one entry, tied together, and nothing else changed.
pub open spec fn alloc_post<T: HostObject>(
    h0: Heap,
    h1: Heap,
    h: LocalHandle<T>,
    view: HostView,
) -> bool {
    let p = h0.n_objects();
    &&& h1.n_objects() == p + 1
    &&& h1.hosts@.len() == p + 1
    &&& h1.host_view(p) == view
    &&& forall|i: int| 0 <= i < p ==> #[trigger] h1.hosts@[i] == h0.hosts@[i]
    &&& forall|i: int| 0 <= i < p ==> #[trigger] h1.space.objects@[i] == h0.space.objects@[i]
    &&& h1.space.next == h0.space.next + HOST_ALLOC_SIZE
    &&& h1.space.size_in_bytes == h0.space.size_in_bytes
    &&& h1.finalized == h0.finalized
    &&& h.valid(h1)
    &&& h.slot == h0.scope_slots@.len()
    &&& h.ptr_spec(h1) == encode_object_index(p as u64)
    &&& is_ptr_bits(h.ptr_spec(h1).bits)
    &&& ptr_index_bits(h.ptr_spec(h1).bits) == p
    &&& h1.scope_slots@.len() == h0.scope_slots@.len() + 1
    &&& forall|k: int|
        0 <= k < h0.scope_slots@.len() ==> #[trigger] h1.scope_slots@[k] == h0.scope_slots@[k]
    &&& h1.scope_starts@ == h0.scope_starts@
    &&& h1.globals@ == h0.globals@
}

/// A typed reference to a slot in a scope frame; valid only while that scope
/// is live. Reading it later is ruled out by the contracts, which demand the
/// slot still be inside the scope stack.
#[derive(Debug)]
pub struct LocalHandle<T> {
    pub slot: usize,
    pub phantom: PhantomData<T>,
}

impl<T> Clone for LocalHandle<T> {
    fn clone(&self) -> (r: Self)
        ensures
            r.slot == self.slot,
    {
        LocalHandle { slot: self.slot, phantom: PhantomData }
    }
}

impl<T> LocalHandle<T> {
    /// This handle's slot is still inside the scope stack.
    pub open spec fn valid(self, h: Heap) -> bool {
        self.slot < h.scope_slots@.len()
    }

    /// The tagged value this handle currently roots.
    pub open spec fn ptr_spec(self, h: Heap) -> TaggedPtr {
        h.scope_slots@[self.slot as int].ptr
    }

    /// Read the tagged value this handle roots.
    pub fn ptr(&self, heap: &Heap) -> (r: TaggedPtr)
        requires
            self.valid(*heap),
        ensures
            r == self.ptr_spec(*heap),
    {
        heap.scope_slots[self.slot].ptr
    }

    /// Forget the phantom type.
    pub fn erase_type(&self) -> (r: LocalHandle<()>)
        ensures
            r.slot == self.slot,
    {
        LocalHandle { slot: self.slot, phantom: PhantomData }
    }

    /// Copy this handle's current value into a fresh global root slot.
    pub fn to_global(&self, heap: &mut Heap) -> (r: GlobalHandle<T>)
        requires
            old(heap).wf(),
            self.valid(*old(heap)),
        ensures
            final(heap).wf(),
            r.valid(*final(heap)),
            r.index == old(heap).globals@.len(),
            r.ptr_spec(*final(heap)) == self.ptr_spec(*old(heap)),
            final(heap).globals@.len() == old(heap).globals@.len() + 1,
            forall|g: int|
                0 <= g < old(heap).globals@.len() ==> #[trigger] final(heap).globals@[g]
                    == old(heap).globals@[g],
            final(heap).scope_slots@ == old(heap).scope_slots@,
            final(heap).scope_starts@ == old(heap).scope_starts@,
            same_store(*old(heap), *final(heap)),
    {
        let ptr = self.ptr(heap);
        let index = heap.globals.len();
        heap.globals.push(Some(HeapHandle { ptr, phantom: PhantomData }));
        GlobalHandle { index, phantom: PhantomData }
    }
}

impl LocalHandle<()> {
    pub fn is_null(&self, heap: &Heap) -> (r: bool)
        requires
            self.valid(*heap),
        ensures
            r == is_null_bits(self.ptr_spec(*heap).bits),
    {
        self.ptr(heap).is_null()
    }

    pub fn is_bool(&self, heap: &Heap) -> (r: bool)
        requires
            self.valid(*heap),
        ensures
            r == is_bool_bits(self.ptr_spec(*heap).bits),
    {
        self.ptr(heap).is_bool()
    }

    pub fn is_num(&self, heap: &Heap) -> (r: bool)
        requires
            self.valid(*heap),
        ensures
            r == is_num_bits(self.ptr_spec(*heap).bits),
    {
        self.ptr(heap).is_num()
    }
}

// ---------------------------------------------------------------------------
// Global handles.
// ---------------------------------------------------------------------------

/// A long-lived root outside any scope. Its slot in the globals table keeps
/// its index for the handle's whole life; releasing the handle clears the
/// slot rather than compacting the table.
#[derive(Debug)]
pub struct GlobalHandle<T> {
    pub index: usize,
    pub phantom: PhantomData<T>,
}

impl<T> GlobalHandle<T> {
    /// This handle's slot is live.
    pub open spec fn valid(self, h: Heap) -> bool {
        &&& self.index < h.globals@.len()
        &&& h.globals@[self.index as int] is Some
    }

    /// The tagged value this handle currently roots.
    pub open spec fn ptr_spec(self, h: Heap) -> TaggedPtr {
        h.globals@[self.index as int]->Some_0.ptr
    }

    /// Read the tagged value this handle roots.
    pub fn ptr(&self, heap: &Heap) -> (r: TaggedPtr)
        requires
            self.valid(*heap),
        ensures
            r == self.ptr_spec(*heap),
    {
        match &heap.globals[self.index] {
            Some(h) => h.ptr(),
            None => vstd::pervasive::unreached(),
        }
    }

    /// Forget the phantom type.
    pub fn erase_type(self) -> (r: GlobalHandle<()>)
        ensures
            r.index == self.index,
    {
        GlobalHandle { index: self.index, phantom: PhantomData }
    }

    /// Copy this handle's current value into a fresh heap handle.
    pub fn to_heap_handle(&self, heap: &Heap) -> (r: HeapHandle<T>)
        requires
            self.valid(*heap),
        ensures
            r.ptr == self.ptr_spec(*heap),
    {
        HeapHandle { ptr: self.ptr(heap), phantom: PhantomData }
    }
}

// ---------------------------------------------------------------------------
// Reading and narrowing stored values.
// ---------------------------------------------------------------------------

/// The object index a pointer-tagged value refers to.
pub open spec fn obj_index(t: TaggedPtr) -> int {
    ptr_index_bits(t.bits) as int
}

/// The entries of boxed map contents; empty for other kinds.
pub open spec fn map_entries(v: HostView) -> Seq<(TaggedPtr, TaggedPtr)> {
    match v {
        HostView::MapVw(ps) => ps,
        _ => Seq::empty(),
    }
}

/// Value equality between two object targets: strings compare by contents
/// against other strings; everything else compares by identity, that is by
/// object index.
pub open spec fn object_eq_spec(h: Heap, i: int, j: int) -> bool {
    match h.host_view(i) {
        HostView::StrV(s1) => match h.host_view(j) {
            HostView::StrV(s2) => s1 == s2,
            _ => false,
        },
        _ => i == j,
    }
}

/// The runtime's value equality: values of different kinds differ, boxed
/// non-pointers compare by their bit pattern, and object pointers delegate to
/// the targets' own equality.
pub open spec fn value_eq_spec(h: Heap, a: TaggedPtr, b: TaggedPtr) -> bool {
    if is_ptr_bits(a.bits) != is_ptr_bits(b.bits) {
        false
    } else if is_ptr_bits(a.bits) {
        object_eq_spec(h, obj_index(a), obj_index(b))
    } else {
        a.bits == b.bits
    }
}

impl Heap {
    /// Compare two stored values: bitwise for immediates, by the targets'
    /// own equality for object pointers, so two distinct string objects with
    /// the same characters are equal.
    pub fn value_eq(&self, a: TaggedPtr, b: TaggedPtr) -> (r: bool)
        requires
            self.wf(),
            value_ok(a, self.n_objects()),
            value_ok(b, self.n_objects()),
        ensures
            r == value_eq_spec(*self, a, b),
    {
        let a_is_ptr = a.is_ptr();
        let b_is_ptr = b.is_ptr();
        if a_is_ptr != b_is_ptr {
            false
        } else if !a_is_ptr {
            a.bits == b.bits
        } else {
            let n_exec = self.space.objects.len();
            let pa = a.to_object().unwrap();
            let pb = b.to_object().unwrap();
            proof {
                assert(pa.index as int == obj_index(a));
                assert(pb.index as int == obj_index(b));
            }
            let ca = TraceableObject::load(&self.space, pa);
            let cb = TraceableObject::load(&self.space, pb);
            match (&self.hosts[ca.host_index], &self.hosts[cb.host_index]) {
                (HostValue::Str(s1), HostValue::Str(s2)) => s1.eq(s2),
                (HostValue::Str(_), _) => false,
                _ => pa.index == pb.index,
            }
        }
    }

    /// Borrow the native of kind `T` that a pointer-tagged value refers to.
    pub fn deref<'a, T: HostObject>(&'a self, t: TaggedPtr) -> (r: &'a T)
        requires
            self.wf(),
            value_ok(t, self.n_objects()),
            is_ptr_bits(t.bits),
            T::is_kind(self.host_view(obj_index(t))),
        ensures
            r.value_view() == self.host_view(obj_index(t)),
    {
        let n_exec = self.space.objects.len();
        let p = t.to_object().unwrap();
        proof {
            assert(p.index as int == obj_index(t));
        }
        let cell = TraceableObject::load(&self.space, p);
        T::ref_of(&self.hosts[cell.host_index]).unwrap()
    }
}

impl LocalHandle<()> {
    /// Narrow to a reference of kind `S`: checks that the rooted value is an
    /// object pointer and that the target is of that kind; any failure
    /// yields `None`.
    pub fn try_as_ref<'a, S: HostObject>(&self, heap: &'a Heap) -> (r: Option<&'a S>)
        requires
            heap.wf(),
            self.valid(*heap),
        ensures
            ({
                let t = self.ptr_spec(*heap);
                &&& r is Some <==> (is_ptr_bits(t.bits) && S::is_kind(heap.host_view(obj_index(t))))
                &&& match r {
                    Some(x) => x.value_view() == heap.host_view(obj_index(t)),
                    None => true,
                }
            }),
    {
        let t = self.ptr(heap);
        if t.is_ptr() {
            let n_exec = heap.space.objects.len();
            let p = t.to_object().unwrap();
            proof {
                assert(p.index as int == obj_index(t));
            }
            let cell = TraceableObject::load(&heap.space, p);
            S::ref_of(&heap.hosts[cell.host_index])
        } else {
            None
        }
    }

    /// Whether the rooted value is an object of kind `S`.
    pub fn is_of_type<S: HostObject>(&self, heap: &Heap) -> (r: bool)
        requires
            heap.wf(),
            self.valid(*heap),
        ensures
            r == (is_ptr_bits(self.ptr_spec(*heap).bits) && S::is_kind(
                heap.host_view(obj_index(self.ptr_spec(*heap))),
            )),
    {
        let found: Option<&S> = self.try_as_ref(heap);
        found.is_some()
    }
}

impl<T: HostObject> LocalHandle<T> {
    /// Borrow the native this handle roots. The caller has already
    /// established that the rooted value is an object of kind `T`.
    pub fn borrow<'a>(&self, heap: &'a Heap) -> (r: &'a T)
        requires
            heap.wf(),
            self.valid(*heap),
            is_ptr_bits(self.ptr_spec(*heap).bits),
            T::is_kind(heap.host_view(obj_index(self.ptr_spec(*heap)))),
        ensures
            r.value_view() == heap.host_view(obj_index(self.ptr_spec(*heap))),
    {
        let t = self.ptr(heap);
        heap.deref(t)
    }

    /// Borrow the native this handle roots (the older name of `borrow`).
    pub fn as_ref<'a>(&self, heap: &'a Heap) -> (r: &'a T)
        requires
            heap.wf(),
            self.valid(*heap),
            is_ptr_bits(self.ptr_spec(*heap).bits),
            T::is_kind(heap.host_view(obj_index(self.ptr_spec(*heap)))),
        ensures
            r.value_view() == heap.host_view(obj_index(self.ptr_spec(*heap))),
    {
        self.borrow(heap)
    }

    /// Copy this handle's current value into a fresh heap handle, for storing
    /// inside a host object.
    pub fn to_heap_handle(&self, heap: &Heap) -> (r: HeapHandle<T>)
        requires
            self.valid(*heap),
        ensures
            r.ptr == self.ptr_spec(*heap),
    {
        HeapHandle::new(self.ptr(heap))
    }
}

impl HandleScope {
    /// Borrow the native of kind `T` that a global handle roots.
    pub fn as_ref<'a, T: HostObject>(&self, heap: &'a Heap, handle: &GlobalHandle<T>) -> (r: &'a T)
        requires
            heap.wf(),
            handle.valid(*heap),
            is_ptr_bits(handle.ptr_spec(*heap).bits),
            T::is_kind(heap.host_view(obj_index(handle.ptr_spec(*heap)))),
        ensures
            r.value_view() == heap.host_view(obj_index(handle.ptr_spec(*heap))),
    {
        let t = handle.ptr(heap);
        heap.deref(t)
    }
}

// ---------------------------------------------------------------------------
// Downcasting between the untyped and the typed handle forms.
// ---------------------------------------------------------------------------

/// A fallible narrowing from an untyped handle to a typed one. The checks
/// are: is the stored value of the expected kind, and, for object targets,
/// is the target native of the expected kind. Any failure yields `None`.
pub trait DowncastTo<T>: Sized {
    /// What the narrowing asks of the heap and the handle.
    spec fn downcast_pre(self, h: Heap) -> bool;

    /// When the narrowing succeeds.
    spec fn downcast_ok(self, h: Heap) -> bool;

    /// How a successful result relates to the handle it came from.
    spec fn downcast_sound(self, x: T, h: Heap) -> bool;

    /// Narrow, checking the stored value first.
    fn try_downcast(self, heap: &Heap) -> (r: Option<T>)
        requires
            self.downcast_pre(*heap),
        ensures
            match r {
                Some(x) => self.downcast_ok(*heap) && self.downcast_sound(x, *heap),
                None => !self.downcast_ok(*heap),
            },
    ;
}

impl<T: HostObject> DowncastTo<LocalHandle<T>> for LocalHandle<()> {
    open spec fn downcast_pre(self, h: Heap) -> bool {
        h.wf() && self.valid(h)
    }

    open spec fn downcast_ok(self, h: Heap) -> bool {
        is_ptr_bits(self.ptr_spec(h).bits) && T::is_kind(h.host_view(obj_index(self.ptr_spec(h))))
    }

    open spec fn downcast_sound(self, x: LocalHandle<T>, h: Heap) -> bool {
        x.slot == self.slot
    }

    fn try_downcast(self, heap: &Heap) -> (r: Option<LocalHandle<T>>) {
        let found: Option<&T> = self.try_as_ref(heap);
        match found {
            Some(_) => Some(LocalHandle { slot: self.slot, phantom: PhantomData }),
            None => None,
        }
    }
}

impl DowncastTo<LocalHandle<bool>> for LocalHandle<()> {
    open spec fn downcast_pre(self, h: Heap) -> bool {
        h.wf() && self.valid(h)
    }

    open spec fn downcast_ok(self, h: Heap) -> bool {
        is_bool_bits(self.ptr_spec(h).bits)
    }

    open spec fn downcast_sound(self, x: LocalHandle<bool>, h: Heap) -> bool {
        x.slot == self.slot
    }

    fn try_downcast(self, heap: &Heap) -> (r: Option<LocalHandle<bool>>) {
        if self.ptr(heap).is_bool() {
            Some(LocalHandle { slot: self.slot, phantom: PhantomData })
        } else {
            None
        }
    }
}

impl DowncastTo<LocalHandle<Num>> for LocalHandle<()> {
    open spec fn downcast_pre(self, h: Heap) -> bool {
        h.wf() && self.valid(h)
    }

    open spec fn downcast_ok(self, h: Heap) -> bool {
        is_num_bits(self.ptr_spec(h).bits)
    }

    open spec fn downcast_sound(self, x: LocalHandle<Num>, h: Heap) -> bool {
        x.slot == self.slot
    }

    fn try_downcast(self, heap: &Heap) -> (r: Option<LocalHandle<Num>>) {
        if self.ptr(heap).is_num() {
            Some(LocalHandle { slot: self.slot, phantom: PhantomData })
        } else {
            None
        }
    }
}

// ---------------------------------------------------------------------------
// Mutating host objects in place.
// ---------------------------------------------------------------------------

impl Heap {
    /// Append a value to a list object living on the heap.
    pub fn list_push(&mut self, list: &LocalHandle<crate::object::List>, item: HeapHandle<()>)
        requires
            old(self).wf(),
            list.valid(*old(self)),
            is_ptr_bits(list.ptr_spec(*old(self)).bits),
            crate::object::List::is_kind(
                old(self).host_view(obj_index(list.ptr_spec(*old(self)))),
            ),
            value_ok(item.ptr, old(self).n_objects()),
        ensures
            final(self).wf(),
            ({
                let i = obj_index(list.ptr_spec(*old(self)));
                &&& final(self).host_view(i) == HostView::ListVw(
                    view_children(old(self).host_view(i)).push(item.ptr),
                )
                &&& forall|i2: int|
                    0 <= i2 < old(self).hosts@.len() && i2 != i
                        ==> #[trigger] final(self).hosts@[i2] == old(self).hosts@[i2]
            }),
            final(self).hosts@.len() == old(self).hosts@.len(),
            same_roots(*old(self), *final(self)),
            final(self).space.objects@ == old(self).space.objects@,
            final(self).space.next == old(self).space.next,
            final(self).space.size_in_bytes == old(self).space.size_in_bytes,
            final(self).finalized == old(self).finalized,
    {
        let t = list.ptr(self);
        let n_exec = self.space.objects.len();
        let p = t.to_object().unwrap();
        proof {
            assert(p.index as int == obj_index(t));
        }
        let cell = TraceableObject::load(&self.space, p);
        match &mut self.hosts[cell.host_index] {
            HostValue::ListV(l) => l.push(item),
            _ => vstd::pervasive::unreached(),
        }
        proof {
            let i = obj_index(list.ptr_spec(*old(self)));
            let n = self.n_objects();
            let v0 = old(self).host_view(i);
            let v1 = self.host_view(i);
            assert(host_ok(v0, n));
            assert forall|k: int|
                0 <= k < view_children(v1).len() implies value_ok(
                #[trigger] view_children(v1)[k],
                n,
            ) by {
                if k < view_children(v0).len() {
                    assert(view_children(v1)[k] == view_children(v0)[k]);
                } else {
                    assert(view_children(v1)[k] == item.ptr);
                }
            }
        }
    }
}

/// The first entry at or after `k` whose key equals `key` under the
/// runtime's value equality, or `-1` when there is none.
pub open spec fn map_find_from(
    h: Heap,
    entries: Seq<(TaggedPtr, TaggedPtr)>,
    key: TaggedPtr,
    k: int,
) -> int
    decreases entries.len() - k,
{
    if k < 0 || k >= entries.len() {
        -1
    } else if value_eq_spec(h, entries[k].0, key) {
        k
    } else {
        map_find_from(h, entries, key, k + 1)
    }
}

/// While no entry below `k` matches, searching from the start finds the same
/// entry as searching from `k`.
pub proof fn lemma_map_find_skip(
    h: Heap,
    entries: Seq<(TaggedPtr, TaggedPtr)>,
    key: TaggedPtr,
    k: int,
)
    requires
        0 <= k <= entries.len(),
        forall|j: int| 0 <= j < k ==> !value_eq_spec(h, (#[trigger] entries[j]).0, key),
    ensures
        map_find_from(h, entries, key, 0) == map_find_from(h, entries, key, k),
    decreases k,
{
    if k > 0 {
        lemma_map_find_skip(h, entries, key, k - 1);
    }
}

impl Heap {
    /// Append characters to a string object living on the heap.
    pub fn string_append(&mut self, s: &LocalHandle<String>, suffix: &str)
        requires
            old(self).wf(),
            s.valid(*old(self)),
            is_ptr_bits(s.ptr_spec(*old(self)).bits),
            <String as HostObject>::is_kind(old(self).host_view(obj_index(s.ptr_spec(*old(self))))),
        ensures
            final(self).wf(),
            ({
                let i = obj_index(s.ptr_spec(*old(self)));
                &&& final(self).host_view(i) == HostView::StrV(
                    old(self).host_view(i)->StrV_0 + suffix@,
                )
                &&& forall|i2: int|
                    0 <= i2 < old(self).hosts@.len() && i2 != i
                        ==> #[trigger] final(self).hosts@[i2] == old(self).hosts@[i2]
            }),
            final(self).hosts@.len() == old(self).hosts@.len(),
            same_roots(*old(self), *final(self)),
            final(self).space.objects@ == old(self).space.objects@,
            final(self).space.next == old(self).space.next,
            final(self).space.size_in_bytes == old(self).space.size_in_bytes,
            final(self).finalized == old(self).finalized,
    {
        let t = s.ptr(self);
        let n_exec = self.space.objects.len();
        let p = t.to_object().unwrap();
        proof {
            assert(p.index as int == obj_index(t));
        }
        let cell = TraceableObject::load(&self.space, p);
        match &mut self.hosts[cell.host_index] {
            HostValue::Str(st) => st.append(suffix),
            _ => vstd::pervasive::unreached(),
        }
        proof {
            let i = obj_index(s.ptr_spec(*old(self)));
            let n = self.n_objects();
            assert(host_ok(old(self).host_view(i), n));
            assert(view_children(self.host_view(i)) =~= Seq::<TaggedPtr>::empty());
        }
    }

    /// Look a key up in a map object living on the heap, comparing keys with
    /// the runtime's value equality. Returns a fresh handle on the stored
    /// value of the first matching entry, or `None` when no key matches.
    pub fn map_get(&self, map: &LocalHandle<crate::object::ValueMap>, key: TaggedPtr) -> (r:
        Option<HeapHandle<()>>)
        requires
            self.wf(),
            map.valid(*self),
            is_ptr_bits(map.ptr_spec(*self).bits),
            crate::object::ValueMap::is_kind(self.host_view(obj_index(map.ptr_spec(*self)))),
            value_ok(key, self.n_objects()),
        ensures
            ({
                let es = map_entries(self.host_view(obj_index(map.ptr_spec(*self))));
                let f = map_find_from(*self, es, key, 0);
                match r {
                    Some(hh) => f >= 0 && hh.ptr == es[f].1,
                    None => f == -1,
                }
            }),
    {
        let t = map.ptr(self);
        let n_exec = self.space.objects.len();
        let p = t.to_object().unwrap();
        proof {
            assert(p.index as int == obj_index(t));
        }
        let cell = TraceableObject::load(&self.space, p);
        let m = crate::object::ValueMap::ref_of(&self.hosts[cell.host_index]).unwrap();
        let ghost es = map_entries(self.host_view(obj_index(t)));
        proof {
            assert(host_ok(self.host_view(obj_index(t)), self.n_objects()));
            assert forall|j: int|
                0 <= j < es.len() implies value_ok((#[trigger] es[j]).0, self.n_objects()) by {
                lemma_map_children_ok(self.host_view(obj_index(t)), self.n_objects(), j);
            }
        }
        let n_entries = m.entries.len();
        let mut k: usize = 0;
        while k < n_entries
            invariant
                self.wf(),
                k <= n_entries,
                n_entries == m.entries@.len(),
                t == map.ptr_spec(*self),
                es == map_entries(self.host_view(obj_index(t)))
                    && es.len() == n_entries,
                forall|j: int| 0 <= j < es.len() ==> #[trigger] es[j] == (m.entries@[j].0.ptr, m.entries@[j].1.ptr),
                value_ok(key, self.n_objects()),
                forall|j: int|
                    0 <= j < es.len() ==> value_ok((#[trigger] es[j]).0, self.n_objects()),
                forall|j: int| 0 <= j < k ==> !value_eq_spec(*self, (#[trigger] es[j]).0, key),
            decreases n_entries - k,
        {
            let ek = m.entries[k].0.ptr;
            proof {
                assert(es[k as int] == (m.entries@[k as int].0.ptr, m.entries@[k as int].1.ptr));
                assert(value_ok(es[k as int].0, self.n_objects()));
            }
            if self.value_eq(ek, key) {
                proof {
                    lemma_map_find_skip(*self, es, key, k as int);
                    assert(map_find_from(*self, es, key, k as int) == k as int);
                }
                return Some(HeapHandle::new(m.entries[k].1.ptr));
            }
            k += 1;
        }
        proof {
            lemma_map_find_skip(*self, es, key, n_entries as int);
        }
        None
    }

    /// Insert into a map object living on the heap: the first entry whose key
    /// equals the given one has its value replaced, the key staying as it
    /// was; with no matching key, the new entry is appended.
    pub fn map_insert(
        &mut self,
        map: &LocalHandle<crate::object::ValueMap>,
        key: HeapHandle<()>,
        value: HeapHandle<()>,
    )
        requires
            old(self).wf(),
            map.valid(*old(self)),
            is_ptr_bits(map.ptr_spec(*old(self)).bits),
            crate::object::ValueMap::is_kind(
                old(self).host_view(obj_index(map.ptr_spec(*old(self)))),
            ),
            value_ok(key.ptr, old(self).n_objects()),
            value_ok(value.ptr, old(self).n_objects()),
        ensures
            final(self).wf(),
            ({
                let i = obj_index(map.ptr_spec(*old(self)));
                let es = map_entries(old(self).host_view(i));
                let f = map_find_from(*old(self), es, key.ptr, 0);
                &&& final(self).host_view(i) == HostView::MapVw(
                    if f >= 0 {
                        es.update(f, (es[f].0, value.ptr))
                    } else {
                        es.push((key.ptr, value.ptr))
                    },
                )
                &&& forall|i2: int|
                    0 <= i2 < old(self).hosts@.len() && i2 != i
                        ==> #[trigger] final(self).hosts@[i2] == old(self).hosts@[i2]
            }),
            final(self).hosts@.len() == old(self).hosts@.len(),
            same_roots(*old(self), *final(self)),
            final(self).space.objects@ == old(self).space.objects@,
            final(self).space.next == old(self).space.next,
            final(self).space.size_in_bytes == old(self).space.size_in_bytes,
            final(self).finalized == old(self).finalized,
    {
        let t = map.ptr(self);
        let n_exec = self.space.objects.len();
        let p = t.to_object().unwrap();
        proof {
            assert(p.index as int == obj_index(t));
        }
        let cell = TraceableObject::load(&self.space, p);
        let ghost es = map_entries(self.host_view(obj_index(t)));

        // Scan for the first matching key.
        let mut found: Option<usize> = None;
        {
            let m = crate::object::ValueMap::ref_of(&self.hosts[cell.host_index]).unwrap();
            proof {
                assert(host_ok(self.host_view(obj_index(t)), self.n_objects()));
                assert forall|j: int|
                    0 <= j < es.len() implies value_ok((#[trigger] es[j]).0, self.n_objects()) by {
                    lemma_map_children_ok(self.host_view(obj_index(t)), self.n_objects(), j);
                }
            }
            let n_entries = m.entries.len();
            let mut k: usize = 0;
            while k < n_entries
                invariant
                    self.wf(),
                    k <= n_entries,
                    n_entries == m.entries@.len(),
                    es == map_entries(self.host_view(obj_index(t)))
                        && es.len() == n_entries,
                    forall|j: int|
                        0 <= j < es.len() ==> #[trigger] es[j] == (
                            m.entries@[j].0.ptr,
                            m.entries@[j].1.ptr,
                        ),
                    value_ok(key.ptr, self.n_objects()),
                    forall|j: int|
                        0 <= j < es.len() ==> value_ok((#[trigger] es[j]).0, self.n_objects()),
                    match found {
                        Some(f) => {
                            &&& f == map_find_from(*self, es, key.ptr, 0)
                            &&& f < es.len()
                            &&& value_eq_spec(*self, es[f as int].0, key.ptr)
                        },
                        None => forall|j: int|
                            0 <= j < k ==> !value_eq_spec(*self, (#[trigger] es[j]).0, key.ptr),
                    },
                decreases n_entries - k,
            {
                if found.is_none() {
                    let ek = m.entries[k].0.ptr;
                    proof {
                        assert(es[k as int] == (
                            m.entries@[k as int].0.ptr,
                            m.entries@[k as int].1.ptr,
                        ));
                        assert(value_ok(es[k as int].0, self.n_objects()));
                    }
                    if self.value_eq(ek, key.ptr) {
                        proof {
                            lemma_map_find_skip(*self, es, key.ptr, k as int);
                            assert(map_find_from(*self, es, key.ptr, k as int) == k as int);
                        }
                        found = Some(k);
                    }
                }
                k += 1;
            }
            proof {
                if found is None {
                    lemma_map_find_skip(*self, es, key.ptr, n_entries as int);
                }
            }
        }

        // Write the entry.
        match &mut self.hosts[cell.host_index] {
            HostValue::MapV(m) => {
                match found {
                    Some(f) => {
                        let old_key = HeapHandle::new(m.entries[f].0.ptr);
                        m.entries.set(f, (old_key, value));
                        proof {
                            assert(m@ =~= es.update(f as int, (es[f as int].0, value.ptr)));
                        }
                    },
                    None => {
                        m.entries.push((key, value));
                        proof {
                            assert(m@ =~= es.push((key.ptr, value.ptr)));
                        }
                    },
                }
            },
            _ => vstd::pervasive::unreached(),
        }
        proof {
            let i = obj_index(map.ptr_spec(*old(self)));
            let n = self.n_objects();
            let v0 = old(self).host_view(i);
            let v1 = self.host_view(i);
            let es0 = map_entries(v0);
            let es1 = map_entries(v1);
            let f = map_find_from(*old(self), es0, key.ptr, 0);
            assert(host_ok(v0, n));
            assert forall|k2: int|
                0 <= k2 < view_children(v1).len() implies value_ok(
                #[trigger] view_children(v1)[k2],
                n,
            ) by {
                let half = es1.len() as int;
                assert(view_children(v1).len() == 2 * half);
                let idx = if k2 < half {
                    k2
                } else {
                    k2 - half
                };
                if idx < es0.len() {
                    lemma_map_children_ok(v0, n, idx);
                }
                if k2 < half {
                    assert(view_children(v1)[k2] == es1[k2].0);
                } else {
                    assert(view_children(v1)[k2] == es1[k2 - half].1);
                }
            }
        }
    }
}

/// Each side of a map entry is among the map contents' children, so it is
/// valid whenever the contents are.
pub proof fn lemma_map_children_ok(v: HostView, n: int, k: int)
    requires
        host_ok(v, n),
        v is MapVw,
        0 <= k < map_entries(v).len(),
    ensures
        value_ok(map_entries(v)[k].0, n),
        value_ok(map_entries(v)[k].1, n),
{
    let es = map_entries(v);
    assert(view_children(v)[k] == es[k].0);
    assert(view_children(v)[es.len() + k] == es[k].1);
    assert(value_ok(view_children(v)[k], n));
    assert(value_ok(view_children(v)[es.len() + k], n));
}

// ---------------------------------------------------------------------------
// Collection: specification.
// ---------------------------------------------------------------------------

/// A set of source object indices closed under the heap's roots and tracing:
/// it holds every object a root points to, and every object that a member's
/// native points to.
pub open spec fn closed(h: Heap, s: Set<int>) -> bool {
    &&& forall|k: int|
        0 <= k < h.scope_slots@.len() && is_ptr_bits((#[trigger] h.scope_slots@[k]).ptr.bits)
            ==> s.contains(obj_index(h.scope_slots@[k].ptr))
    &&& forall|g: int|
        0 <= g < h.globals@.len() ==> match #[trigger] h.globals@[g] {
            Some(hh) => is_ptr_bits(hh.ptr.bits) ==> s.contains(obj_index(hh.ptr)),
            None => true,
        }
    &&& forall|i: int, c: int|
        #![trigger s.contains(i), view_children(h.host_view(i))[c]]
        s.contains(i) && 0 <= i < h.n_objects() && 0 <= c < view_children(h.host_view(i)).len()
            && is_ptr_bits(view_children(h.host_view(i))[c].bits) ==> s.contains(
            obj_index(view_children(h.host_view(i))[c]),
        )
}

/// The objects reachable from the heap's roots: the intersection of every
/// closed set.
pub open spec fn reach_set(h: Heap) -> Set<int> {
    Set::new(|i: int| forall|s: Set<int>| closed(h, s) ==> s.contains(i))
}

/// Object `i` carries a forwarding pointer to destination slot `j`.
pub open spec fn forwarded_to(objs: Seq<crate::space::HeapObject>, i: int, j: int) -> bool {
    &&& 0 <= i < objs.len()
    &&& crate::object::is_forwarded(objs[i])
    &&& crate::object::fwd_index(objs[i]) == j
}

/// The forwarding map a finished copy phase leaves in the old space: each
/// copied source index maps to the destination slot of its copy.
pub open spec fn fwd_map(objs: Seq<crate::space::HeapObject>) -> Map<int, int> {
    Map::new(
        |i: int| 0 <= i < objs.len() && crate::object::is_forwarded(objs[i]),
        |i: int| crate::object::fwd_index(objs[i]),
    )
}

/// A tagged value after collection: object pointers follow the forwarding
/// map, all other values are unchanged.
pub open spec fn remap_value(t: TaggedPtr, f: Map<int, int>) -> TaggedPtr {
    if is_ptr_bits(t.bits) {
        encode_object_index(f[obj_index(t)] as u64)
    } else {
        t
    }
}

/// Host contents after collection: every owned tagged value remapped, the
/// characters of a string untouched.
pub open spec fn remap_view(v: HostView, f: Map<int, int>) -> HostView {
    match v {
        HostView::StrV(s) => HostView::StrV(s),
        HostView::ListVw(hs) => HostView::ListVw(
            hs.map_values(|t: TaggedPtr| remap_value(t, f)),
        ),
        HostView::MapVw(ps) => HostView::MapVw(
            ps.map_values(
                |p: (TaggedPtr, TaggedPtr)| (remap_value(p.0, f), remap_value(p.1, f)),
            ),
        ),
    }
}

/// What one collection did, witnessed by its forwarding map `f` and the copy
/// record `back`, which names the source of each new object in copy order.
///
/// `f` is injective from copied source objects onto the whole new space, with
/// `back` its inverse; every copied native keeps its contents up to pointer
/// forwarding; every root slot is rewritten in place to its forwarded value;
/// what was copied is closed under tracing, lies in every closed set of the
/// old heap (so nothing unreachable survives), and makes up the whole new
/// heap (so every surviving object is reachable again). Occupancy is exactly
/// the footprint of the copied objects, and every native that was not copied
/// has been finalized.
pub open spec fn collect_post(h0: Heap, h1: Heap, f: Map<int, int>, back: Seq<int>) -> bool {
    let n0 = h0.n_objects();
    let n1 = h1.n_objects();
    &&& h1.wf()
    &&& h1.space.size_in_bytes == h0.space.size_in_bytes
    &&& forall|i: int| #[trigger] f.dom().contains(i) ==> 0 <= i < n0 && 0 <= f[i] < n1
    &&& forall|i1: int, i2: int|
        f.dom().contains(i1) && f.dom().contains(i2) && f[i1] == f[i2] ==> i1 == i2
    &&& back.len() == n1
    &&& forall|j: int|
        0 <= j < n1 ==> f.dom().contains(#[trigger] back[j]) && f[back[j]] == j
    &&& forall|i: int|
        #[trigger] f.dom().contains(i) ==> h1.host_view(f[i]) == remap_view(h0.host_view(i), f)
    &&& h1.scope_slots@.len() == h0.scope_slots@.len()
    &&& h1.scope_starts@ == h0.scope_starts@
    &&& forall|k: int|
        0 <= k < h0.scope_slots@.len() ==> {
            let t = (#[trigger] h0.scope_slots@[k]).ptr;
            &&& (is_ptr_bits(t.bits) ==> f.dom().contains(obj_index(t)))
            &&& h1.scope_slots@[k].ptr == remap_value(t, f)
        }
    &&& h1.globals@.len() == h0.globals@.len()
    &&& forall|g: int|
        0 <= g < h0.globals@.len() ==> match #[trigger] h0.globals@[g] {
            Some(hh) => {
                &&& h1.globals@[g] is Some
                &&& (is_ptr_bits(hh.ptr.bits) ==> f.dom().contains(obj_index(hh.ptr)))
                &&& h1.globals@[g]->Some_0.ptr == remap_value(hh.ptr, f)
            },
            None => h1.globals@[g] is None,
        }
    &&& forall|i: int, c: int|
        #![trigger f.dom().contains(i), view_children(h0.host_view(i))[c]]
        f.dom().contains(i) && 0 <= c < view_children(h0.host_view(i)).len() && is_ptr_bits(
            view_children(h0.host_view(i))[c].bits,
        ) ==> f.dom().contains(obj_index(view_children(h0.host_view(i))[c]))
    &&& forall|s: Set<int>|
        closed(h0, s) ==> forall|i: int| #[trigger] f.dom().contains(i) ==> s.contains(i)
    &&& forall|s: Set<int>|
        closed(h1, s) ==> forall|j: int| 0 <= j < n1 ==> #[trigger] s.contains(j)
    &&& h1.space.next == crate::space::sum_alloc_in(h0.space.objects@, f.dom(), n0)
    &&& h1.space.next <= h0.space.next
    &&& h1.finalized == if h0.finalized + (n0 - n1) <= usize::MAX {
        h0.finalized + (n0 - n1)
    } else {
        usize::MAX as int
    }
}

/// Why an object was copied during a collection: a local root slot pointed
/// at it, a global slot pointed at it, or an earlier copy owned a handle
/// pointing at it.
pub enum CopyReason {
    FromSlot { k: int },
    FromGlobal { g: int },
    FromParent { parent: int, child: int },
}

/// The recorded reason for destination object `j` justifies it against the
/// old heap and the current (forwarding-carrying) source objects.
pub open spec fn reason_holds(
    h0: Heap,
    cf: Seq<int>,
    src_objs: Seq<crate::space::HeapObject>,
    r: CopyReason,
    j: int,
) -> bool {
    match r {
        CopyReason::FromSlot { k } => {
            &&& 0 <= k < h0.scope_slots@.len()
            &&& is_ptr_bits(h0.scope_slots@[k].ptr.bits)
            &&& forwarded_to(src_objs, obj_index(h0.scope_slots@[k].ptr), j)
        },
        CopyReason::FromGlobal { g } => {
            &&& 0 <= g < h0.globals@.len()
            &&& h0.globals@[g] is Some
            &&& is_ptr_bits(h0.globals@[g]->Some_0.ptr.bits)
            &&& forwarded_to(src_objs, obj_index(h0.globals@[g]->Some_0.ptr), j)
        },
        CopyReason::FromParent { parent, child } => {
            &&& 0 <= parent < j
            &&& parent < cf.len()
            &&& 0 <= cf[parent] < h0.n_objects()
            &&& 0 <= child < view_children(h0.host_view(cf[parent])).len()
            &&& is_ptr_bits(view_children(h0.host_view(cf[parent]))[child].bits)
            &&& forwarded_to(
                src_objs,
                obj_index(view_children(h0.host_view(cf[parent]))[child]),
                j,
            )
        },
    }
}

/// A native rebuilt by the drain phase: the same contents with every owned
/// handle rewritten to the forwarded value recorded in the source headers.
pub open spec fn view_traced(
    v0: HostView,
    v1: HostView,
    src_objs: Seq<crate::space::HeapObject>,
) -> bool {
    match v0 {
        HostView::StrV(s) => v1 == HostView::StrV(s),
        HostView::ListVw(hs0) => match v1 {
            HostView::ListVw(hs1) => hs1.len() == hs0.len() && forall|c: int|
                0 <= c < hs0.len() ==> crate::object::traced_to(
                    hs0[c],
                    #[trigger] hs1[c],
                    src_objs,
                ),
            _ => false,
        },
        HostView::MapVw(ps0) => match v1 {
            HostView::MapVw(ps1) => ps1.len() == ps0.len() && forall|c: int|
                0 <= c < ps0.len() ==> crate::object::traced_to(
                    (#[trigger] ps0[c]).0,
                    ps1[c].0,
                    src_objs,
                ) && crate::object::traced_to(ps0[c].1, ps1[c].1, src_objs),
            _ => false,
        },
    }
}

// ---------------------------------------------------------------------------
// Collection: supporting lemmas.
// ---------------------------------------------------------------------------

/// Remapping contents remaps their children pointwise.
pub proof fn lemma_remap_children(v: HostView, f: Map<int, int>)
    ensures
        view_children(remap_view(v, f)).len() == view_children(v).len(),
        forall|c: int|
            0 <= c < view_children(v).len() ==> #[trigger] view_children(remap_view(v, f))[c]
                == remap_value(view_children(v)[c], f),
{
    match v {
        HostView::StrV(_) => {},
        HostView::ListVw(_) => {},
        HostView::MapVw(ps) => {
            let ps1 = ps.map_values(
                |p: (TaggedPtr, TaggedPtr)| (remap_value(p.0, f), remap_value(p.1, f)),
            );
            assert forall|c: int|
                0 <= c < view_children(v).len() implies #[trigger] view_children(
                remap_view(v, f),
            )[c] == remap_value(view_children(v)[c], f) by {
                let half = ps.len() as int;
                if c < half {
                    assert(view_children(v)[c] == ps[c].0);
                    assert(view_children(remap_view(v, f))[c] == ps1[c].0);
                } else {
                    assert(view_children(v)[c] == ps[c - half].1);
                    assert(view_children(remap_view(v, f))[c] == ps1[c - half].1);
                }
            }
        },
    }
}

/// A single traced value stays traced as forwarding grows.
pub proof fn lemma_traced_stable(
    t0: TaggedPtr,
    t1: TaggedPtr,
    objs0: Seq<crate::space::HeapObject>,
    objs1: Seq<crate::space::HeapObject>,
)
    requires
        crate::object::traced_to(t0, t1, objs0),
        objs1.len() == objs0.len(),
        forall|i: int|
            0 <= i < objs0.len() && crate::object::is_forwarded(#[trigger] objs0[i])
                ==> objs1[i] == objs0[i],
    ensures
        crate::object::traced_to(t0, t1, objs1),
{
}

/// Rebuilt contents stay traced as forwarding grows.
pub proof fn lemma_view_traced_stable(
    v0: HostView,
    v1: HostView,
    objs0: Seq<crate::space::HeapObject>,
    objs1: Seq<crate::space::HeapObject>,
)
    requires
        view_traced(v0, v1, objs0),
        objs1.len() == objs0.len(),
        forall|i: int|
            0 <= i < objs0.len() && crate::object::is_forwarded(#[trigger] objs0[i])
                ==> objs1[i] == objs0[i],
    ensures
        view_traced(v0, v1, objs1),
{
}

/// Recorded copy reasons stay valid as copying proceeds: forwarding pointers
/// never change once set, and the copy record only grows.
pub proof fn lemma_reasons_stable(
    h0: Heap,
    cf0: Seq<int>,
    cf1: Seq<int>,
    objs0: Seq<crate::space::HeapObject>,
    objs1: Seq<crate::space::HeapObject>,
    reasons: Seq<CopyReason>,
)
    requires
        reasons.len() <= cf0.len(),
        cf0.len() <= cf1.len(),
        forall|j: int| 0 <= j < cf0.len() ==> #[trigger] cf1[j] == cf0[j],
        objs1.len() == objs0.len(),
        forall|i: int|
            0 <= i < objs0.len() && crate::object::is_forwarded(#[trigger] objs0[i])
                ==> objs1[i] == objs0[i],
        forall|j: int|
            0 <= j < reasons.len() ==> reason_holds(h0, cf0, objs0, #[trigger] reasons[j], j),
    ensures
        forall|j: int|
            0 <= j < reasons.len() ==> reason_holds(h0, cf1, objs1, #[trigger] reasons[j], j),
{
    assert forall|j: int|
        0 <= j < reasons.len() implies reason_holds(h0, cf1, objs1, #[trigger] reasons[j], j) by {
        match reasons[j] {
            CopyReason::FromSlot { k } => {},
            CopyReason::FromGlobal { g } => {},
            CopyReason::FromParent { parent, child } => {
                assert(cf1[parent] == cf0[parent]);
            },
        }
    }
}

/// A rebuilt native is exactly the old contents remapped by the final
/// forwarding map.
pub proof fn lemma_view_traced_remap(
    v0: HostView,
    v1: HostView,
    objs: Seq<crate::space::HeapObject>,
)
    requires
        view_traced(v0, v1, objs),
    ensures
        v1 == remap_view(v0, fwd_map(objs)),
{
    let f = fwd_map(objs);
    match v0 {
        HostView::StrV(_) => {},
        HostView::ListVw(hs0) => {
            let hs1 = v1->ListVw_0;
            assert forall|c: int|
                0 <= c < hs0.len() implies #[trigger] hs1[c] == remap_value(hs0[c], f) by {
                assert(crate::object::traced_to(hs0[c], hs1[c], objs));
            }
            assert(hs1 =~= hs0.map_values(|t: TaggedPtr| remap_value(t, f)));
        },
        HostView::MapVw(ps0) => {
            let ps1 = v1->MapVw_0;
            assert forall|c: int|
                0 <= c < ps0.len() implies #[trigger] ps1[c] == (
                remap_value(ps0[c].0, f),
                remap_value(ps0[c].1, f),
            ) by {
                assert(crate::object::traced_to(ps0[c].0, ps1[c].0, objs));
                assert(crate::object::traced_to(ps0[c].1, ps1[c].1, objs));
            }
            assert(ps1 =~= ps0.map_values(
                |p: (TaggedPtr, TaggedPtr)| (remap_value(p.0, f), remap_value(p.1, f)),
            ));
        },
    }
}

/// Rebuilt contents trace their children pointwise.
pub proof fn lemma_view_traced_children(
    v0: HostView,
    v1: HostView,
    objs: Seq<crate::space::HeapObject>,
)
    requires
        view_traced(v0, v1, objs),
    ensures
        view_children(v1).len() == view_children(v0).len(),
        forall|c: int|
            0 <= c < view_children(v0).len() ==> crate::object::traced_to(
                view_children(v0)[c],
                #[trigger] view_children(v1)[c],
                objs,
            ),
{
    match v0 {
        HostView::StrV(_) => {},
        HostView::ListVw(_) => {},
        HostView::MapVw(ps0) => {
            let ps1 = v1->MapVw_0;
            assert forall|c: int|
                0 <= c < view_children(v0).len() implies crate::object::traced_to(
                view_children(v0)[c],
                #[trigger] view_children(v1)[c],
                objs,
            ) by {
                let half = ps0.len() as int;
                if c < half {
                    assert(view_children(v0)[c] == ps0[c].0);
                    assert(view_children(v1)[c] == ps1[c].0);
                } else {
                    assert(view_children(v0)[c] == ps0[c - half].1);
                    assert(view_children(v1)[c] == ps1[c - half].1);
                }
            }
        },
    }
}

/// The record of reasons for each copy: one per destination object, each
/// holding against the old heap, the copy record and the current source.
pub open spec fn reasons_ok(
    h0: Heap,
    cf: Seq<int>,
    objs: Seq<crate::space::HeapObject>,
    reasons: Seq<CopyReason>,
) -> bool {
    &&& reasons.len() == cf.len()
    &&& forall|j: int|
        0 <= j < reasons.len() ==> reason_holds(h0, cf, objs, #[trigger] reasons[j], j)
}

/// Every object of the collected heap lies in every closed set of it: the
/// new heap is fully live. Each copy was justified by a root or by an
/// earlier copy, so, by induction in copy order, closedness reaches it.
pub proof fn lemma_new_heap_live(
    h0: Heap,
    h1: Heap,
    f: Map<int, int>,
    back: Seq<int>,
    reasons: Seq<CopyReason>,
    src_objs: Seq<crate::space::HeapObject>,
    s: Set<int>,
    j: int,
)
    requires
        closed(h1, s),
        f == fwd_map(src_objs),
        back.len() == h1.n_objects(),
        reasons_ok(h0, back, src_objs, reasons),
        forall|j2: int|
            0 <= j2 < back.len() ==> f.dom().contains(#[trigger] back[j2]) && f[back[j2]] == j2,
        h1.scope_slots@.len() == h0.scope_slots@.len(),
        forall|k: int|
            0 <= k < h0.scope_slots@.len() ==> h1.scope_slots@[k].ptr == remap_value(
                (#[trigger] h0.scope_slots@[k]).ptr,
                f,
            ),
        h1.globals@.len() == h0.globals@.len(),
        forall|g: int|
            0 <= g < h0.globals@.len() ==> match #[trigger] h0.globals@[g] {
                Some(hh) => h1.globals@[g] is Some && h1.globals@[g]->Some_0.ptr == remap_value(
                    hh.ptr,
                    f,
                ),
                None => true,
            },
        forall|i: int|
            #[trigger] f.dom().contains(i) ==> 0 <= i < h0.n_objects() && 0 <= f[i]
                < h1.n_objects() && h1.host_view(f[i]) == remap_view(h0.host_view(i), f),
        h1.n_objects() <= PTR_MASK,
        0 <= j < h1.n_objects(),
    ensures
        s.contains(j),
    decreases j,
{
    crate::pointer::lemma_object_encoding(j as u64);
    match reasons[j] {
        CopyReason::FromSlot { k } => {
            let t0 = h0.scope_slots@[k].ptr;
            let i = obj_index(t0);
            assert(f.dom().contains(i) && f[i] == j);
            assert((#[trigger] h1.scope_slots@[k]).ptr == encode_object_index(j as u64));
            assert(is_ptr_bits(h1.scope_slots@[k].ptr.bits));
            assert(s.contains(obj_index(h1.scope_slots@[k].ptr)));
        },
        CopyReason::FromGlobal { g } => {
            let t0 = h0.globals@[g]->Some_0.ptr;
            let i = obj_index(t0);
            assert(f.dom().contains(i) && f[i] == j);
            assert(h1.globals@[g] is Some);
            assert(h1.globals@[g]->Some_0.ptr == encode_object_index(j as u64));
            assert(s.contains(obj_index(h1.globals@[g]->Some_0.ptr)));
        },
        CopyReason::FromParent { parent, child } => {
            lemma_new_heap_live(h0, h1, f, back, reasons, src_objs, s, parent);
            let ip = back[parent];
            assert(f.dom().contains(ip) && f[ip] == parent);
            let v0 = h0.host_view(ip);
            assert(h1.host_view(parent) == remap_view(v0, f));
            lemma_remap_children(v0, f);
            let t0 = view_children(v0)[child];
            let i = obj_index(t0);
            assert(f.dom().contains(i) && f[i] == j);
            assert(view_children(h1.host_view(parent))[child] == encode_object_index(j as u64));
            assert(s.contains(parent) && 0 <= parent < h1.n_objects() && 0 <= child
                < view_children(h1.host_view(parent)).len() && is_ptr_bits(
                view_children(h1.host_view(parent))[child].bits,
            ));
            assert(s.contains(obj_index(view_children(h1.host_view(parent))[child])));
        },
    }
}

/// Trace the copied-out handles of one native during the drain phase: every
/// handle is rewritten to the forwarded value of what it held, and a reason
/// naming the owning copy is recorded for every fresh copy this causes.
fn trace_native_handles(
    visitor: &mut ObjectVisitor,
    space: &mut Space,
    vals: &mut Vec<HeapHandle<()>>,
    Ghost(h0): Ghost<Heap>,
    Ghost(parent): Ghost<int>,
    Ghost(child_base): Ghost<int>,
    Ghost(reasons0): Ghost<Seq<CopyReason>>,
) -> (reasons_out: Ghost<Seq<CopyReason>>)
    requires
        vis_inv(*old(visitor), *old(space)),
        old(visitor).sources@ == reach_set(h0),
        reasons_ok(h0, old(visitor).copied_from@, old(space).objects@, reasons0),
        h0.wf(),
        old(space).objects@.len() == h0.n_objects(),
        0 <= parent < old(visitor).copied_from@.len(),
        0 <= child_base,
        child_base + old(vals)@.len() <= view_children(
            h0.host_view(old(visitor).copied_from@[parent]),
        ).len(),
        forall|c: int|
            0 <= c < old(vals)@.len() ==> (#[trigger] old(vals)@[c]).ptr == view_children(
                h0.host_view(old(visitor).copied_from@[parent]),
            )[child_base + c],
    ensures
        vis_inv(*final(visitor), *final(space)),
        visitor_extends(*old(space), *old(visitor), *final(space), *final(visitor)),
        final(visitor).sources@ == reach_set(h0),
        reasons_ok(h0, final(visitor).copied_from@, final(space).objects@, reasons_out@),
        final(vals)@.len() == old(vals)@.len(),
        forall|c: int|
            0 <= c < old(vals)@.len() ==> traced_to(
                (#[trigger] old(vals)@[c]).ptr,
                final(vals)@[c].ptr,
                final(space).objects@,
            ),
        forall|c: int|
            0 <= c < final(vals)@.len() ==> value_ok(
                (#[trigger] final(vals)@[c]).ptr,
                final(visitor).space.objects@.len() as int,
            ),
{
    let ghost ip = old(visitor).copied_from@[parent];
    let ghost vals_in = vals@;
    let ghost src_in = *space;
    let ghost vis_in = *visitor;
    let mut reasons: Ghost<Seq<CopyReason>> = Ghost(reasons0);
    let n_vals = vals.len();
    let mut c: usize = 0;
    while c < n_vals
        invariant
            c <= n_vals,
            n_vals == vals@.len(),
            vals@.len() == vals_in.len(),
            vis_inv(*visitor, *space),
            visitor_extends(src_in, vis_in, *space, *visitor),
            vis_inv(vis_in, src_in),
            visitor.sources@ == reach_set(h0),
            h0.wf(),
            src_in.objects@.len() == h0.n_objects(),
            reasons_ok(h0, visitor.copied_from@, space.objects@, reasons@),
            0 <= parent < vis_in.copied_from@.len(),
            ip == vis_in.copied_from@[parent],
            0 <= child_base,
            child_base + vals_in.len() <= view_children(h0.host_view(ip)).len(),
            forall|c2: int|
                0 <= c2 < vals_in.len() ==> (#[trigger] vals_in[c2]).ptr == view_children(
                    h0.host_view(ip),
                )[child_base + c2],
            forall|c2: int| c <= c2 < n_vals ==> vals@[c2] == vals_in[c2],
            forall|c2: int|
                0 <= c2 < c ==> traced_to(
                    (#[trigger] vals_in[c2]).ptr,
                    vals@[c2].ptr,
                    space.objects@,
                ),
            forall|c2: int|
                0 <= c2 < c ==> value_ok(
                    (#[trigger] vals@[c2]).ptr,
                    visitor.space.objects@.len() as int,
                ),
        decreases n_vals - c,
    {
        let t = vals[c].ptr;
        proof {
            assert(vals@[c as int] == vals_in[c as int]);
            assert(0 <= ip < h0.n_objects());
            assert(host_ok(h0.host_view(ip), h0.n_objects()));
            assert(t == view_children(h0.host_view(ip))[child_base + c]);
            assert(value_ok(t, space.objects@.len() as int));
            if is_ptr_bits(t.bits) {
                assert(visitor.sources@.contains(vis_in.copied_from@[parent]));
                assert(reach_set(h0).contains(ip));
                assert forall|s: Set<int>| closed(h0, s) implies s.contains(obj_index(t)) by {
                    assert(s.contains(ip));
                }
                assert(reach_set(h0).contains(obj_index(t)));
            }
        }
        let ghost cf0 = visitor.copied_from@;
        let ghost objs0 = space.objects@;
        let ghost reasons_before = reasons@;
        let dlen_before = visitor.space.objects.len();
        let t2 = visitor.visit_value(space, t);
        vals.set(c, HeapHandle::new(t2));
        if visitor.space.objects.len() > dlen_before {
            reasons = Ghost(
                reasons@.push(CopyReason::FromParent { parent, child: child_base + c }),
            );
        }
        proof {
            lemma_reasons_stable(
                h0,
                cf0,
                visitor.copied_from@,
                objs0,
                space.objects@,
                reasons_before,
            );
            if visitor.space.objects@.len() > dlen_before {
                let j = dlen_before as int;
                crate::space::lemma_total_alloc_lower(visitor.space.objects@);
                crate::pointer::lemma_object_encoding(j as u64);
                assert(parent < j);
                assert(visitor.copied_from@[parent] == ip);
                assert(is_ptr_bits(t.bits));
                assert(t2 == encode_object_index(j as u64));
                assert(ptr_index_bits(t2.bits) == j as u64);
                assert(crate::object::fwd_index(space.objects@[obj_index(t)]) == j);
                assert(forwarded_to(space.objects@, obj_index(t), j));
                assert(reason_holds(
                    h0,
                    visitor.copied_from@,
                    space.objects@,
                    CopyReason::FromParent { parent, child: child_base + c },
                    j,
                ));
            }
            assert(reasons@.len() == visitor.copied_from@.len());
            assert forall|j2: int|
                0 <= j2 < reasons@.len() implies reason_holds(
                h0,
                visitor.copied_from@,
                space.objects@,
                #[trigger] reasons@[j2],
                j2,
            ) by {
                if j2 < reasons_before.len() {
                    assert(reasons@[j2] == reasons_before[j2]);
                    assert(reason_holds(
                        h0,
                        visitor.copied_from@,
                        space.objects@,
                        reasons_before[j2],
                        j2,
                    ));
                }
            }
        }
        c += 1;
    }
    reasons
}

/// The unchanging frame of a running collection: the source space keeps its
/// objects up to forwarding, and the owner table and root shapes are those of
/// the heap the collection started from.
pub open spec fn collect_frame(h0: Heap, cur: Heap) -> bool {
    &&& h0.wf()
    &&& cur.space.objects@.len() == h0.n_objects()
    &&& cur.space.size_in_bytes == h0.space.size_in_bytes
    &&& forall|i: int|
        0 <= i < h0.n_objects() ==> same_but_fwd(
            #[trigger] cur.space.objects@[i],
            h0.space.objects@[i],
        )
    &&& cur.hosts@ == h0.hosts@
    &&& cur.scope_starts@ == h0.scope_starts@
    &&& cur.scope_slots@.len() == h0.scope_slots@.len()
    &&& cur.globals@.len() == h0.globals@.len()
    &&& cur.finalized == h0.finalized
}

/// Every root slot has been rewritten in place to the forwarded value of
/// what it held, and points into the destination space of `dlen` objects.
pub open spec fn roots_traced(h0: Heap, cur: Heap, dlen: int) -> bool {
    &&& forall|k: int|
        0 <= k < h0.scope_slots@.len() ==> traced_to(
            (#[trigger] h0.scope_slots@[k]).ptr,
            cur.scope_slots@[k].ptr,
            cur.space.objects@,
        ) && value_ok(cur.scope_slots@[k].ptr, dlen)
    &&& forall|g: int|
        0 <= g < h0.globals@.len() ==> match #[trigger] h0.globals@[g] {
            Some(hh) => cur.globals@[g] is Some && traced_to(
                hh.ptr,
                cur.globals@[g]->Some_0.ptr,
                cur.space.objects@,
            ) && value_ok(cur.globals@[g]->Some_0.ptr, dlen),
            None => cur.globals@[g] is None,
        }
}

impl Heap {
    /// Collect the heap: copy every object reachable from the scopes and the
    /// globals into a fresh space, rewrite every root and every handle inside
    /// a surviving native to the forwarded pointers, swap the spaces, and
    /// only then finalize the natives that did not survive, so a finalizer
    /// that re-enters the heap would see a consistent post-collection state.
    ///
    /// The whole effect is witnessed by a forwarding map: see `collect_post`.
    /// Collection itself cannot run out of room, since the destination space
    /// has the same capacity as the source and only survivors move in.
    pub fn collect(&mut self) -> (r: Result<(), GCError>)
        requires
            old(self).wf(),
        ensures
            final(self).wf(),
            r is Ok,
            exists|f: Map<int, int>, back: Seq<int>|
                collect_post(*old(self), *final(self), f, back),
    {
        let ghost h0 = *self;
        let ghost n0 = self.space.objects@.len() as int;

        // A destination space of the same capacity.
        let dest = match Space::new(self.space.size_in_bytes) {
            Ok(s) => s,
            Err(_) => vstd::pervasive::unreached(),
        };
        let mut visitor = ObjectVisitor::new(dest, Ghost(reach_set(h0)));
        let mut reasons: Ghost<Seq<CopyReason>> = Ghost(Seq::empty());
        proof {
            crate::space::lemma_sum_in_none(
                self.space.objects@,
                crate::object::fwd_set(self.space.objects@),
                n0,
            );
            crate::object::lemma_count_forwarded_none(self.space.objects@, n0);
            assert(vis_inv(visitor, self.space));
        }

        // Trace phase, local roots: visit every slot of every scope.
        let n_slots = self.scope_slots.len();
        let mut k: usize = 0;
        while k < n_slots
            invariant
                k <= n_slots,
                n_slots == self.scope_slots@.len(),
                h0.wf(),
                collect_frame(h0, *self),
                vis_inv(visitor, self.space),
                visitor.sources@ == reach_set(h0),
                reasons_ok(h0, visitor.copied_from@, self.space.objects@, reasons@),
                self.globals@ == h0.globals@,
                forall|k2: int| k <= k2 < n_slots ==> self.scope_slots@[k2] == h0.scope_slots@[k2],
                forall|k2: int|
                    0 <= k2 < k ==> traced_to(
                        (#[trigger] h0.scope_slots@[k2]).ptr,
                        self.scope_slots@[k2].ptr,
                        self.space.objects@,
                    ),
                forall|k2: int|
                    0 <= k2 < k ==> value_ok(
                        (#[trigger] self.scope_slots@[k2]).ptr,
                        visitor.space.objects@.len() as int,
                    ),
            decreases n_slots - k,
        {
            let t = self.scope_slots[k].ptr;
            proof {
                assert(self.scope_slots@[k as int] == h0.scope_slots@[k as int]);
                assert(value_ok(t, self.space.objects@.len() as int));
                if is_ptr_bits(t.bits) {
                    assert forall|s: Set<int>| closed(h0, s) implies s.contains(obj_index(t)) by {
                        assert((#[trigger] h0.scope_slots@[k as int]).ptr == t);
                    }
                    assert(reach_set(h0).contains(obj_index(t)));
                }
            }
            let ghost cf0 = visitor.copied_from@;
            let ghost objs0 = self.space.objects@;
            let ghost reasons_before = reasons@;
            let dlen_before = visitor.space.objects.len();
            let t2 = visitor.visit_value(&mut self.space, t);
            self.scope_slots.set(k, HeapHandle::new(t2));
            if visitor.space.objects.len() > dlen_before {
                reasons = Ghost(reasons@.push(CopyReason::FromSlot { k: k as int }));
            }
            proof {
                lemma_reasons_stable(
                    h0,
                    cf0,
                    visitor.copied_from@,
                    objs0,
                    self.space.objects@,
                    reasons_before,
                );
                if visitor.space.objects@.len() > dlen_before {
                    let j = dlen_before as int;
                    crate::space::lemma_total_alloc_lower(visitor.space.objects@);
                    crate::pointer::lemma_object_encoding(j as u64);
                    assert(t2 == encode_object_index(j as u64));
                    assert(forwarded_to(self.space.objects@, obj_index(t), j));
                    assert(reason_holds(
                        h0,
                        visitor.copied_from@,
                        self.space.objects@,
                        CopyReason::FromSlot { k: k as int },
                        j,
                    ));
                }
                assert forall|j2: int|
                    0 <= j2 < reasons@.len() implies reason_holds(
                    h0,
                    visitor.copied_from@,
                    self.space.objects@,
                    #[trigger] reasons@[j2],
                    j2,
                ) by {
                    if j2 < reasons_before.len() {
                        assert(reasons@[j2] == reasons_before[j2]);
                    }
                }
            }
            k += 1;
        }

        // Trace phase, global roots: visit every occupied slot.
        let n_globals = self.globals.len();
        let mut g: usize = 0;
        while g < n_globals
            invariant
                g <= n_globals,
                n_globals == self.globals@.len(),
                h0.wf(),
                collect_frame(h0, *self),
                vis_inv(visitor, self.space),
                visitor.sources@ == reach_set(h0),
                reasons_ok(h0, visitor.copied_from@, self.space.objects@, reasons@),
                forall|k2: int|
                    0 <= k2 < h0.scope_slots@.len() ==> traced_to(
                        (#[trigger] h0.scope_slots@[k2]).ptr,
                        self.scope_slots@[k2].ptr,
                        self.space.objects@,
                    ),
                forall|k2: int|
                    0 <= k2 < self.scope_slots@.len() ==> value_ok(
                        (#[trigger] self.scope_slots@[k2]).ptr,
                        visitor.space.objects@.len() as int,
                    ),
                forall|g2: int| g <= g2 < n_globals ==> self.globals@[g2] == h0.globals@[g2],
                forall|g2: int|
                    0 <= g2 < g ==> match #[trigger] h0.globals@[g2] {
                        Some(hh) => self.globals@[g2] is Some && traced_to(
                            hh.ptr,
                            self.globals@[g2]->Some_0.ptr,
                            self.space.objects@,
                        ) && value_ok(
                            self.globals@[g2]->Some_0.ptr,
                            visitor.space.objects@.len() as int,
                        ),
                        None => self.globals@[g2] is None,
                    },
            decreases n_globals - g,
        {
            let is_live = self.globals[g].is_some();
            if is_live {
                let t = match &self.globals[g] {
                    Some(h) => h.ptr(),
                    None => vstd::pervasive::unreached(),
                };
                proof {
                    assert(self.globals@[g as int] == h0.globals@[g as int]);
                    assert(value_ok(t, self.space.objects@.len() as int));
                    if is_ptr_bits(t.bits) {
                        assert forall|s: Set<int>| closed(h0, s) implies s.contains(
                            obj_index(t),
                        ) by {
                            assert(h0.globals@[g as int] is Some);
                        }
                        assert(reach_set(h0).contains(obj_index(t)));
                    }
                }
                let ghost cf0 = visitor.copied_from@;
                let ghost objs0 = self.space.objects@;
                let ghost reasons_before = reasons@;
                let dlen_before = visitor.space.objects.len();
                let t2 = visitor.visit_value(&mut self.space, t);
                self.globals.set(g, Some(HeapHandle::new(t2)));
                if visitor.space.objects.len() > dlen_before {
                    reasons = Ghost(reasons@.push(CopyReason::FromGlobal { g: g as int }));
                }
                proof {
                    lemma_reasons_stable(
                        h0,
                        cf0,
                        visitor.copied_from@,
                        objs0,
                        self.space.objects@,
                        reasons_before,
                    );
                    if visitor.space.objects@.len() > dlen_before {
                        let j = dlen_before as int;
                        crate::space::lemma_total_alloc_lower(visitor.space.objects@);
                        crate::pointer::lemma_object_encoding(j as u64);
                        assert(t2 == encode_object_index(j as u64));
                        assert(forwarded_to(self.space.objects@, obj_index(t), j));
                        assert(reason_holds(
                            h0,
                            visitor.copied_from@,
                            self.space.objects@,
                            CopyReason::FromGlobal { g: g as int },
                            j,
                        ));
                    }
                    assert forall|j2: int|
                        0 <= j2 < reasons@.len() implies reason_holds(
                        h0,
                        visitor.copied_from@,
                        self.space.objects@,
                        #[trigger] reasons@[j2],
                        j2,
                    ) by {
                        if j2 < reasons_before.len() {
                            assert(reasons@[j2] == reasons_before[j2]);
                        }
                    }
                }
            }
            g += 1;
        }

        // Drain phase: trace the insides of every copy, rebuilding the owner
        // table in copy order. The queue is scanned left to right; it grows
        // as tracing finds more reachable objects.
        let mut new_hosts: Vec<HostValue> = Vec::new();
        let mut scan: usize = 0;
        proof {
            lemma_count_forwarded_bounds(
                self.space.objects@,
                self.space.objects@.len() as int,
            );
        }
        while scan < visitor.queue.len()
            invariant
                h0.wf(),
                collect_frame(h0, *self),
                vis_inv(visitor, self.space),
                visitor.sources@ == reach_set(h0),
                reasons_ok(h0, visitor.copied_from@, self.space.objects@, reasons@),
                roots_traced(h0, *self, visitor.space.objects@.len() as int),
                scan <= visitor.queue@.len(),
                visitor.queue@.len() <= h0.n_objects(),
                new_hosts@.len() == scan,
                forall|j2: int|
                    0 <= j2 < scan ==> view_traced(
                        h0.host_view(visitor.copied_from@[j2]),
                        (#[trigger] new_hosts@[j2])@,
                        self.space.objects@,
                    ),
                forall|j2: int|
                    0 <= j2 < scan ==> host_ok(
                        (#[trigger] new_hosts@[j2])@,
                        visitor.space.objects@.len() as int,
                    ),
            decreases h0.n_objects() - scan,
        {
            let p = visitor.queue[scan];
            proof {
                assert(visitor.queue@[scan as int].index == scan);
            }
            let cell = TraceableObject::load(&visitor.space, p);
            let i = cell.host_index;
            let ghost ipar = visitor.copied_from@[scan as int];
            let n_src_exec = self.space.objects.len();
            proof {
                assert(self.space.objects@.len() == n_src_exec);
                assert(0 <= ipar < self.space.objects@.len());
                assert(0 <= ipar < h0.n_objects());
                assert(ipar <= usize::MAX);
                assert(same_but_fwd(
                    self.space.objects@[ipar],
                    visitor.space.objects@[scan as int],
                ));
                assert(same_but_fwd(self.space.objects@[ipar], h0.space.objects@[ipar]));
                assert(h0.space.objects@[ipar].payload == (TraceableObject {
                    host_index: ipar as usize,
                }));
                assert(i as int == ipar);
                assert(self.hosts@[ipar] == h0.hosts@[ipar]);
            }
            let ghost v0 = h0.host_view(ipar);
            let ghost cf_pre = visitor.copied_from@;
            let ghost objs_pre = self.space.objects@;
            let traced_value: HostValue = match &self.hosts[i] {
                HostValue::Str(s) => HostValue::Str(s.clone()),
                HostValue::ListV(l) => {
                    let mut vals: Vec<HeapHandle<()>> = Vec::new();
                    let n_items = l.values.len();
                    let mut c: usize = 0;
                    while c < n_items
                        invariant
                            c <= n_items,
                            n_items == l.values@.len(),
                            vals@.len() == c,
                            forall|c2: int|
                                0 <= c2 < c ==> (#[trigger] vals@[c2]).ptr == l.values@[c2].ptr,
                        decreases n_items - c,
                    {
                        vals.push(HeapHandle::new(l.values[c].ptr));
                        c += 1;
                    }
                    proof {
                        assert(v0 == HostView::ListVw(l@));
                        assert forall|c2: int|
                            0 <= c2 < vals@.len() implies (#[trigger] vals@[c2]).ptr
                            == view_children(v0)[0 + c2] by {
                            assert(view_children(v0)[c2] == l@[c2]);
                        }
                    }
                    let ghost vals0 = vals@;
                    reasons = trace_native_handles(
                        &mut visitor,
                        &mut self.space,
                        &mut vals,
                        Ghost(h0),
                        Ghost(scan as int),
                        Ghost(0),
                        reasons,
                    );
                    let out = HostValue::ListV(List { values: vals });
                    proof {
                        assert forall|c2: int|
                            0 <= c2 < vals0.len() implies traced_to(
                            view_children(v0)[c2],
                            #[trigger] (out@)->ListVw_0[c2],
                            self.space.objects@,
                        ) by {
                            assert(traced_to(
                                vals0[c2].ptr,
                                (out@)->ListVw_0[c2],
                                self.space.objects@,
                            ));
                        }
                        assert(view_traced(v0, out@, self.space.objects@));
                    }
                    out
                },
                HostValue::MapV(m) => {
                    let mut keys: Vec<HeapHandle<()>> = Vec::new();
                    let mut valsv: Vec<HeapHandle<()>> = Vec::new();
                    let n_items = m.entries.len();
                    let mut c: usize = 0;
                    while c < n_items
                        invariant
                            c <= n_items,
                            n_items == m.entries@.len(),
                            keys@.len() == c,
                            valsv@.len() == c,
                            forall|c2: int|
                                0 <= c2 < c ==> (#[trigger] keys@[c2]).ptr
                                    == m.entries@[c2].0.ptr,
                            forall|c2: int|
                                0 <= c2 < c ==> (#[trigger] valsv@[c2]).ptr
                                    == m.entries@[c2].1.ptr,
                        decreases n_items - c,
                    {
                        keys.push(HeapHandle::new(m.entries[c].0.ptr));
                        valsv.push(HeapHandle::new(m.entries[c].1.ptr));
                        c += 1;
                    }
                    proof {
                        assert(v0 == HostView::MapVw(m@));
                        assert forall|c2: int|
                            0 <= c2 < keys@.len() implies (#[trigger] keys@[c2]).ptr
                            == view_children(v0)[0 + c2] by {
                            assert(view_children(v0)[c2] == m@[c2].0);
                        }
                        assert forall|c2: int|
                            0 <= c2 < valsv@.len() implies (#[trigger] valsv@[c2]).ptr
                            == view_children(v0)[n_items + c2] by {
                            assert(view_children(v0)[m@.len() + c2] == m@[c2].1);
                        }
                    }
                    let ghost keys0 = keys@;
                    let ghost valsv0 = valsv@;
                    reasons = trace_native_handles(
                        &mut visitor,
                        &mut self.space,
                        &mut keys,
                        Ghost(h0),
                        Ghost(scan as int),
                        Ghost(0),
                        reasons,
                    );
                    let ghost objs_mid = self.space.objects@;
                    let ghost keys_mid = keys@;
                    reasons = trace_native_handles(
                        &mut visitor,
                        &mut self.space,
                        &mut valsv,
                        Ghost(h0),
                        Ghost(scan as int),
                        Ghost(n_items as int),
                        reasons,
                    );
                    proof {
                        assert forall|c2: int|
                            0 <= c2 < keys_mid.len() implies traced_to(
                            keys0[c2].ptr,
                            (#[trigger] keys_mid[c2]).ptr,
                            self.space.objects@,
                        ) by {
                            lemma_traced_stable(
                                keys0[c2].ptr,
                                keys_mid[c2].ptr,
                                objs_mid,
                                self.space.objects@,
                            );
                        }
                    }
                    let mut entries: Vec<(HeapHandle<()>, HeapHandle<()>)> = Vec::new();
                    let mut c: usize = 0;
                    let n_keys = keys.len();
                    while c < n_keys
                        invariant
                            c <= n_keys,
                            n_keys == keys@.len(),
                            valsv@.len() == keys@.len(),
                            entries@.len() == c,
                            forall|c2: int|
                                0 <= c2 < c ==> (#[trigger] entries@[c2]).0.ptr == keys@[c2].ptr
                                    && entries@[c2].1.ptr == valsv@[c2].ptr,
                        decreases n_keys - c,
                    {
                        entries.push(
                            (HeapHandle::new(keys[c].ptr), HeapHandle::new(valsv[c].ptr)),
                        );
                        c += 1;
                    }
                    let out = HostValue::MapV(ValueMap { entries });
                    proof {
                        assert((out@)->MapVw_0.len() == keys0.len());
                        assert forall|c2: int|
                            0 <= c2 < keys0.len() implies traced_to(
                            (#[trigger] (v0)->MapVw_0[c2]).0,
                            (out@)->MapVw_0[c2].0,
                            self.space.objects@,
                        ) && traced_to(
                            (v0)->MapVw_0[c2].1,
                            (out@)->MapVw_0[c2].1,
                            self.space.objects@,
                        ) by {
                            assert(keys0[c2].ptr == view_children(v0)[0 + c2]);
                            assert(valsv0[c2].ptr == view_children(v0)[keys0.len() + c2]);
                            assert(view_children(v0)[c2] == (v0)->MapVw_0[c2].0);
                            assert(view_children(v0)[keys0.len() + c2] == (v0)->MapVw_0[c2].1);
                            assert(keys@[c2] == keys_mid[c2]);
                            assert(traced_to(
                                keys0[c2].ptr,
                                keys@[c2].ptr,
                                self.space.objects@,
                            ));
                            assert(traced_to(
                                valsv0[c2].ptr,
                                valsv@[c2].ptr,
                                self.space.objects@,
                            ));
                            assert((out@)->MapVw_0[c2].0 == keys@[c2].ptr);
                            assert((out@)->MapVw_0[c2].1 == valsv@[c2].ptr);
                        }
                        assert(view_traced(v0, out@, self.space.objects@));
                    }
                    out
                },
            };
            proof {
                assert(host_ok(traced_value@, visitor.space.objects@.len() as int)) by {
                    lemma_view_traced_children(v0, traced_value@, self.space.objects@);
                }
            }
            new_hosts.push(traced_value);
            scan += 1;
            proof {
                lemma_count_forwarded_bounds(
                    self.space.objects@,
                    self.space.objects@.len() as int,
                );
                assert forall|j2: int|
                    0 <= j2 < scan implies view_traced(
                    h0.host_view(visitor.copied_from@[j2]),
                    (#[trigger] new_hosts@[j2])@,
                    self.space.objects@,
                ) by {
                    if j2 < scan - 1 {
                        assert(visitor.copied_from@[j2] == cf_pre[j2]);
                        lemma_view_traced_stable(
                            h0.host_view(cf_pre[j2]),
                            new_hosts@[j2]@,
                            objs_pre,
                            self.space.objects@,
                        );
                    } else {
                        assert(visitor.copied_from@[j2] == ipar);
                    }
                }
                assert forall|k2: int|
                    0 <= k2 < h0.scope_slots@.len() implies traced_to(
                    (#[trigger] h0.scope_slots@[k2]).ptr,
                    self.scope_slots@[k2].ptr,
                    self.space.objects@,
                ) by {
                    lemma_traced_stable(
                        h0.scope_slots@[k2].ptr,
                        self.scope_slots@[k2].ptr,
                        objs_pre,
                        self.space.objects@,
                    );
                }
                assert forall|g2: int|
                    0 <= g2 < h0.globals@.len() implies match #[trigger] h0.globals@[g2] {
                    Some(hh) => self.globals@[g2] is Some && traced_to(
                        hh.ptr,
                        self.globals@[g2]->Some_0.ptr,
                        self.space.objects@,
                    ) && value_ok(
                        self.globals@[g2]->Some_0.ptr,
                        visitor.space.objects@.len() as int,
                    ),
                    None => self.globals@[g2] is None,
                } by {
                    match h0.globals@[g2] {
                        Some(hh) => {
                            lemma_traced_stable(
                                hh.ptr,
                                self.globals@[g2]->Some_0.ptr,
                                objs_pre,
                                self.space.objects@,
                            );
                        },
                        None => {},
                    }
                }
            }
        }

        // Weak-sweep phase: every surviving native has already been moved, in
        // copy order, into the rebuilt owner table; everything left behind in
        // the old table is doomed.
        let ghost dsnap = visitor.space.objects@;
        let ghost vis_pre = visitor;
        let ghost src_final = self.space;
        proof {
            lemma_count_forwarded_bounds(
                src_final.objects@,
                src_final.objects@.len() as int,
            );
            assert(new_hosts@.len() == dsnap.len());
            assert(self.hosts@.len() == h0.n_objects());
            assert(dsnap.len() <= h0.n_objects());
            assert(collect_frame(h0, *self));
            assert(vis_inv(vis_pre, src_final));
            assert(roots_traced(h0, *self, dsnap.len() as int));
            assert(reasons_ok(h0, vis_pre.copied_from@, src_final.objects@, reasons@));
            assert(forall|j2: int|
                0 <= j2 < new_hosts@.len() ==> view_traced(
                    h0.host_view(vis_pre.copied_from@[j2]),
                    (#[trigger] new_hosts@[j2])@,
                    src_final.objects@,
                ));
            assert(forall|j2: int|
                0 <= j2 < new_hosts@.len() ==> host_ok(
                    (#[trigger] new_hosts@[j2])@,
                    dsnap.len() as int,
                ));
        }
        let survivors = new_hosts.len();
        let doomed_count = self.hosts.len() - survivors;

        // Point each copy's payload cell at its slot in the rebuilt table.
        let n_dest = visitor.space.objects.len();
        let mut j: usize = 0;
        while j < n_dest
            invariant
                j <= n_dest,
                n_dest == visitor.space.objects@.len(),
                visitor.space.objects@.len() == dsnap.len(),
                visitor.space.next == vis_pre.space.next,
                visitor.space.size_in_bytes == vis_pre.space.size_in_bytes,
                forall|j2: int| j <= j2 < n_dest ==> visitor.space.objects@[j2] == dsnap[j2],
                forall|j2: int|
                    0 <= j2 < j ==> (#[trigger] visitor.space.objects@[j2]).header
                        == dsnap[j2].header && visitor.space.objects@[j2].payload
                        == (TraceableObject { host_index: j2 as usize }),
            decreases n_dest - j,
        {
            let mut obj = visitor.space.objects[j];
            obj.payload = TraceableObject { host_index: j };
            visitor.space.objects.set(j, obj);
            j += 1;
        }

        // Swap spaces, then drop the doomed natives only after the swap.
        let ObjectVisitor { space: new_space, queue: _, copied_from: _, sources: _ } = visitor;
        self.space = new_space;
        self.hosts = new_hosts;
        self.finalized = match self.finalized.checked_add(doomed_count) {
            Some(v) => v,
            None => usize::MAX,
        };

        proof {
            let h1 = *self;
            let cf = vis_pre.copied_from@;
            let f = fwd_map(src_final.objects@);
            let n1 = h1.n_objects();
            crate::space::lemma_total_alloc_lower(h1.space.objects@);
            lemma_total_alloc_same_footprints(dsnap, h1.space.objects@);
            lemma_sum_in_same_footprints(
                src_final.objects@,
                h0.space.objects@,
                crate::object::fwd_set(src_final.objects@),
                n0,
            );
            assert(f.dom() =~= crate::object::fwd_set(src_final.objects@));
            crate::space::lemma_sum_in_le_total(h0.space.objects@, f.dom(), n0);
            assert(h0.space.objects@.subrange(0, n0) =~= h0.space.objects@);

            // The forwarding map is inverse to the copy record.
            assert forall|i: int| #[trigger] f.dom().contains(i) implies 0 <= i < n0 && 0 <= f[i]
                < n1 && cf[f[i]] == i by {
                assert(crate::object::is_forwarded(src_final.objects@[i]));
            }

            // Well-formedness of the collected heap.
            assert forall|i2: int|
                0 <= i2 < n1 implies {
                let o = #[trigger] h1.space.objects@[i2];
                &&& o.header.object_type == ObjectType::Host
                &&& o.header.object_size == HOST_PAYLOAD_SIZE
                &&& o.header.new_header_ptr is None
                &&& o.payload == (TraceableObject { host_index: i2 as usize })
            } by {
                let i0 = cf[i2];
                assert(same_but_fwd(src_final.objects@[i0], dsnap[i2]));
                assert(same_but_fwd(src_final.objects@[i0], h0.space.objects@[i0]));
            }

            // Contents of every copy are the old contents remapped.
            assert forall|i: int| #[trigger] f.dom().contains(i) implies h1.host_view(f[i])
                == remap_view(h0.host_view(i), f) by {
                let j2 = f[i];
                assert(cf[j2] == i);
                assert(view_traced(h0.host_view(i), h1.hosts@[j2]@, src_final.objects@));
                lemma_view_traced_remap(h0.host_view(i), h1.hosts@[j2]@, src_final.objects@);
            }

            // Roots are rewritten to their remapped values.
            assert forall|k2: int|
                0 <= k2 < h0.scope_slots@.len() implies {
                let t = (#[trigger] h0.scope_slots@[k2]).ptr;
                &&& (is_ptr_bits(t.bits) ==> f.dom().contains(obj_index(t)))
                &&& h1.scope_slots@[k2].ptr == remap_value(t, f)
            } by {
                assert(traced_to(
                    h0.scope_slots@[k2].ptr,
                    h1.scope_slots@[k2].ptr,
                    src_final.objects@,
                ));
            }
            assert forall|g2: int|
                0 <= g2 < h0.globals@.len() implies match #[trigger] h0.globals@[g2] {
                Some(hh) => {
                    &&& h1.globals@[g2] is Some
                    &&& (is_ptr_bits(hh.ptr.bits) ==> f.dom().contains(obj_index(hh.ptr)))
                    &&& h1.globals@[g2]->Some_0.ptr == remap_value(hh.ptr, f)
                },
                None => h1.globals@[g2] is None,
            } by {
                match h0.globals@[g2] {
                    Some(hh) => {
                        assert(traced_to(
                            hh.ptr,
                            h1.globals@[g2]->Some_0.ptr,
                            src_final.objects@,
                        ));
                    },
                    None => {},
                }
            }

            // Copying is closed under tracing.
            assert forall|i: int, c: int|
                #![trigger f.dom().contains(i), view_children(h0.host_view(i))[c]]
                f.dom().contains(i) && 0 <= c < view_children(h0.host_view(i)).len()
                    && is_ptr_bits(
                    view_children(h0.host_view(i))[c].bits,
                ) implies f.dom().contains(obj_index(view_children(h0.host_view(i))[c])) by {
                let j2 = f[i];
                assert(view_traced(h0.host_view(i), h1.hosts@[j2]@, src_final.objects@));
                lemma_view_traced_children(h0.host_view(i), h1.hosts@[j2]@, src_final.objects@);
                assert(traced_to(
                    view_children(h0.host_view(i))[c],
                    view_children(h1.hosts@[j2]@)[c],
                    src_final.objects@,
                ));
            }

            // Only reachable objects were copied.
            assert forall|s: Set<int>, i: int|
                #![trigger closed(h0, s), f.dom().contains(i)]
                closed(h0, s) && f.dom().contains(i) implies s.contains(i) by {
                assert(vis_pre.sources@.contains(cf[f[i]]));
                assert(reach_set(h0).contains(i));
            }

            // The collected heap is well-formed.
            assert(h1.space.objects@.len() == dsnap.len());
            assert(h1.hosts@.len() == dsnap.len());
            assert(h1.space.inv());
            assert(h1.space.next == total_alloc(h1.space.objects@));
            assert forall|k2: int|
                0 <= k2 < h1.scope_slots@.len() implies value_ok(
                (#[trigger] h1.scope_slots@[k2]).ptr,
                n1,
            ) by {
                assert(traced_to(
                    h0.scope_slots@[k2].ptr,
                    h1.scope_slots@[k2].ptr,
                    src_final.objects@,
                ));
                assert(value_ok(h1.scope_slots@[k2].ptr, dsnap.len() as int));
            }
            assert forall|g2: int|
                0 <= g2 < h1.globals@.len() implies match #[trigger] h1.globals@[g2] {
                Some(t) => value_ok(t.ptr, n1),
                None => true,
            } by {
                match h0.globals@[g2] {
                    Some(hh) => {
                        assert(value_ok(h1.globals@[g2]->Some_0.ptr, dsnap.len() as int));
                    },
                    None => {
                        assert(h1.globals@[g2] is None);
                    },
                }
            }
            assert forall|i2: int| 0 <= i2 < n1 implies host_ok(
                #[trigger] h1.hosts@[i2]@,
                n1,
            ) by {
                assert(host_ok(new_hosts@[i2]@, dsnap.len() as int));
            }
            assert(h1.wf());

            // And fully live: every object lies in every closed set.
            assert forall|s: Set<int>| closed(h1, s) implies forall|j2: int|
                0 <= j2 < n1 ==> #[trigger] s.contains(j2) by {
                assert forall|j2: int| 0 <= j2 < n1 implies #[trigger] s.contains(j2) by {
                    lemma_new_heap_live(
                        h0,
                        h1,
                        f,
                        cf,
                        reasons@,
                        src_final.objects@,
                        s,
                        j2,
                    );
                }
            }

            assert(collect_post(h0, h1, f, cf));
        }
        Ok(())
    }
}

// ---------------------------------------------------------------------------
// Laws of collection.
// ---------------------------------------------------------------------------

/// The reachable set is itself closed: it holds every root target, and the
/// children of its members. So the occupancy bound below applies to it.
pub proof fn lemma_reach_set_closed(h: Heap)
    ensures
        closed(h, reach_set(h)),
{
    let r = reach_set(h);
    assert forall|k: int|
        0 <= k < h.scope_slots@.len() && is_ptr_bits(
            (#[trigger] h.scope_slots@[k]).ptr.bits,
        ) implies r.contains(obj_index(h.scope_slots@[k].ptr)) by {
        assert forall|s: Set<int>| closed(h, s) implies s.contains(
            obj_index(h.scope_slots@[k].ptr),
        ) by {
            assert(0 <= k < h.scope_slots@.len());
        }
    }
    assert forall|g: int| 0 <= g < h.globals@.len() implies match #[trigger] h.globals@[g] {
        Some(hh) => is_ptr_bits(hh.ptr.bits) ==> r.contains(obj_index(hh.ptr)),
        None => true,
    } by {
        match h.globals@[g] {
            Some(hh) => {
                if is_ptr_bits(hh.ptr.bits) {
                    assert forall|s: Set<int>| closed(h, s) implies s.contains(
                        obj_index(hh.ptr),
                    ) by {
                        assert(h.globals@[g] is Some);
                    }
                }
            },
            None => {},
        }
    }
    assert forall|i: int, c: int|
        #![trigger r.contains(i), view_children(h.host_view(i))[c]]
        r.contains(i) && 0 <= i < h.n_objects() && 0 <= c < view_children(h.host_view(i)).len()
            && is_ptr_bits(view_children(h.host_view(i))[c].bits) implies r.contains(
        obj_index(view_children(h.host_view(i))[c]),
    ) by {
        assert forall|s: Set<int>| closed(h, s) implies s.contains(
            obj_index(view_children(h.host_view(i))[c]),
        ) by {
            assert(s.contains(i));
        }
    }
}

/// After a collection, occupancy never exceeds the footprint of the objects
/// in any closed — hence any reachable — set of the old heap: the collector
/// paid only for what the roots reach.
pub proof fn lemma_collect_used_bounded(
    h0: Heap,
    h1: Heap,
    f: Map<int, int>,
    back: Seq<int>,
    s: Set<int>,
)
    requires
        collect_post(h0, h1, f, back),
        closed(h0, s),
    ensures
        h1.space.next <= crate::space::sum_alloc_in(h0.space.objects@, s, h0.n_objects()),
{
    crate::space::lemma_sum_in_subset(h0.space.objects@, f.dom(), s, h0.n_objects());
}

/// A local root live across a collection still reaches the same contents: a
/// string keeps its characters, a container keeps its length, and each value
/// it stores is the old value, forwarded.
pub proof fn lemma_root_contents_preserved(
    h0: Heap,
    h1: Heap,
    f: Map<int, int>,
    back: Seq<int>,
    k: int,
)
    requires
        collect_post(h0, h1, f, back),
        0 <= k < h0.scope_slots@.len(),
        is_ptr_bits(h0.scope_slots@[k].ptr.bits),
    ensures
        ({
            let i = obj_index(h0.scope_slots@[k].ptr);
            &&& f.dom().contains(i)
            &&& is_ptr_bits(h1.scope_slots@[k].ptr.bits)
            &&& obj_index(h1.scope_slots@[k].ptr) == f[i]
            &&& h1.host_view(f[i]) == remap_view(h0.host_view(i), f)
            &&& (h0.host_view(i) is StrV ==> h1.host_view(f[i]) == h0.host_view(i))
            &&& view_children(h1.host_view(f[i])).len() == view_children(h0.host_view(i)).len()
        }),
{
    let i = obj_index(h0.scope_slots@[k].ptr);
    assert(f.dom().contains(i));
    crate::space::lemma_total_alloc_lower(h1.space.objects@);
    crate::pointer::lemma_object_encoding(f[i] as u64);
    assert(h1.scope_slots@[k].ptr == encode_object_index(f[i] as u64));
    lemma_remap_children(h0.host_view(i), f);
}

/// Every handle stored inside a surviving host object either kept its value
/// (non-object kinds) or points to the forwarded copy of its old target.
pub proof fn lemma_heap_handles_forwarded(
    h0: Heap,
    h1: Heap,
    f: Map<int, int>,
    back: Seq<int>,
    i: int,
    c: int,
)
    requires
        collect_post(h0, h1, f, back),
        f.dom().contains(i),
        0 <= c < view_children(h0.host_view(i)).len(),
    ensures
        ({
            let t0 = view_children(h0.host_view(i))[c];
            let t1 = view_children(h1.host_view(f[i]))[c];
            &&& (!is_ptr_bits(t0.bits) ==> t1 == t0)
            &&& (is_ptr_bits(t0.bits) ==> f.dom().contains(obj_index(t0)) && t1
                == encode_object_index(f[obj_index(t0)] as u64))
        }),
{
    lemma_remap_children(h0.host_view(i), f);
}

/// An object outside some closed set of the old heap — for example one whose
/// only root was a global handle released before the collection — is not
/// copied: it contributes no surviving bytes, and its native is finalized.
pub proof fn lemma_unreachable_not_copied(
    h0: Heap,
    h1: Heap,
    f: Map<int, int>,
    back: Seq<int>,
    s: Set<int>,
    i: int,
)
    requires
        collect_post(h0, h1, f, back),
        closed(h0, s),
        !s.contains(i),
    ensures
        !f.dom().contains(i),
        h1.space.next == crate::space::sum_alloc_in(h0.space.objects@, f.dom(), h0.n_objects()),
{
}

/// Collection is idempotent on occupancy: run on an unchanged root set right
/// after a collection, it copies exactly the whole — fully live — heap, so
/// `used()` comes out the same.
pub proof fn lemma_collect_idempotent_used(
    h0: Heap,
    h1: Heap,
    h2: Heap,
    f1: Map<int, int>,
    back1: Seq<int>,
    f2: Map<int, int>,
    back2: Seq<int>,
)
    requires
        collect_post(h0, h1, f1, back1),
        collect_post(h1, h2, f2, back2),
    ensures
        h2.space.next == h1.space.next,
{
    let n1 = h1.n_objects();
    // The set of sources the second collection copied is closed in the
    // collected heap...
    assert(closed(h1, f2.dom()));
    // ...and the collected heap is fully live, so that set is everything.
    assert forall|j: int| 0 <= j < n1 implies f2.dom().contains(j) by {
        assert(f2.dom().contains(j));
    }
    crate::space::lemma_sum_in_all(h1.space.objects@, f2.dom(), n1);
    assert(h1.space.objects@.subrange(0, n1) =~= h1.space.objects@);
}

impl Heap {
    /// Allocate a default-constructed native of kind `T` and root it in the
    /// given scope; `scope.create` by its older name.
    pub fn allocate<T: HostObject>(&mut self, scope: &HandleScope) -> (r: Result<
        LocalHandle<T>,
        GCError,
    >)
        requires
            old(self).wf(),
            scope.is_top(*old(self)),
        ensures
            final(self).wf(),
            scope.is_top(*final(self)),
            (old(self).space.next + HOST_ALLOC_SIZE <= old(self).space.size_in_bytes) <==> r is Ok,
            match r {
                Ok(h) => alloc_post::<T>(*old(self), *final(self), h, T::default_view()),
                Err(e) => {
                    &&& e == GCError::NoSpace
                    &&& same_store(*old(self), *final(self))
                    &&& same_roots(*old(self), *final(self))
                },
            },
    {
        scope.create(self)
    }

    /// Move a native onto the heap and root it in the given scope;
    /// `scope.take` by its older name.
    pub fn take<T: HostObject>(&mut self, scope: &HandleScope, object: T) -> (r: Result<
        LocalHandle<T>,
        GCError,
    >)
        requires
            old(self).wf(),
            scope.is_top(*old(self)),
            host_ok(object.value_view(), old(self).n_objects()),
        ensures
            final(self).wf(),
            scope.is_top(*final(self)),
            (old(self).space.next + HOST_ALLOC_SIZE <= old(self).space.size_in_bytes) <==> r is Ok,
            match r {
                Ok(h) => alloc_post::<T>(*old(self), *final(self), h, object.value_view()),
                Err(e) => {
                    &&& e == GCError::NoSpace
                    &&& same_store(*old(self), *final(self))
                    &&& same_roots(*old(self), *final(self))
                },
            },
    {
        scope.take(self, object)
    }

    /// Release a global root: clear its slot. The slot index is never reused
    /// by compaction, so other global handles stay valid.
    pub fn drop_global<T>(&mut self, handle: GlobalHandle<T>)
        requires
            old(self).wf(),
            handle.valid(*old(self)),
        ensures
            final(self).wf(),
            final(self).globals@ == old(self).globals@.update(handle.index as int, None),
            final(self).scope_slots@ == old(self).scope_slots@,
            final(self).scope_starts@ == old(self).scope_starts@,
            same_store(*old(self), *final(self)),
    {
        self.globals.set(handle.index, None);
    }
}

} // verus!
