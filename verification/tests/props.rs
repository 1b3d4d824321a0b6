use vmgc::heap::{HandleScope, Heap, HOST_ALLOC_SIZE};
use vmgc::object::{HeapHandle, List, ValueMap};
use vmgc::pointer::TaggedPtr;
use vmgc::space::{Space, MAX_SPACE_BYTES};
use vmgc::types::GCError;

#[test]
fn space_alloc_boundary_test() {
    // Allocating exactly the free bytes succeeds; one more byte fails.
    let mut space = Space::new(96).unwrap();
    assert_eq!(space.free_bytes(), 96);
    assert!(space.allocate(40).is_ok());
    assert_eq!(space.used_bytes(), 40);
    assert_eq!(space.free_bytes(), 56);
    assert!(space.allocate(56).is_ok());
    assert_eq!(space.free_bytes(), 0);
    assert_eq!(space.allocate(1), Err(GCError::NoSpace));
    assert_eq!(space.used_bytes(), 96);
    assert!(space.allocate(0).is_ok());
}

#[test]
fn space_os_out_of_memory_test() {
    assert!(Space::new(MAX_SPACE_BYTES).is_ok());
    match Space::new(MAX_SPACE_BYTES + 1) {
        Err(GCError::OSOutOfMemory) => {},
        _ => panic!("an over-large region must be refused"),
    }
}

#[test]
fn heap_alloc_boundary_test() {
    // Each host object costs exactly its header plus one payload word. A
    // heap sized for one object takes the first allocation and refuses the
    // second with NoSpace, leaving the heap unchanged.
    let mut heap = Heap::new(2 * HOST_ALLOC_SIZE).unwrap();
    let scope = HandleScope::new(&mut heap);
    assert!(scope.create::<String>(&mut heap).is_ok());
    assert_eq!(heap.used(), HOST_ALLOC_SIZE);
    match scope.create::<String>(&mut heap) {
        Err(GCError::NoSpace) => {},
        _ => panic!("the second object must not fit"),
    }
    assert_eq!(heap.used(), HOST_ALLOC_SIZE);
}

#[test]
fn heap_handle_default_is_null_test() {
    let handle: HeapHandle<()> = HeapHandle::default();
    assert!(handle.is_null());
    assert!(!handle.is_num());
    assert!(!handle.is_bool());
}

#[test]
fn heap_handle_take_and_set_test() {
    let mut handle = HeapHandle::new(TaggedPtr::from_bool(true));
    let taken = handle.take();
    assert!(handle.is_null());
    assert_eq!(taken.ptr().to_bool(), Ok(true));
    handle.set_ptr(TaggedPtr::from_num_bits(4.5f64.to_bits()));
    assert!(handle.is_num());
    let erased = handle.erase_type();
    assert_eq!(f64::from_bits(erased.ptr().to_num_bits().unwrap()), 4.5);
}

#[test]
fn empty_containers_trace_nothing_test() {
    // An empty list and an empty map own no handles, so a collection keeps
    // them as they are and copies nothing through them.
    let mut heap = Heap::new(1000).unwrap();
    let scope = HandleScope::new(&mut heap);
    let list = scope.create::<List>(&mut heap).unwrap();
    let map = scope.create::<ValueMap>(&mut heap).unwrap();
    let used = heap.used();
    assert_eq!(used, 2 * HOST_ALLOC_SIZE);
    heap.collect().unwrap();
    assert_eq!(heap.used(), used);
    assert!(list.as_ref(&heap).is_empty());
    assert_eq!(list.as_ref(&heap).len(), 0);
    assert!(map.as_ref(&heap).is_empty());
    assert_eq!(map.as_ref(&heap).len(), 0);
}

#[test]
fn finalizer_runs_exactly_once_test() {
    // An unreachable object is finalized by the first collection after it
    // dies, and never again by later ones.
    let mut heap = Heap::new(1000).unwrap();
    let scope = HandleScope::new(&mut heap);
    let _doomed = scope.create::<String>(&mut heap).unwrap();
    scope.close(&mut heap);
    assert_eq!(0, heap.finalized_count());
    heap.collect().unwrap();
    assert_eq!(1, heap.finalized_count());
    heap.collect().unwrap();
    assert_eq!(1, heap.finalized_count());
    heap.collect().unwrap();
    assert_eq!(1, heap.finalized_count());
}

#[test]
fn numeric_round_trip_across_collection_test() {
    // Compute 1.0 + 2.0 in a scope, store the sum in a global, drop the
    // scope, collect, and read 3.0 back through a fresh scope.
    let mut heap = Heap::new(1000).unwrap();
    let scope = HandleScope::new(&mut heap);
    let one = scope.create_num(&mut heap, 1.0f64.to_bits());
    let two = scope.create_num(&mut heap, 2.0f64.to_bits());
    let sum = f64::from_bits(one.ptr(&heap).to_num_bits().unwrap())
        + f64::from_bits(two.ptr(&heap).to_num_bits().unwrap());
    let sum_global = scope.create_num(&mut heap, sum.to_bits()).to_global(&mut heap);
    scope.close(&mut heap);
    heap.collect().unwrap();
    let scope = HandleScope::new(&mut heap);
    let back = scope.from_global(&mut heap, &sum_global);
    assert_eq!(f64::from_bits(back.ptr(&heap).to_num_bits().unwrap()), 3.0);
}

#[test]
fn collect_used_is_idempotent_test() {
    // With an unchanging root set, a second collection reports the same
    // occupancy as the first.
    let mut heap = Heap::new(1000).unwrap();
    let scope = HandleScope::new(&mut heap);
    let list = scope.create::<List>(&mut heap).unwrap();
    let kept = scope.str(&mut heap, "kept").unwrap();
    heap.list_push(&list, HeapHandle::new(kept.ptr(&heap)));
    let _dead = scope.str(&mut heap, "dead").unwrap();
    let list_global = list.to_global(&mut heap);
    scope.close(&mut heap);
    heap.collect().unwrap();
    let used_first = heap.used();
    assert_eq!(used_first, 2 * HOST_ALLOC_SIZE);
    heap.collect().unwrap();
    assert_eq!(heap.used(), used_first);
    heap.drop_global(list_global);
}

#[test]
fn list_ops_test() {
    // The host-side list before it is taken onto a heap.
    let mut list = List::default();
    assert!(list.is_empty());
    assert!(list.first().is_none());
    assert!(list.last().is_none());
    assert!(list.pop().is_none());
    for bits in [1.0f64, 2.0, 3.0, 4.0] {
        list.push(HeapHandle::new(TaggedPtr::from_num_bits(bits.to_bits())));
    }
    assert_eq!(list.len(), 4);
    assert!(!list.is_empty());
    let first = list.first().unwrap();
    assert_eq!(f64::from_bits(first.ptr().to_num_bits().unwrap()), 1.0);
    let last = list.last().unwrap();
    assert_eq!(f64::from_bits(last.ptr().to_num_bits().unwrap()), 4.0);
    let removed = list.remove(1);
    assert_eq!(f64::from_bits(removed.ptr().to_num_bits().unwrap()), 2.0);
    assert_eq!(list.len(), 3);
    let tail = list.split_off(2);
    assert_eq!(list.len(), 2);
    assert_eq!(tail.len(), 1);
    assert_eq!(f64::from_bits(tail.get(0).ptr().to_num_bits().unwrap()), 4.0);
    let popped = list.pop().unwrap();
    assert_eq!(f64::from_bits(popped.ptr().to_num_bits().unwrap()), 3.0);
    list.truncate(0);
    assert!(list.is_empty());
}

#[test]
fn take_list_with_contents_test() {
    // A host-side list whose handles point at heap objects can be taken onto
    // the heap, and its contents survive a collection.
    let mut heap = Heap::new(1000).unwrap();
    let scope = HandleScope::new(&mut heap);
    let a = scope.str(&mut heap, "a").unwrap();
    let mut list = List::default();
    list.push(HeapHandle::new(a.ptr(&heap)));
    list.push(HeapHandle::new(TaggedPtr::from_bool(false)));
    let list_handle = heap.take(&scope, list).unwrap();
    heap.collect().unwrap();
    let l = list_handle.as_ref(&heap);
    assert_eq!(l.len(), 2);
    assert_eq!(heap.deref::<String>(l.get(0).ptr()), "a");
    assert_eq!(l.get(1).ptr().to_bool(), Ok(false));
}

#[test]
fn map_insert_replaces_value_test() {
    // Inserting under an equal key replaces the stored value and keeps the
    // map's size.
    let mut heap = Heap::new(1000).unwrap();
    let scope = HandleScope::new(&mut heap);
    let map = scope.create::<ValueMap>(&mut heap).unwrap();
    let key = scope.str(&mut heap, "k").unwrap();
    heap.map_insert(
        &map,
        HeapHandle::new(key.ptr(&heap)),
        HeapHandle::new(TaggedPtr::from_num_bits(1.0f64.to_bits())),
    );
    // A fresh key object with the same characters counts as the same key.
    let key_again = scope.str(&mut heap, "k").unwrap();
    heap.map_insert(
        &map,
        HeapHandle::new(key_again.ptr(&heap)),
        HeapHandle::new(TaggedPtr::from_num_bits(2.0f64.to_bits())),
    );
    assert_eq!(map.as_ref(&heap).len(), 1);
    let got = heap.map_get(&map, key.ptr(&heap)).unwrap();
    assert_eq!(f64::from_bits(got.ptr().to_num_bits().unwrap()), 2.0);
    let missing = heap.map_get(&map, TaggedPtr::from_bool(true));
    assert!(missing.is_none());
}

#[test]
fn is_of_type_test() {
    let mut heap = Heap::new(1000).unwrap();
    let scope = HandleScope::new(&mut heap);
    let s = scope.str(&mut heap, "x").unwrap().erase_type();
    assert!(s.is_of_type::<String>(&heap));
    assert!(!s.is_of_type::<List>(&heap));
    assert!(!s.is_of_type::<ValueMap>(&heap));
    let n = scope.create_num(&mut heap, 1.0f64.to_bits()).erase_type();
    assert!(!n.is_of_type::<String>(&heap));
    let got: Option<&String> = s.try_as_ref(&heap);
    assert_eq!(got.unwrap(), "x");
    let not_list: Option<&List> = s.try_as_ref(&heap);
    assert!(not_list.is_none());
}

#[test]
fn global_handle_test() {
    let mut heap = Heap::new(1000).unwrap();
    let scope = HandleScope::new(&mut heap);
    let s = scope.str(&mut heap, "global").unwrap();
    let g = s.to_global(&mut heap);
    assert_eq!(scope.as_ref(&heap, &g), "global");
    let hh = g.to_heap_handle(&heap);
    let local = scope.from_heap(&mut heap, &hh);
    assert_eq!(local.as_ref(&heap), "global");
    let maybe = scope.from_maybe_heap(&mut heap, &Some(hh));
    assert!(maybe.is_some());
    let none: Option<HeapHandle<String>> = None;
    assert!(scope.from_maybe_heap(&mut heap, &none).is_none());
    let erased = g.erase_type();
    scope.close(&mut heap);
    heap.collect().unwrap();
    // The global alone keeps the string alive.
    assert_eq!(heap.used(), HOST_ALLOC_SIZE);
    heap.drop_global(erased);
    heap.collect().unwrap();
    assert_eq!(heap.used(), 0);
}

#[test]
fn error_message_test() {
    assert_eq!(GCError::OSOutOfMemory.message(), "OS failed to provide memory");
    assert_eq!(GCError::NoSpace.message(), "No memory left in space");
    assert_eq!(GCError::TypeError.message(), "Type coercion failed");
}

#[test]
fn heap_new_too_large_test() {
    match Heap::new(2 * MAX_SPACE_BYTES + 2) {
        Err(GCError::OSOutOfMemory) => {},
        _ => panic!("an over-large heap must be refused"),
    }
}

#[test]
fn nested_scopes_test() {
    let mut heap = Heap::new(1000).unwrap();
    let outer = HandleScope::new(&mut heap);
    let kept = outer.str(&mut heap, "outer").unwrap();
    {
        let inner = HandleScope::new(&mut heap);
        let _tmp = inner.str(&mut heap, "inner").unwrap();
        inner.close(&mut heap);
    }
    heap.collect().unwrap();
    // Only the outer scope's string survives.
    assert_eq!(heap.used(), HOST_ALLOC_SIZE);
    assert_eq!(kept.as_ref(&heap), "outer");
    outer.close(&mut heap);
}
