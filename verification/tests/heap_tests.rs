use vmgc::heap::{DowncastTo, HandleScope, Heap, LocalHandle, Num};
use vmgc::object::{HeapHandle, List, ValueMap};

#[test]
pub fn heap_smoke_test() {
    let mut heap = Heap::new(1000).unwrap();
    assert_eq!(heap.used(), 0);
    let scope = HandleScope::new(&mut heap);
    let one = scope.create::<String>(&mut heap).unwrap();
    let two = scope.create::<String>(&mut heap).unwrap();
    std::mem::drop(one);
    let two_global = two.to_global(&mut heap);
    scope.close(&mut heap);
    let used_before_collection = heap.used();
    heap.collect().unwrap();
    let used_after_collection = heap.used();
    assert!(0 < used_after_collection);
    assert!(used_before_collection > used_after_collection);
    heap.drop_global(two_global);
    heap.collect().unwrap();
    assert_eq!(0, heap.used());
}

#[test]
fn heap_finalizer_test() {
    let mut heap = Heap::new(1000).unwrap();
    let scope = HandleScope::new(&mut heap);
    let handle = scope.create::<String>(&mut heap).unwrap();
    std::mem::drop(handle);
    assert_eq!(0, heap.finalized_count());
    scope.close(&mut heap);
    assert_eq!(0, heap.finalized_count());
    heap.collect().ok();
    assert_eq!(1, heap.finalized_count());
}

#[test]
fn heap_tracing_test() {
    let mut heap = Heap::new(1000).unwrap();
    let scope = HandleScope::new(&mut heap);
    let handle = scope.create::<List>(&mut heap).unwrap();

    for _ in 0..3 {
        let item = scope.create::<String>(&mut heap).unwrap();
        heap.list_push(&handle, HeapHandle::new(item.ptr(&heap)));
    }

    let used = heap.used();
    heap.collect().ok();
    assert_eq!(used, heap.used());
    std::mem::drop(handle);
    heap.collect().ok();
    assert_eq!(used, heap.used());
    scope.close(&mut heap);
    heap.collect().ok();
    assert_eq!(0, heap.used());
}

#[test]
fn heap_tagged_num_test() {
    let mut heap = Heap::new(1000).unwrap();
    let scope = HandleScope::new(&mut heap);

    let a = scope.create_num(&mut heap, 1.0f64.to_bits());
    let b = scope.create_num(&mut heap, 2.0f64.to_bits());
    assert_eq!(0, heap.used());
    let a_value = f64::from_bits(a.ptr(&heap).to_num_bits().unwrap());
    assert_eq!(1.0, a_value);
    let b_value = f64::from_bits(b.ptr(&heap).to_num_bits().unwrap());
    assert_eq!(2.0, b_value);
}

#[test]
fn heap_add_f64_test() {
    let mut heap = Heap::new(1000).unwrap();
    let scope = HandleScope::new(&mut heap);
    let one = scope.create_num(&mut heap, 1.0f64.to_bits());
    let two = scope.create_num(&mut heap, 2.0f64.to_bits());
    let one_value = f64::from_bits(one.ptr(&heap).to_num_bits().unwrap());
    assert_eq!(1.0, one_value);
    let two_value = f64::from_bits(two.ptr(&heap).to_num_bits().unwrap());
    assert_eq!(2.0, two_value);
    let three_value = one_value + two_value;
    let three = scope.create_num(&mut heap, three_value.to_bits());
    let three_global = three.to_global(&mut heap);
    scope.close(&mut heap);

    let scope = HandleScope::new(&mut heap);
    let three = scope.from_global(&mut heap, &three_global);
    let three_value = f64::from_bits(three.ptr(&heap).to_num_bits().unwrap());
    assert_eq!(3.0, three_value);
}

#[test]
fn heap_list_push_test() {
    let mut heap = Heap::new(1000).unwrap();
    let scope = HandleScope::new(&mut heap);
    let list = scope.create::<List>(&mut heap).unwrap();
    let one = scope.create_num(&mut heap, 1.0f64.to_bits());
    heap.list_push(&list, HeapHandle::new(one.ptr(&heap)));
    heap.collect().ok();
    let list_value = list.as_ref(&heap);
    assert_eq!(list_value.len(), 1);
}

#[test]
fn heap_string_test() {
    let mut heap = Heap::new(1000).unwrap();
    let scope = HandleScope::new(&mut heap);
    let string_handle = scope.create::<String>(&mut heap).unwrap();
    heap.collect().ok();
    let string_value = string_handle.as_ref(&heap);
    assert_eq!(string_value, "");
}

#[test]
fn heap_take_string_test() {
    let mut heap = Heap::new(1000).unwrap();
    let scope = HandleScope::new(&mut heap);
    let string_handle = scope.take(&mut heap, "Foo".to_string()).unwrap();
    heap.collect().ok();
    let string_value = string_handle.as_ref(&heap);
    assert_eq!(string_value, "Foo");
}

#[test]
fn heap_list_push_string_twice_test() {
    let mut heap = Heap::new(1000).unwrap();
    let scope = HandleScope::new(&mut heap);
    let list = scope.create::<List>(&mut heap).unwrap();
    let string = scope.str(&mut heap, "Foo").unwrap();
    heap.list_push(&list, HeapHandle::new(string.ptr(&heap)));
    heap.list_push(&list, HeapHandle::new(string.ptr(&heap)));
    heap.collect().ok();
    assert_eq!(list.as_ref(&heap).len(), 2);
    let e0 = list.as_ref(&heap).get(0);
    assert_eq!(heap.deref::<String>(e0.ptr()), "Foo");
    let e1 = list.as_ref(&heap).get(1);
    assert_eq!(heap.deref::<String>(e1.ptr()), "Foo");
    heap.string_append(&string, "Bar");
    let e0 = list.as_ref(&heap).get(0);
    assert_eq!(heap.deref::<String>(e0.ptr()), "FooBar");
}

#[test]
fn heap_map_insert_test() {
    let mut heap = Heap::new(1000).unwrap();
    let scope = HandleScope::new(&mut heap);
    let map = scope.create::<ValueMap>(&mut heap).unwrap();
    let foo = scope.str(&mut heap, "Foo").unwrap();
    let bar = scope.str(&mut heap, "Bar").unwrap();
    heap.map_insert(
        &map,
        HeapHandle::new(foo.ptr(&heap)),
        HeapHandle::new(bar.ptr(&heap)),
    );

    // Check if lookup works before collect, with a freshly allocated key of
    // identical contents.
    {
        let fresh = scope.str(&mut heap, "Foo").unwrap();
        let got = heap.map_get(&map, fresh.ptr(&heap)).unwrap();
        assert_eq!(heap.deref::<String>(got.ptr()), "Bar");
    }

    heap.collect().ok();

    let fresh = scope.str(&mut heap, "Foo").unwrap();
    let got = heap.map_get(&map, fresh.ptr(&heap)).unwrap();
    assert_eq!(heap.deref::<String>(got.ptr()), "Bar");
}

#[test]
fn typed_handle_test() {
    let mut heap = Heap::new(1000).unwrap();
    let scope = HandleScope::new(&mut heap);

    // Bools
    let boolean: LocalHandle<bool> = scope.create_bool(&mut heap, true);
    let out: bool = boolean.ptr(&heap).to_bool().unwrap();
    assert_eq!(out, true);

    // Nums
    let num: LocalHandle<Num> = scope.create_num(&mut heap, 1.0f64.to_bits());
    let out: f64 = f64::from_bits(num.ptr(&heap).to_num_bits().unwrap());
    assert_eq!(out, 1.0);

    // Null
    let null: LocalHandle<()> = scope.create_null(&mut heap);
    assert_eq!(null.is_null(&heap), true);

    // Host objects (e.g. String)
    let string: LocalHandle<String> = scope.str(&mut heap, "Foo").unwrap();
    assert_eq!(string.as_ref(&heap), "Foo");

    // Untyped handles
    let untyped = num.erase_type();
    let out: f64 = f64::from_bits(untyped.ptr(&heap).to_num_bits().unwrap());
    assert_eq!(out, 1.0);
}

#[test]
fn downcast_to_typed_handle_test() {
    let mut heap = Heap::new(1000).unwrap();
    let scope = HandleScope::new(&mut heap);

    // Bools
    let untyped: LocalHandle<()> = scope.create_bool(&mut heap, true).erase_type();
    let maybe_string: Option<LocalHandle<String>> = untyped.clone().try_downcast(&heap);
    let maybe_bool: Option<LocalHandle<bool>> = untyped.clone().try_downcast(&heap);
    let maybe_num: Option<LocalHandle<Num>> = untyped.clone().try_downcast(&heap);
    assert!(maybe_string.is_none());
    assert!(maybe_bool.is_some());
    assert!(maybe_num.is_none());

    // Nums
    let untyped: LocalHandle<()> = scope.create_num(&mut heap, 1.0f64.to_bits()).erase_type();
    let maybe_string: Option<LocalHandle<String>> = untyped.clone().try_downcast(&heap);
    let maybe_bool: Option<LocalHandle<bool>> = untyped.clone().try_downcast(&heap);
    let maybe_num: Option<LocalHandle<Num>> = untyped.clone().try_downcast(&heap);
    assert!(maybe_string.is_none());
    assert!(maybe_bool.is_none());
    assert!(maybe_num.is_some());

    // Null
    let untyped: LocalHandle<()> = scope.create_null(&mut heap);
    let maybe_string: Option<LocalHandle<String>> = untyped.clone().try_downcast(&heap);
    let maybe_bool: Option<LocalHandle<bool>> = untyped.clone().try_downcast(&heap);
    let maybe_num: Option<LocalHandle<Num>> = untyped.clone().try_downcast(&heap);
    assert!(maybe_string.is_none());
    assert!(maybe_bool.is_none());
    assert!(maybe_num.is_none());

    // Host objects (e.g. String)
    let untyped: LocalHandle<()> = scope.str(&mut heap, "Foo").unwrap().erase_type();
    let maybe_string: Option<LocalHandle<String>> = untyped.clone().try_downcast(&heap);
    let maybe_bool: Option<LocalHandle<bool>> = untyped.clone().try_downcast(&heap);
    let maybe_num: Option<LocalHandle<Num>> = untyped.clone().try_downcast(&heap);
    assert!(maybe_string.is_some());
    assert!(maybe_bool.is_none());
    assert!(maybe_num.is_none());
}
