use vmgc::heap::{HandleScope, Heap};
use vmgc::pointer::{ObjectPtr, TaggedPtr};
use vmgc::types::GCError;

#[test]
pub fn nan_tagging_size_test() {
    assert_eq!(std::mem::size_of::<TaggedPtr>(), 8);
}

#[test]
pub fn nan_tagging_null_test() {
    assert!(TaggedPtr::default().is_null());
    let zero = TaggedPtr::from_num_bits(0.0f64.to_bits());
    assert!(!zero.is_null());
}

#[test]
pub fn nan_tagging_truthiness_test() {
    // This layer intentionally only gives an answer for true and false
    // and leaves what else is "truthy" or "falsey" to the caller.
    assert_eq!(TaggedPtr::from_bool(false).to_bool().unwrap(), false);
    assert_eq!(TaggedPtr::from_bool(true).to_bool().unwrap(), true);
    assert_eq!(TaggedPtr::null().to_bool().ok(), None);

    // Try round-tripping a pointer as well.
    let ptr = ObjectPtr::new(1);
    let tagged = TaggedPtr::from_object(ptr);
    assert_eq!(tagged.to_bool().ok(), None);
    let back = tagged.to_object().unwrap();
    assert_eq!(back.addr(), 1);
}

#[test]
pub fn tagged_ptr_size_test() {
    assert_eq!(std::mem::size_of::<TaggedPtr>(), 8);
}

#[test]
pub fn tagged_ptr_null_test() {
    assert!(TaggedPtr::default().is_null());
    let zero = TaggedPtr::from_num_bits(0.0f64.to_bits());
    assert!(!zero.is_null());
}

#[test]
pub fn tagged_ptr_truthiness_test() {
    assert_eq!(TaggedPtr::from_bool(false).to_bool().unwrap(), false);
    assert_eq!(TaggedPtr::from_bool(true).to_bool().unwrap(), true);
    assert_eq!(TaggedPtr::null().to_bool().ok(), None);

    let ptr = ObjectPtr::new(7);
    let tagged = TaggedPtr::from_object(ptr);
    assert_eq!(tagged.to_bool().ok(), None);
    let back = tagged.to_object().unwrap();
    assert_eq!(back.addr(), 7);
}

#[test]
pub fn pointer_size_test() {
    assert_eq!(std::mem::size_of::<TaggedPtr>(), 8);
}

#[test]
pub fn pointer_null_test() {
    assert!(TaggedPtr::default().is_null());
    let zero = TaggedPtr::from_num_bits(0.0f64.to_bits());
    assert!(!zero.is_null());
}

#[test]
pub fn pointer_truthiness_test() {
    assert_eq!(TaggedPtr::from_bool(false).to_bool().unwrap(), false);
    assert_eq!(TaggedPtr::from_bool(true).to_bool().unwrap(), true);
    assert_eq!(TaggedPtr::null().to_bool().ok(), None);

    let mut heap = Heap::new(1000).unwrap();
    let scope = HandleScope::new(&mut heap);
    let one = heap.take(&scope, "1".to_string()).unwrap();
    let tagged = one.ptr(&heap);
    assert_eq!(tagged.to_bool().ok(), None);
}

#[test]
pub fn eq_test() {
    let mut heap = Heap::new(1000).unwrap();

    let t_true = TaggedPtr::from_bool(true);
    let t_false = TaggedPtr::from_bool(false);
    let t_null = TaggedPtr::null();
    assert!(heap.value_eq(t_true, t_true));
    assert!(!heap.value_eq(t_true, t_false));
    assert!(!heap.value_eq(t_null, t_false));
    let zero = TaggedPtr::from_num_bits(0.0f64.to_bits());
    assert!(!heap.value_eq(t_null, zero));
    assert!(!heap.value_eq(t_false, zero));

    let scope = HandleScope::new(&mut heap);
    let one = heap.take(&scope, "1".to_string()).unwrap().ptr(&heap);
    let also_one = heap.take(&scope, "1".to_string()).unwrap().ptr(&heap);
    let two = heap.take(&scope, "2".to_string()).unwrap().ptr(&heap);
    assert!(heap.value_eq(one, one));
    assert!(heap.value_eq(one, also_one));
    assert!(!heap.value_eq(one, two));
}

#[test]
fn num_round_trip_test() {
    for x in [0.0f64, -0.0, 1.5, -3.25, f64::MAX, f64::MIN_POSITIVE, f64::INFINITY] {
        let t = TaggedPtr::from_num_bits(x.to_bits());
        assert!(t.is_num());
        assert_eq!(f64::from_bits(t.to_num_bits().unwrap()), x);
    }
    // A hardware NaN leaves the boxing bit clear, so it reads back as the
    // same bit pattern.
    let nan = f64::NAN;
    let t = TaggedPtr::from_num_bits(nan.to_bits());
    assert!(t.is_num());
    assert_eq!(t.to_num_bits().unwrap(), nan.to_bits());
}

#[test]
fn object_round_trip_test() {
    for index in [0usize, 1, 2, 1023, 0x00ff_ffff] {
        let t = TaggedPtr::from_object(ObjectPtr::new(index));
        assert!(t.is_ptr());
        assert!(!t.is_num());
        assert!(!t.is_bool());
        assert!(!t.is_null());
        assert_eq!(t.to_object().unwrap().index, index);
    }
}

#[test]
fn mismatched_conversions_test() {
    let num = TaggedPtr::from_num_bits(2.5f64.to_bits());
    assert_eq!(num.to_bool(), Err(GCError::TypeError));
    assert_eq!(num.to_object(), Err(GCError::TypeError));
    // The source value is unchanged after a failed narrowing.
    assert_eq!(f64::from_bits(num.to_num_bits().unwrap()), 2.5);

    let boolean = TaggedPtr::from_bool(true);
    assert_eq!(boolean.to_num_bits(), Err(GCError::TypeError));
    assert_eq!(boolean.to_object(), Err(GCError::TypeError));
    assert_eq!(boolean.to_bool(), Ok(true));

    let null = TaggedPtr::null();
    assert_eq!(null.to_num_bits(), Err(GCError::TypeError));
    assert_eq!(null.to_bool(), Err(GCError::TypeError));
    assert_eq!(null.to_object(), Err(GCError::TypeError));

    let obj = TaggedPtr::from_object(ObjectPtr::new(3));
    assert_eq!(obj.to_num_bits(), Err(GCError::TypeError));
    assert_eq!(obj.to_bool(), Err(GCError::TypeError));
}

#[test]
fn singletons_disjoint_from_doubles_test() {
    // Singleton encodings collide with no double encoding: positive and
    // negative zero, the infinities, and the NaN patterns arithmetic makes
    // all decode as numbers, never as null, true or false.
    let doubles = [
        0.0f64.to_bits(),
        (-0.0f64).to_bits(),
        f64::INFINITY.to_bits(),
        f64::NEG_INFINITY.to_bits(),
        f64::NAN.to_bits(),
        (-f64::NAN).to_bits(),
        (0.0f64 / 0.0f64).to_bits(),
        (f64::INFINITY - f64::INFINITY).to_bits(),
    ];
    for bits in doubles {
        let t = TaggedPtr::from_num_bits(bits);
        assert!(t.is_num());
        assert!(!t.is_null());
        assert!(!t.is_bool());
        assert!(!t.is_ptr());
    }
    assert!(!TaggedPtr::null().is_num());
    assert!(!TaggedPtr::from_bool(true).is_num());
    assert!(!TaggedPtr::from_bool(false).is_num());
}
