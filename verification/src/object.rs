//! Heap objects and their natives: the payload indirection cell, heap
//! handles, the built-in host object kinds (string, list, map) with the
//! tracing capability they implement, and the visitor that performs the copy
//! phase of a collection.

use vstd::prelude::*;

use core::marker::PhantomData;

use crate::pointer::{is_bool_bits, is_null_bits, is_num_bits, is_ptr_bits, ptr_index_bits};
use crate::pointer::{encode_object_index, HeaderPtr, ObjectHeader, ObjectPtr, TaggedPtr};
use crate::pointer::{HEADER_SIZE, NULL_BITS};
use crate::space::{
    lemma_alloc_le_total, lemma_sum_in_insert, lemma_sum_in_le_total, lemma_total_alloc_lower,
    lemma_total_alloc_push, sum_alloc_in, total_alloc, HeapObject, Space,
};

verus! {

/// The byte footprint of a `Host` object's payload: one machine word, the
/// indirection cell that refers to the owning slot of its boxed native.
pub const HOST_PAYLOAD_SIZE: usize = 8;

// ---------------------------------------------------------------------------
// The payload cell.
// ---------------------------------------------------------------------------

/// Every heap object's payload is exactly this indirection cell: the index of
/// the slot, in the heap's native-owner table, that owns the boxed native
/// implementing [`Traceable`].
#[derive(Copy, Clone, Debug, PartialEq, Eq, Structural)]
pub struct TraceableObject {
    pub host_index: usize,
}

impl TraceableObject {
    /// Write this cell into the payload of the object at `ptr`.
    pub fn store(&self, space: &mut Space, ptr: ObjectPtr)
        requires
            ptr.index < old(space).objects@.len(),
        ensures
            final(space).objects@ == old(space).objects@.update(
                ptr.index as int,
                (crate::space::HeapObject {
                    header: old(space).objects@[ptr.index as int].header,
                    payload: *self,
                }),
            ),
            final(space).next == old(space).next,
            final(space).size_in_bytes == old(space).size_in_bytes,
    {
        let mut obj = space.objects[ptr.index];
        obj.payload = *self;
        space.objects.set(ptr.index, obj);
    }

    /// Read the payload cell of the object at `ptr`.
    pub fn load(space: &Space, ptr: ObjectPtr) -> (r: TraceableObject)
        requires
            ptr.index < space.objects@.len(),
        ensures
            r == space.objects@[ptr.index as int].payload,
    {
        space.objects[ptr.index].payload
    }
}

// ---------------------------------------------------------------------------
// Heap handles: tagged values stored inside host objects.
// ---------------------------------------------------------------------------

/// A single tagged value stored inside a host object, traced by its owner
/// during a collection. The phantom type is only an API-surface annotation;
/// the stored value is untyped.
#[derive(Debug)]
pub struct HeapHandle<T> {
    pub ptr: TaggedPtr,
    pub phantom: PhantomData<T>,
}

impl<T> HeapHandle<T> {
    pub fn new(ptr: TaggedPtr) -> (r: Self)
        ensures
            r.ptr == ptr,
    {
        HeapHandle { ptr, phantom: PhantomData }
    }

    pub fn ptr(&self) -> (r: TaggedPtr)
        ensures
            r == self.ptr,
    {
        self.ptr
    }

    pub fn erase_type(&self) -> (r: HeapHandle<()>)
        ensures
            r.ptr == self.ptr,
    {
        HeapHandle { ptr: self.ptr, phantom: PhantomData }
    }
}

impl HeapHandle<()> {
    /// Move the stored value out, leaving null behind. Only the untyped form
    /// may be assigned null, so `take` exists only here.
    pub fn take(&mut self) -> (r: HeapHandle<()>)
        ensures
            r.ptr == old(self).ptr,
            final(self).ptr.bits == NULL_BITS,
    {
        let result = HeapHandle { ptr: self.ptr, phantom: PhantomData };
        self.ptr = TaggedPtr::null();
        result
    }

    /// Overwrite the stored value. Host code may do this only through the
    /// untyped form; during a collection the visitor rewrites handles in
    /// place instead.
    pub fn set_ptr(&mut self, ptr: TaggedPtr)
        ensures
            final(self).ptr == ptr,
    {
        self.ptr = ptr;
    }

    pub fn is_null(&self) -> (r: bool)
        ensures
            r == is_null_bits(self.ptr.bits),
    {
        self.ptr.is_null()
    }

    pub fn is_num(&self) -> (r: bool)
        ensures
            r == is_num_bits(self.ptr.bits),
    {
        self.ptr.is_num()
    }

    pub fn is_bool(&self) -> (r: bool)
        ensures
            r == is_bool_bits(self.ptr.bits),
    {
        self.ptr.is_bool()
    }
}

impl<T> Clone for HeapHandle<T> {
    fn clone(&self) -> (r: Self)
        ensures
            r.ptr == self.ptr,
    {
        HeapHandle { ptr: self.ptr, phantom: PhantomData }
    }
}

impl<T> Default for HeapHandle<T> {
    /// A heap handle default-constructs to the null singleton.
    fn default() -> (r: Self)
        ensures
            r.ptr.bits == NULL_BITS,
            is_null_bits(r.ptr.bits),
    {
        HeapHandle { ptr: TaggedPtr::null(), phantom: PhantomData }
    }
}

// ---------------------------------------------------------------------------
// Validity of tagged values against a space.
// ---------------------------------------------------------------------------

/// A tagged value is valid against a space of `n` objects when, if it is an
/// object pointer, its index refers to one of them.
pub open spec fn value_ok(t: TaggedPtr, n: int) -> bool {
    is_ptr_bits(t.bits) ==> ptr_index_bits(t.bits) < n
}

// ---------------------------------------------------------------------------
// Host natives.
// ---------------------------------------------------------------------------

/// The abstract contents of a boxed native: a string's characters, or the
/// tagged values a container owns.
pub enum HostView {
    StrV(Seq<char>),
    ListVw(Seq<TaggedPtr>),
    MapVw(Seq<(TaggedPtr, TaggedPtr)>),
}

/// The tagged values a native owns and must have visited during a collection.
pub open spec fn view_children(v: HostView) -> Seq<TaggedPtr> {
    match v {
        HostView::StrV(_) => Seq::empty(),
        HostView::ListVw(hs) => hs,
        HostView::MapVw(ps) => ps.map_values(|p: (TaggedPtr, TaggedPtr)| p.0) + ps.map_values(
            |p: (TaggedPtr, TaggedPtr)| p.1,
        ),
    }
}

/// Every tagged value a native owns is valid against a space of `n` objects.
pub open spec fn host_ok(v: HostView, n: int) -> bool {
    forall|k: int| 0 <= k < view_children(v).len() ==> value_ok(#[trigger] view_children(v)[k], n)
}

/// A boxed native: one of the built-in host object kinds. The heap owns every
/// native through its owner table; objects in a space refer to natives only
/// through their [`TraceableObject`] cell.
#[derive(Debug)]
pub enum HostValue {
    Str(String),
    ListV(List),
    MapV(ValueMap),
}

impl View for HostValue {
    type V = HostView;

    open spec fn view(&self) -> HostView {
        match self {
            HostValue::Str(s) => HostView::StrV(s@),
            HostValue::ListV(l) => HostView::ListVw(l@),
            HostValue::MapV(m) => HostView::MapVw(m@),
        }
    }
}

// ---------------------------------------------------------------------------
// The capability traits the host extends.
// ---------------------------------------------------------------------------

/// The capability every heap object provides: naming the tagged values it
/// transitively owns, which the collector must visit.
pub trait Traceable {
    spec fn children(&self) -> Seq<TaggedPtr>;
}

/// The capability used for allocation dispatch: converting a native into and
/// out of the runtime's boxed form.
pub trait HostObject: Traceable + Sized {
    /// The abstract contents this native carries.
    spec fn value_view(self) -> HostView;

    /// The contents of a default-constructed native of this kind.
    spec fn default_view() -> HostView;

    /// Whether boxed contents are of this native's kind.
    spec fn is_kind(v: HostView) -> bool;

    /// Box this native for the heap.
    fn into_value(self) -> (v: HostValue)
        ensures
            v@ == self.value_view(),
            Self::is_kind(v@),
    ;

    /// Recover a native of this kind from a boxed one; `None` exactly when
    /// the boxed native is of another kind.
    fn ref_of(v: &HostValue) -> (r: Option<&Self>)
        ensures
            r is Some <==> Self::is_kind(v@),
            match r {
                Some(x) => v@ == x.value_view(),
                None => true,
            },
    ;

    /// A default-constructed native of this kind.
    fn default_host() -> (r: Self)
        ensures
            r.value_view() == Self::default_view(),
    ;

    /// A default-constructed native owns no tagged values.
    proof fn lemma_default_no_children()
        ensures
            view_children(Self::default_view()) == Seq::<TaggedPtr>::empty(),
    ;
}

impl Traceable for String {
    /// A string owns no tagged values: its trace is empty.
    open spec fn children(&self) -> Seq<TaggedPtr> {
        Seq::empty()
    }
}

impl HostObject for String {
    open spec fn value_view(self) -> HostView {
        HostView::StrV(self@)
    }

    open spec fn default_view() -> HostView {
        HostView::StrV(Seq::empty())
    }

    open spec fn is_kind(v: HostView) -> bool {
        v is StrV
    }

    fn into_value(self) -> (v: HostValue)
    {
        HostValue::Str(self)
    }

    fn ref_of(v: &HostValue) -> (r: Option<&Self>)
    {
        match v {
            HostValue::Str(s) => Some(s),
            _ => None,
        }
    }

    fn default_host() -> (r: Self)
    {
        String::new()
    }

    proof fn lemma_default_no_children()
    {
    }
}

// ---------------------------------------------------------------------------
// List: an ordered sequence of heap handles.
// ---------------------------------------------------------------------------

/// An ordered sequence of tagged values; its trace visits every one of them.
#[derive(Debug)]
pub struct List {
    pub values: Vec<HeapHandle<()>>,
}

impl View for List {
    type V = Seq<TaggedPtr>;

    open spec fn view(&self) -> Seq<TaggedPtr> {
        self.values@.map_values(|h: HeapHandle<()>| h.ptr)
    }
}

impl Traceable for List {
    open spec fn children(&self) -> Seq<TaggedPtr> {
        self@
    }
}

impl HostObject for List {
    open spec fn value_view(self) -> HostView {
        HostView::ListVw(self@)
    }

    open spec fn default_view() -> HostView {
        HostView::ListVw(Seq::empty())
    }

    open spec fn is_kind(v: HostView) -> bool {
        v is ListVw
    }

    fn into_value(self) -> (v: HostValue)
    {
        HostValue::ListV(self)
    }

    fn ref_of(v: &HostValue) -> (r: Option<&Self>)
    {
        match v {
            HostValue::ListV(l) => Some(l),
            _ => None,
        }
    }

    fn default_host() -> (r: Self)
    {
        let r = List { values: Vec::new() };
        proof {
            assert(r@ =~= Seq::<TaggedPtr>::empty());
        }
        r
    }

    proof fn lemma_default_no_children()
    {
    }
}

impl Default for List {
    fn default() -> (r: List)
        ensures
            r@ == Seq::<TaggedPtr>::empty(),
    {
        List { values: Vec::new() }
    }
}

impl List {
    pub fn push(&mut self, handle: HeapHandle<()>)
        ensures
            final(self)@ == old(self)@.push(handle.ptr),
    {
        self.values.push(handle);
        proof {
            assert(self@ =~= old(self)@.push(handle.ptr));
        }
    }

    pub fn pop(&mut self) -> (r: Option<HeapHandle<()>>)
        ensures
            old(self)@.len() == 0 ==> r is None && final(self)@ == old(self)@,
            old(self)@.len() > 0 ==> {
                &&& final(self)@ == old(self)@.drop_last()
                &&& match r {
                    Some(h) => h.ptr == old(self)@.last(),
                    None => false,
                }
            },
    {
        let r = self.values.pop();
        proof {
            if old(self)@.len() > 0 {
                assert(self@ =~= old(self)@.drop_last());
            } else {
                assert(self@ =~= old(self)@);
            }
        }
        r
    }

    pub fn truncate(&mut self, len: usize)
        ensures
            len <= old(self)@.len() ==> final(self)@ == old(self)@.subrange(0, len as int),
            len > old(self)@.len() ==> final(self)@ == old(self)@,
    {
        self.values.truncate(len);
        proof {
            if len <= old(self)@.len() {
                assert(self@ =~= old(self)@.subrange(0, len as int));
            } else {
                assert(self@ =~= old(self)@);
            }
        }
    }

    pub fn remove(&mut self, index: usize) -> (r: HeapHandle<()>)
        requires
            index < old(self)@.len(),
        ensures
            r.ptr == old(self)@[index as int],
            final(self)@ == old(self)@.remove(index as int),
    {
        let r = self.values.remove(index);
        proof {
            assert(self@ =~= old(self)@.remove(index as int));
        }
        r
    }

    pub fn len(&self) -> (r: usize)
        ensures
            r == self@.len(),
    {
        self.values.len()
    }

    pub fn get(&self, index: usize) -> (r: HeapHandle<()>)
        requires
            index < self@.len(),
        ensures
            r.ptr == self@[index as int],
    {
        HeapHandle { ptr: self.values[index].ptr, phantom: PhantomData }
    }

    pub fn first(&self) -> (r: Option<HeapHandle<()>>)
        ensures
            self@.len() == 0 ==> r is None,
            self@.len() > 0 ==> match r {
                Some(h) => h.ptr == self@[0],
                None => false,
            },
    {
        if self.values.len() == 0 {
            None
        } else {
            Some(HeapHandle { ptr: self.values[0].ptr, phantom: PhantomData })
        }
    }

    pub fn last(&self) -> (r: Option<HeapHandle<()>>)
        ensures
            self@.len() == 0 ==> r is None,
            self@.len() > 0 ==> match r {
                Some(h) => h.ptr == self@.last(),
                None => false,
            },
    {
        if self.values.len() == 0 {
            None
        } else {
            Some(HeapHandle { ptr: self.values[self.values.len() - 1].ptr, phantom: PhantomData })
        }
    }

    pub fn is_empty(&self) -> (r: bool)
        ensures
            r == (self@.len() == 0),
    {
        self.values.len() == 0
    }

    /// Split the list at `at`, keeping the prefix and returning the suffix.
    pub fn split_off(&mut self, at: usize) -> (r: List)
        requires
            at <= old(self)@.len(),
        ensures
            final(self)@ == old(self)@.subrange(0, at as int),
            r@ == old(self)@.subrange(at as int, old(self)@.len() as int),
    {
        let tail = self.values.split_off(at);
        let r = List { values: tail };
        proof {
            assert(self@ =~= old(self)@.subrange(0, at as int));
            assert(r@ =~= old(self)@.subrange(at as int, old(self)@.len() as int));
        }
        r
    }
}

/// An empty list traces no children.
pub proof fn lemma_empty_list_traces_nothing(l: List)
    requires
        l@.len() == 0,
    ensures
        l.children() == Seq::<TaggedPtr>::empty(),
        view_children(HostView::ListVw(l@)) == Seq::<TaggedPtr>::empty(),
{
    assert(l.children() =~= Seq::<TaggedPtr>::empty());
}

// ---------------------------------------------------------------------------
// ValueMap: a key/value mapping of heap handles.
// ---------------------------------------------------------------------------

/// A key/value mapping whose keys and values are tagged values; its trace
/// visits both sides of every entry. Lookup compares keys with the runtime's
/// value equality, so string keys match by contents.
#[derive(Debug)]
pub struct ValueMap {
    pub entries: Vec<(HeapHandle<()>, HeapHandle<()>)>,
}

impl View for ValueMap {
    type V = Seq<(TaggedPtr, TaggedPtr)>;

    open spec fn view(&self) -> Seq<(TaggedPtr, TaggedPtr)> {
        self.entries@.map_values(|p: (HeapHandle<()>, HeapHandle<()>)| (p.0.ptr, p.1.ptr))
    }
}

impl Traceable for ValueMap {
    open spec fn children(&self) -> Seq<TaggedPtr> {
        view_children(HostView::MapVw(self@))
    }
}

impl HostObject for ValueMap {
    open spec fn value_view(self) -> HostView {
        HostView::MapVw(self@)
    }

    open spec fn default_view() -> HostView {
        HostView::MapVw(Seq::empty())
    }

    open spec fn is_kind(v: HostView) -> bool {
        v is MapVw
    }

    fn into_value(self) -> (v: HostValue)
    {
        HostValue::MapV(self)
    }

    fn ref_of(v: &HostValue) -> (r: Option<&Self>)
    {
        match v {
            HostValue::MapV(m) => Some(m),
            _ => None,
        }
    }

    fn default_host() -> (r: Self)
    {
        let r = ValueMap { entries: Vec::new() };
        proof {
            assert(r@ =~= Seq::<(TaggedPtr, TaggedPtr)>::empty());
        }
        r
    }

    proof fn lemma_default_no_children()
    {
        assert(view_children(Self::default_view()) =~= Seq::<TaggedPtr>::empty());
    }
}

impl Default for ValueMap {
    fn default() -> (r: ValueMap)
        ensures
            r@ == Seq::<(TaggedPtr, TaggedPtr)>::empty(),
    {
        ValueMap { entries: Vec::new() }
    }
}

impl ValueMap {
    pub fn len(&self) -> (r: usize)
        ensures
            r == self@.len(),
    {
        self.entries.len()
    }

    pub fn is_empty(&self) -> (r: bool)
        ensures
            r == (self@.len() == 0),
    {
        self.entries.len() == 0
    }
}

/// An empty map traces no children.
pub proof fn lemma_empty_map_traces_nothing(m: ValueMap)
    requires
        m@.len() == 0,
    ensures
        m.children() == Seq::<TaggedPtr>::empty(),
        view_children(HostView::MapVw(m@)) == Seq::<TaggedPtr>::empty(),
{
    assert(view_children(HostView::MapVw(m@)) =~= Seq::<TaggedPtr>::empty());
}

// ---------------------------------------------------------------------------
// The visitor: the copy-phase worker of a collection.
// ---------------------------------------------------------------------------

/// Whether this object has already been copied by the current collection.
pub open spec fn is_forwarded(o: HeapObject) -> bool {
    o.header.new_header_ptr is Some
}

/// Where this object was copied to, as an index into the destination space;
/// meaningful only when it is forwarded.
pub open spec fn fwd_index(o: HeapObject) -> int {
    match o.header.new_header_ptr {
        Some(hp) => hp.index as int,
        None => -1,
    }
}

/// The indices of the objects already copied out of a source space.
pub open spec fn fwd_set(objs: Seq<HeapObject>) -> Set<int> {
    Set::new(|i: int| 0 <= i < objs.len() && is_forwarded(objs[i]))
}

/// How many of the first `n` objects carry a forwarding pointer.
pub open spec fn count_forwarded(objs: Seq<HeapObject>, n: int) -> int
    decreases n,
{
    if n <= 0 {
        0
    } else {
        count_forwarded(objs, n - 1) + if is_forwarded(objs[n - 1]) {
            1int
        } else {
            0int
        }
    }
}

/// The forwarded count never exceeds the number of objects counted.
pub proof fn lemma_count_forwarded_bounds(objs: Seq<HeapObject>, n: int)
    ensures
        0 <= count_forwarded(objs, n) <= if n <= 0 {
            0int
        } else {
            n
        },
    decreases n,
{
    if n > 0 {
        lemma_count_forwarded_bounds(objs, n - 1);
    }
}

/// The forwarded counts agree on sequences that agree on which objects are
/// forwarded.
pub proof fn lemma_count_forwarded_congruence(
    objs1: Seq<HeapObject>,
    objs2: Seq<HeapObject>,
    n: int,
)
    requires
        forall|i: int|
            0 <= i < n ==> (is_forwarded(#[trigger] objs1[i]) <==> is_forwarded(
                #[trigger] objs2[i],
            )),
    ensures
        count_forwarded(objs1, n) == count_forwarded(objs2, n),
    decreases n,
{
    if n > 0 {
        lemma_count_forwarded_congruence(objs1, objs2, n - 1);
    }
}

/// With no object forwarded, the count is zero.
pub proof fn lemma_count_forwarded_none(objs: Seq<HeapObject>, n: int)
    requires
        forall|i: int| 0 <= i < n ==> !is_forwarded(#[trigger] objs[i]),
    ensures
        count_forwarded(objs, n) == 0,
    decreases n,
{
    if n > 0 {
        lemma_count_forwarded_none(objs, n - 1);
    }
}

/// Forwarding one more object raises the count by one.
pub proof fn lemma_count_forwarded_update(objs: Seq<HeapObject>, n: int, i: int, o: HeapObject)
    requires
        0 <= i < n <= objs.len(),
        !is_forwarded(objs[i]),
        is_forwarded(o),
    ensures
        count_forwarded(objs.update(i, o), n) == count_forwarded(objs, n) + 1,
    decreases n,
{
    if n - 1 == i {
        lemma_count_forwarded_congruence(objs.update(i, o), objs, n - 1);
    } else {
        lemma_count_forwarded_update(objs, n - 1, i, o);
    }
}

/// The given object with its forwarding slot set to `j`.
pub open spec fn with_fwd(o: HeapObject, j: int) -> HeapObject {
    HeapObject {
        header: ObjectHeader { new_header_ptr: Some(HeaderPtr { index: j as usize }), ..o.header },
        ..o
    }
}

/// Two objects that agree on everything but their forwarding slot.
pub open spec fn same_but_fwd(a: HeapObject, b: HeapObject) -> bool {
    &&& a.header.object_size == b.header.object_size
    &&& a.header.object_type == b.header.object_type
    &&& a.payload == b.payload
}

/// Scavenges reachable objects: copies each one it is shown into the
/// destination space, installs a forwarding pointer in the source header,
/// and queues the copy so its own handles get traced later.
pub struct ObjectVisitor {
    /// The destination space survivors are copied into.
    pub space: Space,
    /// Objects that have been copied but whose internals have not yet been
    /// traced, in copy order.
    pub queue: Vec<ObjectPtr>,
    /// For each destination object, the source object it was copied from.
    pub copied_from: Ghost<Seq<int>>,
    /// The source objects this collection is allowed to copy; every root
    /// target and everything they transitively own lies in here.
    pub sources: Ghost<Set<int>>,
}

/// The visitor's working invariant against the source space it scavenges:
/// destination occupancy is exactly the footprint of the objects forwarded so
/// far, the copy queue lists every destination object in order, forwarding
/// pointers and destination objects correspond one to one, and every copy
/// preserves its source's header fields and payload.
pub open spec fn vis_inv(vis: ObjectVisitor, src: Space) -> bool {
    let n = src.objects@.len() as int;
    let d = vis.space;
    let cf = vis.copied_from@;
    &&& src.inv()
    &&& src.next == total_alloc(src.objects@)
    &&& d.inv()
    &&& d.size_in_bytes == src.size_in_bytes
    &&& d.next == total_alloc(d.objects@)
    &&& d.next == sum_alloc_in(src.objects@, fwd_set(src.objects@), n)
    &&& cf.len() == count_forwarded(src.objects@, n)
    &&& cf.len() == d.objects@.len()
    &&& vis.queue@.len() == d.objects@.len()
    &&& forall|j: int| 0 <= j < cf.len() ==> (#[trigger] vis.queue@[j]).index == j
    &&& forall|j: int|
        0 <= j < cf.len() ==> {
            &&& 0 <= #[trigger] cf[j] < n
            &&& src.objects@[cf[j]].header.new_header_ptr == Some((HeaderPtr { index: j as usize }))
            &&& same_but_fwd(src.objects@[cf[j]], d.objects@[j])
            &&& d.objects@[j].header.new_header_ptr is None
            &&& vis.sources@.contains(cf[j])
        }
    &&& forall|i: int|
        0 <= i < n && is_forwarded(#[trigger] src.objects@[i]) ==> {
            &&& 0 <= fwd_index(src.objects@[i]) < cf.len()
            &&& cf[fwd_index(src.objects@[i])] == i
        }
}

/// How one or more visitor steps may change the source space and the visitor:
/// source objects keep their header fields and payload and only gain
/// forwarding pointers, never lose or change one; the destination and the
/// copy record only grow.
pub open spec fn visitor_extends(
    src0: Space,
    vis0: ObjectVisitor,
    src1: Space,
    vis1: ObjectVisitor,
) -> bool {
    &&& src1.objects@.len() == src0.objects@.len()
    &&& src1.size_in_bytes == src0.size_in_bytes
    &&& src1.next == src0.next
    &&& forall|i: int|
        0 <= i < src0.objects@.len() ==> same_but_fwd(
            #[trigger] src1.objects@[i],
            src0.objects@[i],
        )
    &&& forall|i: int|
        0 <= i < src0.objects@.len() && is_forwarded(#[trigger] src0.objects@[i])
            ==> src1.objects@[i] == src0.objects@[i]
    &&& vis0.space.objects@.len() <= vis1.space.objects@.len()
    &&& forall|j: int|
        0 <= j < vis0.space.objects@.len() ==> #[trigger] vis1.space.objects@[j]
            == vis0.space.objects@[j]
    &&& vis0.copied_from@.len() <= vis1.copied_from@.len()
    &&& forall|j: int|
        0 <= j < vis0.copied_from@.len() ==> #[trigger] vis1.copied_from@[j]
            == vis0.copied_from@[j]
    &&& vis1.sources == vis0.sources
    &&& vis1.space.size_in_bytes == vis0.space.size_in_bytes
}

/// Neither the source space nor the visitor changed at all.
pub open spec fn visitor_same(
    src0: Space,
    vis0: ObjectVisitor,
    src1: Space,
    vis1: ObjectVisitor,
) -> bool {
    &&& src1.objects@ == src0.objects@
    &&& src1.next == src0.next
    &&& src1.size_in_bytes == src0.size_in_bytes
    &&& vis1.space.objects@ == vis0.space.objects@
    &&& vis1.space.next == vis0.space.next
    &&& vis1.space.size_in_bytes == vis0.space.size_in_bytes
    &&& vis1.queue@ == vis0.queue@
    &&& vis1.copied_from@ == vis0.copied_from@
    &&& vis1.sources == vis0.sources
}

impl ObjectVisitor {
    /// A visitor copying into the given (empty) destination space. The ghost
    /// `sources` set names the source objects this collection may copy.
    pub fn new(space: Space, sources: Ghost<Set<int>>) -> (r: ObjectVisitor)
        ensures
            r.space == space,
            r.queue@.len() == 0,
            r.copied_from@ == Seq::<int>::empty(),
            r.sources == sources,
    {
        ObjectVisitor { space, queue: Vec::new(), copied_from: Ghost(Seq::empty()), sources }
    }

    /// Scavenge one object. If its header already carries a forwarding
    /// pointer, nothing changes and the address chosen by the first visit is
    /// returned. Otherwise header and payload are copied into the
    /// destination, the forwarding pointer is installed in the source header,
    /// and the copy is queued for tracing.
    pub fn visit(&mut self, src: &mut Space, p: ObjectPtr) -> (r: ObjectPtr)
        requires
            vis_inv(*old(self), *old(src)),
            p.index < old(src).objects@.len(),
            old(self).sources@.contains(p.index as int),
        ensures
            vis_inv(*final(self), *final(src)),
            visitor_extends(*old(src), *old(self), *final(src), *final(self)),
            is_forwarded(final(src).objects@[p.index as int]),
            r.index as int == fwd_index(final(src).objects@[p.index as int]),
            r.index < final(self).space.objects@.len(),
            is_forwarded(old(src).objects@[p.index as int]) ==> {
                &&& visitor_same(*old(src), *old(self), *final(src), *final(self))
                &&& r.index as int == fwd_index(old(src).objects@[p.index as int])
            },
            !is_forwarded(old(src).objects@[p.index as int]) ==> {
                &&& r.index == old(self).space.objects@.len()
                &&& final(self).space.objects@.len() == old(self).space.objects@.len() + 1
                &&& final(self).copied_from@ == old(self).copied_from@.push(p.index as int)
                &&& final(self).queue@ == old(self).queue@.push(r)
                &&& final(src).objects@ == old(src).objects@.update(
                    p.index as int,
                    with_fwd(old(src).objects@[p.index as int], r.index as int),
                )
            },
    {
        let ghost src0 = *src;
        let ghost n = src.objects@.len() as int;
        let obj = src.objects[p.index];
        match obj.header.new_header_ptr {
            Some(hp) => hp.to_object_ptr(),
            None => {
                proof {
                    lemma_alloc_le_total(src0.objects@, p.index as int);
                    lemma_sum_in_insert(
                        src0.objects@,
                        fwd_set(src0.objects@),
                        n,
                        p.index as int,
                    );
                    lemma_sum_in_le_total(
                        src0.objects@,
                        fwd_set(src0.objects@).insert(p.index as int),
                        n,
                    );
                    assert(src0.objects@.subrange(0, n) =~= src0.objects@);
                }
                let alloc_size = HEADER_SIZE + obj.header.object_size;
                let _offset = self.space.allocate(alloc_size).unwrap();
                let new_obj = HeapObject {
                    header: ObjectHeader {
                        object_size: obj.header.object_size,
                        object_type: obj.header.object_type,
                        new_header_ptr: None,
                    },
                    payload: obj.payload,
                };
                proof {
                    lemma_total_alloc_push(old(self).space.objects@, new_obj);
                }
                self.space.objects.push(new_obj);
                let new_index = self.space.objects.len() - 1;
                let mut updated = obj;
                updated.header.new_header_ptr = Some(HeaderPtr { index: new_index });
                src.objects.set(p.index, updated);
                let r = ObjectPtr { index: new_index };
                self.queue.push(r);
                self.copied_from = Ghost(self.copied_from@.push(p.index as int));
                proof {
                    crate::space::lemma_total_alloc_same_footprints(src0.objects@, src.objects@);
                    lemma_count_forwarded_update(
                        src0.objects@,
                        n,
                        p.index as int,
                        src.objects@[p.index as int],
                    );
                    assert(fwd_set(src.objects@) =~= fwd_set(src0.objects@).insert(
                        p.index as int,
                    ));
                    crate::space::lemma_sum_in_congruence(
                        src.objects@,
                        fwd_set(src.objects@),
                        fwd_set(src0.objects@).insert(p.index as int),
                        n,
                    );
                    lemma_sum_in_same_footprints(
                        src0.objects@,
                        src.objects@,
                        fwd_set(src0.objects@).insert(p.index as int),
                        n,
                    );
                }
                r
            },
        }
    }
}

/// After tracing, a slot's new value is its old value when that was not a
/// pointer, and the forwarded pointer recorded in the source header
/// otherwise.
pub open spec fn traced_to(t0: TaggedPtr, t1: TaggedPtr, src_objs: Seq<HeapObject>) -> bool {
    if is_ptr_bits(t0.bits) {
        let i = ptr_index_bits(t0.bits) as int;
        &&& i < src_objs.len()
        &&& is_forwarded(src_objs[i])
        &&& t1 == encode_object_index(fwd_index(src_objs[i]) as u64)
    } else {
        t1 == t0
    }
}

impl ObjectVisitor {
    /// Visit one tagged value: when it holds an object pointer, scavenge the
    /// object and return the value rewritten to the forwarded pointer;
    /// otherwise return it unchanged.
    pub fn visit_value(&mut self, src: &mut Space, t: TaggedPtr) -> (r: TaggedPtr)
        requires
            vis_inv(*old(self), *old(src)),
            value_ok(t, old(src).objects@.len() as int),
            is_ptr_bits(t.bits) ==> old(self).sources@.contains(ptr_index_bits(t.bits) as int),
        ensures
            vis_inv(*final(self), *final(src)),
            visitor_extends(*old(src), *old(self), *final(src), *final(self)),
            value_ok(r, final(self).space.objects@.len() as int),
            traced_to(t, r, final(src).objects@),
            !is_ptr_bits(t.bits) ==> r == t && visitor_same(
                *old(src),
                *old(self),
                *final(src),
                *final(self),
            ),
            is_ptr_bits(t.bits) ==> {
                &&& is_ptr_bits(r.bits)
                &&& ptr_index_bits(r.bits) == fwd_index(
                    final(src).objects@[ptr_index_bits(t.bits) as int],
                )
                &&& ptr_index_bits(r.bits) < final(self).space.objects@.len()
            },
            final(self).space.objects@.len() <= old(self).space.objects@.len() + 1,
            forall|j: int|
                old(self).space.objects@.len() <= j < final(self).space.objects@.len() ==> r
                    == #[trigger] encode_object_index(j as u64),
    {
        if t.is_ptr() {
            let n_exec = src.objects.len();
            let p = t.to_object().unwrap();
            proof {
                assert(ptr_index_bits(t.bits) < n_exec as u64);
                assert(p.index as int == ptr_index_bits(t.bits) as int);
            }
            let fp = self.visit(src, p);
            proof {
                lemma_total_alloc_lower(self.space.objects@);
            }
            TaggedPtr::from_object(fp)
        } else {
            t
        }
    }

    /// Trace a vector of handles in place: every one is rewritten to the
    /// forwarded value of what it held.
    pub fn trace_handles<T>(&mut self, src: &mut Space, handles: &mut Vec<HeapHandle<T>>)
        requires
            vis_inv(*old(self), *old(src)),
            forall|k: int|
                0 <= k < old(handles)@.len() ==> value_ok(
                    (#[trigger] old(handles)@[k]).ptr,
                    old(src).objects@.len() as int,
                ),
            forall|k: int|
                0 <= k < old(handles)@.len() && is_ptr_bits((#[trigger] old(handles)@[k]).ptr.bits)
                    ==> old(self).sources@.contains(
                    ptr_index_bits(old(handles)@[k].ptr.bits) as int,
                ),
        ensures
            vis_inv(*final(self), *final(src)),
            visitor_extends(*old(src), *old(self), *final(src), *final(self)),
            final(handles)@.len() == old(handles)@.len(),
            forall|k: int|
                0 <= k < old(handles)@.len() ==> traced_to(
                    (#[trigger] old(handles)@[k]).ptr,
                    final(handles)@[k].ptr,
                    final(src).objects@,
                ),
            forall|k: int|
                0 <= k < final(handles)@.len() ==> value_ok(
                    (#[trigger] final(handles)@[k]).ptr,
                    final(self).space.objects@.len() as int,
                ),
    {
        let ghost handles_in = handles@;
        let ghost src_in = *src;
        let ghost vis_in = *self;
        let n_handles = handles.len();
        let mut k: usize = 0;
        while k < n_handles
            invariant
                k <= n_handles,
                n_handles == handles@.len(),
                handles@.len() == handles_in.len(),
                vis_inv(*self, *src),
                visitor_extends(src_in, vis_in, *src, *self),
                vis_inv(vis_in, src_in),
                forall|k2: int|
                    0 <= k2 < handles_in.len() ==> value_ok(
                        (#[trigger] handles_in[k2]).ptr,
                        src_in.objects@.len() as int,
                    ),
                forall|k2: int|
                    0 <= k2 < handles_in.len() && is_ptr_bits((#[trigger] handles_in[k2]).ptr.bits)
                        ==> vis_in.sources@.contains(ptr_index_bits(handles_in[k2].ptr.bits) as int),
                forall|k2: int| k <= k2 < n_handles ==> handles@[k2] == handles_in[k2],
                forall|k2: int|
                    0 <= k2 < k ==> traced_to(
                        (#[trigger] handles_in[k2]).ptr,
                        handles@[k2].ptr,
                        src.objects@,
                    ),
                forall|k2: int|
                    0 <= k2 < k ==> value_ok(
                        (#[trigger] handles@[k2]).ptr,
                        self.space.objects@.len() as int,
                    ),
            decreases n_handles - k,
        {
            let t = handles[k].ptr;
            proof {
                assert(handles@[k as int] == handles_in[k as int]);
                assert(value_ok(t, src.objects@.len() as int));
            }
            let t2 = self.visit_value(src, t);
            handles.set(k, HeapHandle { ptr: t2, phantom: PhantomData });
            k += 1;
        }
    }

    /// Trace a vector of optional handles in place, skipping the empty slots.
    pub fn trace_maybe_handles<T>(
        &mut self,
        src: &mut Space,
        handles: &mut Vec<Option<HeapHandle<T>>>,
    )
        requires
            vis_inv(*old(self), *old(src)),
            forall|k: int|
                0 <= k < old(handles)@.len() ==> match #[trigger] old(handles)@[k] {
                    Some(h) => value_ok(h.ptr, old(src).objects@.len() as int),
                    None => true,
                },
            forall|k: int|
                0 <= k < old(handles)@.len() ==> match #[trigger] old(handles)@[k] {
                    Some(h) => is_ptr_bits(h.ptr.bits) ==> old(self).sources@.contains(
                        ptr_index_bits(h.ptr.bits) as int,
                    ),
                    None => true,
                },
        ensures
            vis_inv(*final(self), *final(src)),
            visitor_extends(*old(src), *old(self), *final(src), *final(self)),
            final(handles)@.len() == old(handles)@.len(),
            forall|k: int|
                0 <= k < old(handles)@.len() ==> match #[trigger] old(handles)@[k] {
                    Some(h) => {
                        &&& final(handles)@[k] is Some
                        &&& traced_to(h.ptr, final(handles)@[k]->Some_0.ptr, final(src).objects@)
                        &&& value_ok(
                            final(handles)@[k]->Some_0.ptr,
                            final(self).space.objects@.len() as int,
                        )
                    },
                    None => final(handles)@[k] is None,
                },
    {
        let ghost handles_in = handles@;
        let ghost src_in = *src;
        let ghost vis_in = *self;
        let n_handles = handles.len();
        let mut k: usize = 0;
        while k < n_handles
            invariant
                k <= n_handles,
                n_handles == handles@.len(),
                handles@.len() == handles_in.len(),
                vis_inv(*self, *src),
                visitor_extends(src_in, vis_in, *src, *self),
                vis_inv(vis_in, src_in),
                forall|k2: int|
                    0 <= k2 < handles_in.len() ==> match #[trigger] handles_in[k2] {
                        Some(h) => value_ok(h.ptr, src_in.objects@.len() as int),
                        None => true,
                    },
                forall|k2: int|
                    0 <= k2 < handles_in.len() ==> match #[trigger] handles_in[k2] {
                        Some(h) => is_ptr_bits(h.ptr.bits) ==> vis_in.sources@.contains(
                            ptr_index_bits(h.ptr.bits) as int,
                        ),
                        None => true,
                    },
                forall|k2: int| k <= k2 < n_handles ==> handles@[k2] == handles_in[k2],
                forall|k2: int|
                    0 <= k2 < k ==> match #[trigger] handles_in[k2] {
                        Some(h) => {
                            &&& handles@[k2] is Some
                            &&& traced_to(h.ptr, handles@[k2]->Some_0.ptr, src.objects@)
                            &&& value_ok(
                                handles@[k2]->Some_0.ptr,
                                self.space.objects@.len() as int,
                            )
                        },
                        None => handles@[k2] is None,
                    },
            decreases n_handles - k,
        {
            let slot = &handles[k];
            match slot {
                Some(h) => {
                    let t = h.ptr;
                    proof {
                        assert(handles@[k as int] == handles_in[k as int]);
                        assert(value_ok(t, src.objects@.len() as int));
                    }
                    let t2 = self.visit_value(src, t);
                    handles.set(k, Some(HeapHandle { ptr: t2, phantom: PhantomData }));
                },
                None => {},
            }
            k += 1;
        }
    }
}

impl<T> HeapHandle<T> {
    /// Visit this handle during a collection: when it holds an object
    /// pointer, the object is scavenged and the handle rewritten in place to
    /// the forwarded pointer.
    pub fn trace(&mut self, visitor: &mut ObjectVisitor, src: &mut Space)
        requires
            vis_inv(*old(visitor), *old(src)),
            value_ok(old(self).ptr, old(src).objects@.len() as int),
            is_ptr_bits(old(self).ptr.bits) ==> old(visitor).sources@.contains(
                ptr_index_bits(old(self).ptr.bits) as int,
            ),
        ensures
            vis_inv(*final(visitor), *final(src)),
            visitor_extends(*old(src), *old(visitor), *final(src), *final(visitor)),
            traced_to(old(self).ptr, final(self).ptr, final(src).objects@),
            value_ok(final(self).ptr, final(visitor).space.objects@.len() as int),
    {
        self.ptr = visitor.visit_value(src, self.ptr);
    }
}

/// Partial sums only read footprints, so sequences whose objects agree on
/// header size everywhere give the same sums.
pub proof fn lemma_sum_in_same_footprints(
    objs1: Seq<HeapObject>,
    objs2: Seq<HeapObject>,
    s: Set<int>,
    n: int,
)
    requires
        objs1.len() == objs2.len(),
        n <= objs1.len(),
        forall|i: int|
            0 <= i < objs1.len() ==> (#[trigger] objs2[i]).header.object_size
                == objs1[i].header.object_size,
    ensures
        sum_alloc_in(objs1, s, n) == sum_alloc_in(objs2, s, n),
    decreases n,
{
    if n > 0 {
        lemma_sum_in_same_footprints(objs1, objs2, s, n - 1);
    }
}

} // verus!
