//! The bump-allocated space and the footprint arithmetic of its objects:
//! exact occupancy sums, partial sums over chosen object sets, and the
//! lemmas the collector's accounting rests on.

use vstd::prelude::*;

use crate::object::TraceableObject;
use crate::pointer::ObjectHeader;
use crate::types::GCError;

verus! {

/// The largest region the runtime will ask the operating system for. Object
/// pointers carry a 48-bit payload; capping a space at 2^30 bytes keeps every
/// object index well inside that payload on any machine word size.
pub const MAX_SPACE_BYTES: usize = 0x4000_0000;

/// One object inside a space: its header followed by its payload, which for a
/// `Host` object is a single indirection cell.
#[derive(Copy, Clone, Debug, PartialEq, Eq, Structural)]
pub struct HeapObject {
    pub header: ObjectHeader,
    pub payload: TraceableObject,
}

/// The bytes occupied by a sequence of objects: the sum of header plus
/// payload over each of them.
pub open spec fn total_alloc(objs: Seq<HeapObject>) -> int
    decreases objs.len(),
{
    if objs.len() == 0 {
        0
    } else {
        total_alloc(objs.drop_last()) + objs.last().header.spec_alloc_size()
    }
}

/// The bytes occupied by the objects among the first `n` whose index lies in
/// `s`.
pub open spec fn sum_alloc_in(objs: Seq<HeapObject>, s: Set<int>, n: int) -> int
    decreases n,
{
    if n <= 0 {
        0
    } else {
        sum_alloc_in(objs, s, n - 1) + if s.contains(n - 1) {
            objs[n - 1].header.spec_alloc_size()
        } else {
            0
        }
    }
}

pub proof fn lemma_total_alloc_nonneg(objs: Seq<HeapObject>)
    ensures
        total_alloc(objs) >= 0,
    decreases objs.len(),
{
    if objs.len() > 0 {
        lemma_total_alloc_nonneg(objs.drop_last());
    }
}

/// Appending one object grows the total by exactly that object's footprint.
pub proof fn lemma_total_alloc_push(objs: Seq<HeapObject>, o: HeapObject)
    ensures
        total_alloc(objs.push(o)) == total_alloc(objs) + o.header.spec_alloc_size(),
{
    assert(objs.push(o).drop_last() =~= objs);
}

/// Each object's footprint is at most the total of its sequence.
pub proof fn lemma_alloc_le_total(objs: Seq<HeapObject>, i: int)
    requires
        0 <= i < objs.len(),
    ensures
        objs[i].header.spec_alloc_size() <= total_alloc(objs),
    decreases objs.len(),
{
    if i == objs.len() - 1 {
        lemma_total_alloc_nonneg(objs.drop_last());
    } else {
        lemma_alloc_le_total(objs.drop_last(), i);
    }
}

/// Each object occupies at least one byte, so a sequence holds no more
/// objects than its total footprint in bytes.
pub proof fn lemma_total_alloc_lower(objs: Seq<HeapObject>)
    ensures
        total_alloc(objs) >= objs.len(),
    decreases objs.len(),
{
    if objs.len() > 0 {
        lemma_total_alloc_lower(objs.drop_last());
    }
}

/// The total footprint only reads header sizes, so sequences whose objects
/// agree on those agree on it.
pub proof fn lemma_total_alloc_same_footprints(objs1: Seq<HeapObject>, objs2: Seq<HeapObject>)
    requires
        objs1.len() == objs2.len(),
        forall|i: int|
            0 <= i < objs1.len() ==> (#[trigger] objs2[i]).header.object_size
                == objs1[i].header.object_size,
    ensures
        total_alloc(objs1) == total_alloc(objs2),
    decreases objs1.len(),
{
    if objs1.len() > 0 {
        assert(forall|i: int|
            0 <= i < objs1.drop_last().len() ==> (#[trigger] objs2.drop_last()[i]).header.object_size
                == objs1.drop_last()[i].header.object_size);
        lemma_total_alloc_same_footprints(objs1.drop_last(), objs2.drop_last());
    }
}

/// A partial sum over a set holding no index below `n` is zero.
pub proof fn lemma_sum_in_none(objs: Seq<HeapObject>, s: Set<int>, n: int)
    requires
        forall|j: int| 0 <= j < n ==> !s.contains(j),
    ensures
        sum_alloc_in(objs, s, n) == 0,
    decreases n,
{
    if n > 0 {
        lemma_sum_in_none(objs, s, n - 1);
    }
}

/// The partial sums agree on sets that agree below `n`.
pub proof fn lemma_sum_in_congruence(objs: Seq<HeapObject>, s1: Set<int>, s2: Set<int>, n: int)
    requires
        forall|j: int| 0 <= j < n ==> (s1.contains(j) <==> s2.contains(j)),
    ensures
        sum_alloc_in(objs, s1, n) == sum_alloc_in(objs, s2, n),
    decreases n,
{
    if n > 0 {
        lemma_sum_in_congruence(objs, s1, s2, n - 1);
    }
}

/// Inserting a fresh index below `n` grows the partial sum by that object's
/// footprint.
pub proof fn lemma_sum_in_insert(objs: Seq<HeapObject>, s: Set<int>, n: int, i: int)
    requires
        0 <= i < n,
        !s.contains(i),
    ensures
        sum_alloc_in(objs, s.insert(i), n) == sum_alloc_in(objs, s, n)
            + objs[i].header.spec_alloc_size(),
    decreases n,
{
    if n - 1 == i {
        lemma_sum_in_congruence(objs, s.insert(i), s, n - 1);
    } else {
        lemma_sum_in_insert(objs, s, n - 1, i);
    }
}

/// Partial sums grow with the set summed over.
pub proof fn lemma_sum_in_subset(objs: Seq<HeapObject>, a: Set<int>, b: Set<int>, n: int)
    requires
        forall|j: int| 0 <= j < n && a.contains(j) ==> b.contains(j),
    ensures
        sum_alloc_in(objs, a, n) <= sum_alloc_in(objs, b, n),
    decreases n,
{
    if n > 0 {
        lemma_sum_in_subset(objs, a, b, n - 1);
    }
}

/// A partial sum never exceeds the total over the same prefix.
pub proof fn lemma_sum_in_le_total(objs: Seq<HeapObject>, s: Set<int>, n: int)
    requires
        0 <= n <= objs.len(),
    ensures
        sum_alloc_in(objs, s, n) <= total_alloc(objs.subrange(0, n)),
    decreases n,
{
    if n > 0 {
        lemma_sum_in_le_total(objs, s, n - 1);
        assert(objs.subrange(0, n).drop_last() =~= objs.subrange(0, n - 1));
        assert(objs.subrange(0, n).last() == objs[n - 1]);
    }
}

/// When `s` holds every index below `n`, the partial sum is the whole prefix
/// total.
pub proof fn lemma_sum_in_all(objs: Seq<HeapObject>, s: Set<int>, n: int)
    requires
        0 <= n <= objs.len(),
        forall|j: int| 0 <= j < n ==> s.contains(j),
    ensures
        sum_alloc_in(objs, s, n) == total_alloc(objs.subrange(0, n)),
    decreases n,
{
    if n > 0 {
        lemma_sum_in_all(objs, s, n - 1);
        assert(objs.subrange(0, n).drop_last() =~= objs.subrange(0, n - 1));
        assert(objs.subrange(0, n).last() == objs[n - 1]);
    }
}

/// A contiguous bump-allocated byte region. `next` counts the bytes handed
/// out so far; allocation only ever advances it, and the collector reclaims
/// memory by building a fresh space and discarding this one.
#[derive(Debug)]
pub struct Space {
    pub size_in_bytes: usize,
    pub next: usize,
    /// The objects laid out in this region, in allocation order. An
    /// `ObjectPtr` is an index into this table.
    pub objects: Vec<HeapObject>,
}

impl Space {
    /// Basic shape of a space: occupancy never exceeds capacity, and capacity
    /// stays within the pointer-addressable range.
    pub open spec fn inv(self) -> bool {
        self.next <= self.size_in_bytes <= MAX_SPACE_BYTES
    }

    /// Acquire a fresh region. Fails with `OSOutOfMemory` exactly when the
    /// request exceeds what the runtime may address.
    pub fn new(size_in_bytes: usize) -> (r: Result<Space, GCError>)
        ensures
            (size_in_bytes <= MAX_SPACE_BYTES) <==> r is Ok,
            match r {
                Ok(s) => {
                    &&& s.size_in_bytes == size_in_bytes
                    &&& s.next == 0
                    &&& s.objects@.len() == 0
                    &&& s.inv()
                },
                Err(e) => e == GCError::OSOutOfMemory,
            },
    {
        if size_in_bytes > MAX_SPACE_BYTES {
            return Err(GCError::OSOutOfMemory);
        }
        Ok(Space { size_in_bytes, next: 0, objects: Vec::new() })
    }

    /// Reserve `size` bytes. Succeeds, returning the old bump offset, exactly
    /// when occupancy plus `size` still fits the capacity; fails with
    /// `NoSpace`, changing nothing, otherwise.
    pub fn allocate(&mut self, size: usize) -> (r: Result<usize, GCError>)
        requires
            old(self).inv(),
        ensures
            final(self).inv(),
            final(self).size_in_bytes == old(self).size_in_bytes,
            final(self).objects@ == old(self).objects@,
            old(self).next + size <= old(self).size_in_bytes ==> r == Ok::<usize, GCError>(
                old(self).next,
            ) && final(self).next == old(self).next + size,
            old(self).next + size > old(self).size_in_bytes ==> r == Err::<usize, GCError>(
                GCError::NoSpace,
            ) && final(self).next == old(self).next,
    {
        match self.next.checked_add(size) {
            Some(n) => {
                if n > self.size_in_bytes {
                    Err(GCError::NoSpace)
                } else {
                    let result = self.next;
                    self.next = n;
                    Ok(result)
                }
            },
            None => Err(GCError::NoSpace),
        }
    }

    pub fn used_bytes(&self) -> (r: usize)
        ensures
            r == self.next,
    {
        self.next
    }

    pub fn free_bytes(&self) -> (r: usize)
        requires
            self.inv(),
        ensures
            r == self.size_in_bytes - self.next,
    {
        self.size_in_bytes - self.next
    }
}

} // verus!
