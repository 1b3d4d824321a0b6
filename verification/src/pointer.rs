//! Tagged values and object metadata: the NaN-boxed 64-bit immediate with
//! its bit-exact encoding laws, and the per-object header with its
//! forwarding slot.

use vstd::prelude::*;

use crate::space::{HeapObject, Space};
use crate::types::GCError;

verus! {

// ---------------------------------------------------------------------------
// NaN-boxing masks.
//
// A tagged value is one 64-bit word. A double whose bit pattern is not a
// quiet NaN (with the extra boxing bit) encodes itself. A quiet NaN with the
// sign bit set carries an object pointer in its low bits. A quiet NaN without
// the sign bit carries a singleton tag in its low three bits.
// ---------------------------------------------------------------------------

pub const SIGN_MASK: u64 = 0x8000_0000_0000_0000;

pub const QUIET_NAN_MASK: u64 = 0x7ffc_0000_0000_0000;

/// If sign and quiet NaN are set, this is a pointer.
pub const PTR_TAG_MASK: u64 = 0xfffc_0000_0000_0000;

/// The rest of the bits are the pointer.
pub const PTR_MASK: u64 = 0x0003_ffff_ffff_ffff;

pub const TAG_NULL: u64 = 1;

pub const TAG_FALSE: u64 = 2;

pub const TAG_TRUE: u64 = 3;

pub const NULL_BITS: u64 = 0x7ffc_0000_0000_0001;

pub const FALSE_BITS: u64 = 0x7ffc_0000_0000_0002;

pub const TRUE_BITS: u64 = 0x7ffc_0000_0000_0003;

/// The composite masks written out above are exactly what their parts give:
/// the pointer tag is sign plus quiet NaN, the payload mask its complement,
/// and each singleton is the quiet NaN pattern plus its low tag.
pub proof fn lemma_mask_definitions()
    by (bit_vector)
    ensures
        PTR_TAG_MASK == SIGN_MASK | QUIET_NAN_MASK,
        PTR_MASK == !PTR_TAG_MASK,
        NULL_BITS == QUIET_NAN_MASK | TAG_NULL,
        FALSE_BITS == QUIET_NAN_MASK | TAG_FALSE,
        TRUE_BITS == QUIET_NAN_MASK | TAG_TRUE,
{
}

/// A word holds a double exactly when the boxing bits are not all set.
pub open spec fn is_num_bits(bits: u64) -> bool {
    bits & QUIET_NAN_MASK != QUIET_NAN_MASK
}

/// A word holds an object pointer exactly when sign and quiet-NaN bits are set.
pub open spec fn is_ptr_bits(bits: u64) -> bool {
    bits & PTR_TAG_MASK == PTR_TAG_MASK
}

/// The pointer payload of a word: its low bits.
pub open spec fn ptr_index_bits(bits: u64) -> u64 {
    bits & PTR_MASK
}

pub open spec fn is_null_bits(bits: u64) -> bool {
    bits == NULL_BITS
}

pub open spec fn is_true_bits(bits: u64) -> bool {
    bits == TRUE_BITS
}

pub open spec fn is_false_bits(bits: u64) -> bool {
    bits == FALSE_BITS
}

pub open spec fn is_bool_bits(bits: u64) -> bool {
    is_true_bits(bits) || is_false_bits(bits)
}

// ---------------------------------------------------------------------------
// TaggedPtr: the 64-bit immediate value.
// ---------------------------------------------------------------------------

/// A 64-bit immediate value: a double (as its IEEE bit pattern), one of the
/// three singletons (null, true, false), or a tagged object pointer.
#[derive(Copy, Clone, Debug, PartialEq, Eq, Structural)]
pub struct TaggedPtr {
    pub bits: u64,
}

/// Encoding a double stores its bit pattern unchanged.
pub open spec fn encode_num(bits: u64) -> TaggedPtr {
    TaggedPtr { bits }
}

pub open spec fn encode_bool(b: bool) -> TaggedPtr {
    if b {
        TaggedPtr { bits: TRUE_BITS }
    } else {
        TaggedPtr { bits: FALSE_BITS }
    }
}

pub open spec fn encode_object_index(index: u64) -> TaggedPtr {
    TaggedPtr { bits: PTR_TAG_MASK | index }
}

/// A narrowing to double: the word itself when it is not a boxed value.
pub open spec fn decode_num(t: TaggedPtr) -> Result<u64, GCError> {
    if is_num_bits(t.bits) {
        Ok(t.bits)
    } else {
        Err(GCError::TypeError)
    }
}

/// A narrowing to bool: only the two boolean singleton encodings succeed.
pub open spec fn decode_bool(t: TaggedPtr) -> Result<bool, GCError> {
    if is_true_bits(t.bits) {
        Ok(true)
    } else if is_false_bits(t.bits) {
        Ok(false)
    } else {
        Err(GCError::TypeError)
    }
}

/// A narrowing to object pointer: the low bits when the pointer tag is set.
pub open spec fn decode_object(t: TaggedPtr) -> Result<ObjectPtr, GCError> {
    if is_ptr_bits(t.bits) {
        Ok(ObjectPtr { index: ptr_index_bits(t.bits) as usize })
    } else {
        Err(GCError::TypeError)
    }
}

impl TaggedPtr {
    /// The null singleton.
    pub fn null() -> (r: TaggedPtr)
        ensures
            r.bits == NULL_BITS,
    {
        TaggedPtr { bits: NULL_BITS }
    }

    /// Encode a double from its IEEE-754 bit pattern. Bit patterns that fall
    /// in the boxed range (quiet NaNs with the boxing bit) are stored as
    /// given; only patterns outside that range read back as numbers.
    pub fn from_num_bits(bits: u64) -> (r: TaggedPtr)
        ensures
            r == encode_num(bits),
    {
        TaggedPtr { bits }
    }

    /// Encode a boolean as its singleton.
    pub fn from_bool(value: bool) -> (r: TaggedPtr)
        ensures
            r == encode_bool(value),
    {
        if value {
            TaggedPtr { bits: TRUE_BITS }
        } else {
            TaggedPtr { bits: FALSE_BITS }
        }
    }

    /// Encode an object pointer. The index must be addressable within the
    /// pointer payload bits.
    pub fn from_object(ptr: ObjectPtr) -> (r: TaggedPtr)
        requires
            ptr.index <= PTR_MASK,
        ensures
            r == encode_object_index(ptr.index as u64),
            is_ptr_bits(r.bits),
            ptr_index_bits(r.bits) == ptr.index as u64,
            !is_num_bits(r.bits),
            !is_bool_bits(r.bits),
            !is_null_bits(r.bits),
    {
        let bits: u64 = PTR_TAG_MASK | (ptr.index as u64);
        proof {
            lemma_object_encoding(ptr.index as u64);
        }
        TaggedPtr { bits }
    }

    pub fn is_num(&self) -> (r: bool)
        ensures
            r == is_num_bits(self.bits),
    {
        self.bits & QUIET_NAN_MASK != QUIET_NAN_MASK
    }

    pub fn is_ptr(&self) -> (r: bool)
        ensures
            r == is_ptr_bits(self.bits),
    {
        self.bits & PTR_TAG_MASK == PTR_TAG_MASK
    }

    pub fn is_null(&self) -> (r: bool)
        ensures
            r == is_null_bits(self.bits),
    {
        self.bits == NULL_BITS
    }

    pub fn is_true_singleton(&self) -> (r: bool)
        ensures
            r == is_true_bits(self.bits),
    {
        self.bits == TRUE_BITS
    }

    pub fn is_false_singleton(&self) -> (r: bool)
        ensures
            r == is_false_bits(self.bits),
    {
        self.bits == FALSE_BITS
    }

    pub fn is_bool(&self) -> (r: bool)
        ensures
            r == is_bool_bits(self.bits),
    {
        self.bits == TRUE_BITS || self.bits == FALSE_BITS
    }

    /// Narrow to a double's bit pattern; `TypeError` on any boxed value,
    /// leaving the source unchanged.
    pub fn to_num_bits(self) -> (r: Result<u64, GCError>)
        ensures
            r == decode_num(self),
            !is_num_bits(self.bits) <==> r == Err::<u64, GCError>(GCError::TypeError),
    {
        if self.bits & QUIET_NAN_MASK != QUIET_NAN_MASK {
            Ok(self.bits)
        } else {
            Err(GCError::TypeError)
        }
    }

    /// Narrow to a boolean; only the two boolean singletons convert.
    pub fn to_bool(self) -> (r: Result<bool, GCError>)
        ensures
            r == decode_bool(self),
            !is_bool_bits(self.bits) <==> r == Err::<bool, GCError>(GCError::TypeError),
    {
        if self.bits == TRUE_BITS {
            Ok(true)
        } else if self.bits == FALSE_BITS {
            Ok(false)
        } else {
            Err(GCError::TypeError)
        }
    }

    /// Narrow to an object pointer; `TypeError` unless the pointer tag is set.
    pub fn to_object(self) -> (r: Result<ObjectPtr, GCError>)
        ensures
            r == decode_object(self),
            !is_ptr_bits(self.bits) <==> r == Err::<ObjectPtr, GCError>(GCError::TypeError),
    {
        if self.bits & PTR_TAG_MASK == PTR_TAG_MASK {
            Ok(ObjectPtr { index: #[verifier::truncate] ((self.bits & PTR_MASK) as usize) })
        } else {
            Err(GCError::TypeError)
        }
    }
}

impl TaggedPtr {
    /// The header of the object this value points to, or `None` when it does
    /// not hold a pointer into the space.
    pub fn header<'a>(&self, space: &'a Space) -> (r: Option<&'a ObjectHeader>)
        requires
            is_ptr_bits(self.bits) ==> ptr_index_bits(self.bits) < space.objects@.len(),
        ensures
            match r {
                Some(h) => is_ptr_bits(self.bits) && *h == space.objects@[ptr_index_bits(
                    self.bits,
                ) as int].header,
                None => !is_ptr_bits(self.bits),
            },
    {
        let n_exec = space.objects.len();
        match self.to_object() {
            Ok(p) => {
                proof {
                    assert(space.objects@.len() == n_exec);
                    assert(p.index as int == ptr_index_bits(self.bits) as int);
                }
                Some(p.header(space))
            },
            Err(_) => None,
        }
    }
}

impl Default for TaggedPtr {
    /// The default tagged value is the null singleton.
    fn default() -> (r: TaggedPtr)
        ensures
            r.bits == NULL_BITS,
            is_null_bits(r.bits),
    {
        TaggedPtr { bits: NULL_BITS }
    }
}

// ---------------------------------------------------------------------------
// Laws of the encoding.
// ---------------------------------------------------------------------------

/// Within the pointer payload range, tagging then untagging is the identity,
/// and a tagged pointer is neither a number, a boolean nor null.
pub proof fn lemma_object_encoding(index: u64)
    by (bit_vector)
    requires
        index <= PTR_MASK,
    ensures
        is_ptr_bits(PTR_TAG_MASK | index),
        ptr_index_bits(PTR_TAG_MASK | index) == index,
        !is_num_bits(PTR_TAG_MASK | index),
        !is_bool_bits(PTR_TAG_MASK | index),
        !is_null_bits(PTR_TAG_MASK | index),
{
}

/// The three singletons are distinct, and none of them is a number or a
/// pointer.
pub proof fn lemma_singleton_encodings()
    by (bit_vector)
    ensures
        NULL_BITS != TRUE_BITS,
        NULL_BITS != FALSE_BITS,
        TRUE_BITS != FALSE_BITS,
        !is_num_bits(NULL_BITS),
        !is_num_bits(TRUE_BITS),
        !is_num_bits(FALSE_BITS),
        !is_ptr_bits(NULL_BITS),
        !is_ptr_bits(TRUE_BITS),
        !is_ptr_bits(FALSE_BITS),
{
}

/// Every double's bit pattern that decodes as a number is disjoint from every
/// singleton and from every pointer encoding; in particular positive and
/// negative zero, the infinities, and the quiet and signalling NaN patterns
/// that hardware arithmetic produces (which leave the boxing bit clear) all
/// decode as numbers.
pub proof fn lemma_singletons_disjoint_from_doubles(bits: u64)
    by (bit_vector)
    ensures
        is_num_bits(bits) ==> bits != NULL_BITS && bits != TRUE_BITS && bits != FALSE_BITS,
        is_num_bits(bits) ==> !is_ptr_bits(bits),
        is_num_bits(0),
        is_num_bits(SIGN_MASK),
        is_num_bits(0x7ff0_0000_0000_0000),
        is_num_bits(0xfff0_0000_0000_0000),
        is_num_bits(0x7ff8_0000_0000_0000),
        is_num_bits(0xfff8_0000_0000_0000),
        is_num_bits(0x7ff0_0000_0000_0001),
{
}

/// Round trip for doubles: any bit pattern outside the boxed range reads back
/// unchanged.
pub proof fn lemma_num_round_trip(bits: u64)
    requires
        is_num_bits(bits),
    ensures
        decode_num(encode_num(bits)) == Ok::<u64, GCError>(bits),
{
}

/// Round trip for booleans.
pub proof fn lemma_bool_round_trip(b: bool)
    ensures
        decode_bool(encode_bool(b)) == Ok::<bool, GCError>(b),
{
    lemma_singleton_encodings();
}

/// Round trip for object pointers within the addressable payload range.
pub proof fn lemma_object_round_trip(ptr: ObjectPtr)
    requires
        ptr.index <= PTR_MASK,
    ensures
        decode_object(encode_object_index(ptr.index as u64)) == Ok::<ObjectPtr, GCError>(ptr),
{
    lemma_object_encoding(ptr.index as u64);
}

/// Mismatched narrowings return `TypeError`: a boxed value refuses the number
/// conversion, a non-singleton refuses the boolean conversion, a non-pointer
/// refuses the object conversion. The source value is never changed, since
/// each conversion only reads its word.
pub proof fn lemma_mismatch_type_error(t: TaggedPtr)
    ensures
        !is_num_bits(t.bits) ==> decode_num(t) == Err::<u64, GCError>(GCError::TypeError),
        !is_bool_bits(t.bits) ==> decode_bool(t) == Err::<bool, GCError>(GCError::TypeError),
        !is_ptr_bits(t.bits) ==> decode_object(t) == Err::<ObjectPtr, GCError>(GCError::TypeError),
        is_null_bits(t.bits) ==> decode_num(t) == Err::<u64, GCError>(GCError::TypeError)
            && decode_bool(t) == Err::<bool, GCError>(GCError::TypeError)
            && decode_object(t) == Err::<ObjectPtr, GCError>(GCError::TypeError),
{
    lemma_singleton_encodings();
}

// ---------------------------------------------------------------------------
// Object pointers and headers.
// ---------------------------------------------------------------------------

/// The fixed footprint of an [`ObjectHeader`] inside a space, in bytes: the
/// size word, the padded type tag, and the forwarding word.
pub const HEADER_SIZE: usize = 24;

/// A pointer to an object's payload: the index of its slot in the current
/// space's object table. The header sits in the same slot, directly before
/// the payload.
#[derive(Copy, Clone, Debug, PartialEq, Eq, Structural)]
pub struct ObjectPtr {
    pub index: usize,
}

impl ObjectPtr {
    /// An object pointer into the heap. They assume there is a corresponding
    /// header laid out directly before them; `Heap::emplace` is a simple way
    /// to get one.
    pub fn new(index: usize) -> (r: ObjectPtr)
        ensures
            r.index == index,
    {
        ObjectPtr { index }
    }

    pub fn addr(&self) -> (r: usize)
        ensures
            r == self.index,
    {
        self.index
    }

    pub fn to_header_ptr(&self) -> (r: HeaderPtr)
        ensures
            r.index == self.index,
    {
        HeaderPtr { index: self.index }
    }

    /// The header of the object this pointer refers to.
    pub fn header<'a>(&self, space: &'a Space) -> (r: &'a ObjectHeader)
        requires
            self.index < space.objects@.len(),
        ensures
            *r == space.objects@[self.index as int].header,
    {
        &space.objects[self.index].header
    }

    pub fn is_type(&self, space: &Space, expected: ObjectType) -> (r: bool)
        requires
            self.index < space.objects@.len(),
        ensures
            r == (space.objects@[self.index as int].header.object_type == expected),
    {
        self.header(space).object_type == expected
    }
}

/// A pointer to an object header: the index of the object's slot in the
/// current space's object table.
#[derive(Copy, Clone, Debug, PartialEq, Eq, Structural)]
pub struct HeaderPtr {
    pub index: usize,
}

impl HeaderPtr {
    pub fn new(index: usize) -> (r: HeaderPtr)
        ensures
            r.index == index,
    {
        HeaderPtr { index }
    }

    pub fn addr(&self) -> (r: usize)
        ensures
            r == self.index,
    {
        self.index
    }

    /// Skip past the header to the payload it precedes.
    pub fn to_object_ptr(&self) -> (r: ObjectPtr)
        ensures
            r.index == self.index,
    {
        ObjectPtr { index: self.index }
    }
}

/// The enumerated kind of a heap object. The core ships only `Host`: a
/// payload holding one indirection cell to a host-provided native object.
#[derive(Copy, Clone, Debug, PartialEq, Eq, Structural)]
pub enum ObjectType {
    Host,
}

/// The per-object metadata written before every payload: the payload's byte
/// count, its type tag, and the forwarding slot used during a collection.
#[derive(Copy, Clone, Debug, PartialEq, Eq, Structural)]
pub struct ObjectHeader {
    pub object_size: usize,
    pub object_type: ObjectType,
    /// When a collection moves the object to the new space, the new header's
    /// address is recorded here. It is `None` outside a collection; during
    /// one it is `Some` exactly when this object has already been copied.
    pub new_header_ptr: Option<HeaderPtr>,
}

impl ObjectHeader {
    /// Header plus payload footprint of this object, in bytes.
    pub open spec fn spec_alloc_size(self) -> int {
        HEADER_SIZE + self.object_size
    }

    /// Reserve header plus payload in the space, write the header at the
    /// start, zero the payload, and return the header's address. The only
    /// error is `NoSpace`, propagated from the space, in which case the
    /// space is unchanged.
    pub fn new(space: &mut Space, object_size: usize, object_type: ObjectType) -> (r: Result<
        HeaderPtr,
        GCError,
    >)
        requires
            old(space).inv(),
            HEADER_SIZE + object_size <= usize::MAX,
        ensures
            final(space).inv(),
            final(space).size_in_bytes == old(space).size_in_bytes,
            match r {
                Ok(hp) => {
                    &&& old(space).next + HEADER_SIZE + object_size <= old(space).size_in_bytes
                    &&& hp.index == old(space).objects@.len()
                    &&& final(space).next == old(space).next + HEADER_SIZE + object_size
                    &&& final(space).objects@ == old(space).objects@.push(
                        (HeapObject {
                            header: (ObjectHeader { object_size, object_type, new_header_ptr: None }),
                            payload: (crate::object::TraceableObject { host_index: 0 }),
                        }),
                    )
                },
                Err(e) => {
                    &&& e == GCError::NoSpace
                    &&& old(space).next + HEADER_SIZE + object_size > old(space).size_in_bytes
                    &&& final(space).next == old(space).next
                    &&& final(space).objects@ == old(space).objects@
                },
            },
    {
        match space.allocate(HEADER_SIZE + object_size) {
            Ok(_offset) => {
                space.objects.push(
                    HeapObject {
                        header: ObjectHeader { object_size, object_type, new_header_ptr: None },
                        payload: crate::object::TraceableObject { host_index: 0 },
                    },
                );
                Ok(HeaderPtr { index: space.objects.len() - 1 })
            },
            Err(e) => Err(e),
        }
    }

    /// The header of the object at `ptr`.
    pub fn from_object_ptr<'a>(space: &'a Space, ptr: ObjectPtr) -> (r: &'a ObjectHeader)
        requires
            ptr.index < space.objects@.len(),
        ensures
            *r == space.objects@[ptr.index as int].header,
    {
        &space.objects[ptr.index].header
    }

    /// Header plus payload in bytes: what the allocator reserved for this
    /// object.
    pub fn alloc_size(&self) -> (r: usize)
        requires
            HEADER_SIZE + self.object_size <= usize::MAX,
        ensures
            r == self.spec_alloc_size(),
    {
        HEADER_SIZE + self.object_size
    }
}

} // verus!
