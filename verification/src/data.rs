//! Data objects: opaque byte buffers.
//!
//! A data object stores a byte sequence unchanged.  The accessors read it
//! back exactly: the length, a byte at an index, and the whole contents.

use vstd::prelude::*;

use vstd::slice::slice_to_vec;
use vstd::string::StringSliceAdditionalSpecFns;
use vstd::string::StrSliceExecFns;
use vstd::utf8::encode_utf8;

use crate::base::{CFType, CFTypeID, CFTypeWithBaseType, DATA_TYPE_ID};
use crate::cell::StrongCell;
use crate::heap::{CFHeap, CFObj, CFVal, CFValue};

verus! {

/// A reference to a data object.
#[derive(Debug)]
pub struct CFData {
    id: usize,
}

impl CFType for CFData {
    closed spec fn spec_id(&self) -> usize {
        self.id
    }

    fn raw(&self) -> usize {
        self.id
    }

    fn from_raw(id: usize) -> Self {
        CFData { id }
    }
}

impl CFTypeWithBaseType for CFData {
    open spec fn spec_type_id() -> CFTypeID {
        DATA_TYPE_ID
    }

    fn type_id() -> CFTypeID {
        DATA_TYPE_ID
    }
}

#[allow(non_snake_case)]
impl CFData {
    /// Creates a data object holding the UTF-8 bytes of the given text and
    /// returns a strong handle to it.
    pub fn from_str(heap: &mut CFHeap, s: &str) -> (r: StrongCell<CFData>)
        requires
            old(heap).wf(),
        ensures
            final(heap)@ == old(heap)@.push(
                CFObj { count: 1nat, val: CFVal::Data(encode_utf8(s@)) },
            ),
            final(heap).wf(),
            r.id() == old(heap)@.len(),
    {
        let bytes = s.as_bytes_vec();
        let id = heap.allocate(CFValue::Data(bytes));
        StrongCell::assuming_retained_nonnull(CFData::from_raw(id))
    }

    /// Copies the given slice into a fresh data object and returns a
    /// strong handle to it.
    pub fn copy_slice(heap: &mut CFHeap, slice: &[u8]) -> (r: StrongCell<CFData>)
        requires
            old(heap).wf(),
        ensures
            final(heap)@ == old(heap)@.push(CFObj { count: 1nat, val: CFVal::Data(slice@) }),
            final(heap).wf(),
            r.id() == old(heap)@.len(),
    {
        let bytes = slice_to_vec(slice);
        let id = heap.allocate(CFValue::Data(bytes));
        StrongCell::assuming_retained_nonnull(CFData::from_raw(id))
    }

    /// The number of bytes the object holds.
    pub fn GetLength(&self, heap: &CFHeap) -> (r: usize)
        requires
            heap.is_data(self.spec_id() as int),
        ensures
            r == heap.data_of(self.spec_id() as int).len(),
    {
        match heap.value_at(self.raw()) {
            CFValue::Data(b) => b.len(),
            _ => unreached(),
        }
    }

    /// Reads the byte at the given index.  Reading past the length is the
    /// documented hazard of the raw byte accessor, so the bound is a
    /// precondition here rather than a runtime surprise.
    pub fn byte_at(&self, heap: &CFHeap, i: usize) -> (r: u8)
        requires
            heap.is_data(self.spec_id() as int),
            i < heap.data_of(self.spec_id() as int).len(),
        ensures
            r == heap.data_of(self.spec_id() as int)[i as int],
    {
        match heap.value_at(self.raw()) {
            CFValue::Data(b) => b[i],
            _ => unreached(),
        }
    }

    /// Borrows the whole contents for as long as the storage borrow lives.
    pub fn as_slice<'a>(&self, heap: &'a CFHeap) -> (r: &'a Vec<u8>)
        requires
            heap.is_data(self.spec_id() as int),
        ensures
            r@ == heap.data_of(self.spec_id() as int),
    {
        match heap.value_at(self.raw()) {
            CFValue::Data(b) => b,
            _ => unreached(),
        }
    }
}

/// Law: a data object built from a byte sequence stores exactly those
/// bytes — the slot that [`CFData::copy_slice`] creates reads back
/// unchanged, whatever the length of the sequence.
pub proof fn lemma_data_round_trip(h: Seq<CFObj>, d: Seq<u8>)
    ensures
        h.push(CFObj { count: 1nat, val: CFVal::Data(d) })[h.len() as int].val->Data_0 == d,
{
}

} // verus!
