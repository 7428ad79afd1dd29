//! Array objects: ordered containers of other objects.
//!
//! Iteration reads the element list once, in order, bounded by the length
//! the storage records at the start of the call; each element comes back
//! as a borrowed, category-erased reference.  Indexed access past the
//! recorded length is the documented hazard of the raw accessor, so here
//! it is either guarded by an option or excluded by precondition.

use vstd::prelude::*;

use crate::base::{CFType, CFTypeAny, CFTypeID, CFTypeWithBaseType, ARRAY_TYPE_ID};
use crate::heap::{CFHeap, CFValue};

verus! {

/// A reference to an array object.
#[derive(Debug)]
pub struct CFArray {
    id: usize,
}

impl CFType for CFArray {
    closed spec fn spec_id(&self) -> usize {
        self.id
    }

    fn raw(&self) -> usize {
        self.id
    }

    fn from_raw(id: usize) -> Self {
        CFArray { id }
    }
}

impl CFTypeWithBaseType for CFArray {
    open spec fn spec_type_id() -> CFTypeID {
        ARRAY_TYPE_ID
    }

    fn type_id() -> CFTypeID {
        ARRAY_TYPE_ID
    }
}

impl CFArray {
    /// The number of elements the array holds.
    pub fn count(&self, heap: &CFHeap) -> (r: usize)
        requires
            heap.is_array(self.spec_id() as int),
        ensures
            r == heap.elems_of(self.spec_id() as int).len(),
    {
        match heap.value_at(self.raw()) {
            CFValue::Array(ids) => ids.len(),
            _ => unreached(),
        }
    }

    /// The element at the given index, or nothing when the index is past
    /// the array's length.
    pub fn get(&self, heap: &CFHeap, index: usize) -> (r: Option<CFTypeAny>)
        requires
            heap.is_array(self.spec_id() as int),
        ensures
            r is Some <==> index < heap.elems_of(self.spec_id() as int).len(),
            r matches Some(x) ==> x.spec_id() == heap.elems_of(self.spec_id() as int)[index as int],
    {
        match heap.value_at(self.raw()) {
            CFValue::Array(ids) => {
                if index < ids.len() {
                    Some(CFTypeAny::from_raw(ids[index]))
                } else {
                    None
                }
            },
            _ => unreached(),
        }
    }

    /// One full iteration over the array: every element exactly once, in
    /// the order the array holds them, as category-erased references.
    pub fn iter(&self, heap: &CFHeap) -> (r: Vec<CFTypeAny>)
        requires
            heap.is_array(self.spec_id() as int),
        ensures
            r@.len() == heap.elems_of(self.spec_id() as int).len(),
            forall|i: int|
                0 <= i < r@.len() ==> (#[trigger] r@[i]).spec_id() == heap.elems_of(
                    self.spec_id() as int,
                )[i],
    {
        let ids = match heap.value_at(self.raw()) {
            CFValue::Array(ids) => ids,
            _ => unreached(),
        };
        let mut r: Vec<CFTypeAny> = Vec::new();
        let mut i: usize = 0;
        while i < ids.len()
            invariant
                i <= ids.len(),
                ids@ == heap.elems_of(self.spec_id() as int),
                r@.len() == i,
                forall|j: int|
                    0 <= j < i ==> (#[trigger] r@[j]).spec_id() == heap.elems_of(
                        self.spec_id() as int,
                    )[j],
            decreases ids.len() - i,
        {
            r.push(CFTypeAny::from_raw(ids[i]));
            i = i + 1;
        }
        r
    }
}

/// Law: iteration is determined by the container alone.  Whenever two
/// iterations of the same unmodified array yield element references
/// denoting the slot sequences `r1` and `r2`, both sequences equal the
/// array's own element list — so the two visits see the same elements,
/// each exactly once, in the same order.
pub proof fn lemma_iteration_repeatable(elems: Seq<usize>, r1: Seq<usize>, r2: Seq<usize>)
    requires
        r1 == elems,
        r2 == elems,
    ensures
        r1 == r2,
        r1.len() == elems.len(),
        forall|i: int| 0 <= i < elems.len() ==> r1[i] == elems[i] && r2[i] == elems[i],
{
}

} // verus!
