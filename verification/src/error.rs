//! Error objects, as fallible framework calls hand them back.
//!
//! An error object carries a message; the description call reads it.  A
//! failed decode returns a strong handle to such an object, so the cause
//! survives as long as the caller keeps the handle.

use vstd::prelude::*;

use crate::base::{CFString, CFType};
use crate::heap::{clone_bytes, CFHeap, CFValue};

verus! {

/// A reference to an error object.
#[derive(Debug)]
pub struct CFError {
    id: usize,
}

impl CFType for CFError {
    closed spec fn spec_id(&self) -> usize {
        self.id
    }

    fn raw(&self) -> usize {
        self.id
    }

    fn from_raw(id: usize) -> Self {
        CFError { id }
    }
}

/// The domain of an error is itself a string object.
pub type CFErrorDomain = CFString;

impl CFError {
    /// Reads the error's message bytes.
    pub fn message(&self, heap: &CFHeap) -> (r: Vec<u8>)
        requires
            heap.is_error(self.spec_id() as int),
        ensures
            r@ == heap.error_of(self.spec_id() as int),
    {
        match heap.value_at(self.raw()) {
            CFValue::ErrorInfo(m) => clone_bytes(m),
            _ => unreached(),
        }
    }
}

} // verus!
