//! Base vocabulary of the binding layer: raw index and flag types, the
//! category traits, and the behavior shared by every object reference.
//!
//! Each object category is a marker type holding nothing but the slot index
//! of the object it denotes; all object state lives in the [`CFHeap`]
//! storage.  A marker type's static category and the runtime type
//! identifier recorded in the storage are two different things, and the
//! whole point of the checked cast is to compare them before a reference is
//! reinterpreted.

use vstd::prelude::*;

use crate::cell::StrongCell;
use crate::heap::{spec_desc, CFHeap, CFObj, CFVal, CFValue};
use crate::heap::{array_desc_bytes, clone_bytes, data_desc_bytes, dictionary_desc_bytes};

verus! {

/// Option flags as the wrapped framework passes them: a plain machine word.
pub type CFOptionFlags = u64;

/// A runtime type identifier, naming an object's actual category.
pub type CFTypeID = u64;

/// The framework's index type for lengths and positions.
pub type CFIndex = i64;

/// The fixed type identifier of string objects.
pub const STRING_TYPE_ID: CFTypeID = 7;

/// The fixed type identifier of dictionary objects.
pub const DICTIONARY_TYPE_ID: CFTypeID = 18;

/// The fixed type identifier of array objects.
pub const ARRAY_TYPE_ID: CFTypeID = 19;

/// The fixed type identifier of data objects.
pub const DATA_TYPE_ID: CFTypeID = 20;

/// The fixed type identifier of error objects.
pub const ERROR_TYPE_ID: CFTypeID = 28;

/// A contiguous range of indices, as the framework's calls take it.
#[derive(Clone, Copy, PartialEq, Eq, Structural, Debug)]
pub struct CFRange {
    pub location: CFIndex,
    pub length: CFIndex,
}

/// Implemented by every object-reference marker type.
///
/// A value of such a type stands for one object reference: it records the
/// slot index of the object and nothing else.  Constructing one from a raw
/// index does not by itself make it meaningful; every operation states in
/// its `requires` what must hold of the index in the storage, which is the
/// caller-upheld part of the contract.
pub trait CFType: Sized {
    /// The slot index this reference denotes.
    spec fn spec_id(&self) -> usize;

    /// Reads the raw slot index out of the reference.
    fn raw(&self) -> (r: usize)
        ensures
            r == self.spec_id(),
    ;

    /// Builds a reference from a raw slot index, asserting nothing about it.
    fn from_raw(id: usize) -> (r: Self)
        ensures
            r.spec_id() == id,
    ;
}

/// Categories with a fixed, known type identifier: the cast targets.
pub trait CFTypeWithBaseType: CFType {
    /// The category's expected type identifier.
    spec fn spec_type_id() -> CFTypeID;

    /// Returns the category's expected type identifier.
    fn type_id() -> (r: CFTypeID)
        ensures
            r == Self::spec_type_id(),
    ;
}

/// A reference to a string object.
#[derive(Debug)]
pub struct CFString {
    id: usize,
}

impl CFType for CFString {
    closed spec fn spec_id(&self) -> usize {
        self.id
    }

    fn raw(&self) -> usize {
        self.id
    }

    fn from_raw(id: usize) -> Self {
        CFString { id }
    }
}

impl CFTypeWithBaseType for CFString {
    open spec fn spec_type_id() -> CFTypeID {
        STRING_TYPE_ID
    }

    fn type_id() -> CFTypeID {
        STRING_TYPE_ID
    }
}

/// A reference to an object of unknown category, as lookups hand it out.
#[derive(Debug)]
pub struct CFTypeAny {
    id: usize,
}

impl CFType for CFTypeAny {
    closed spec fn spec_id(&self) -> usize {
        self.id
    }

    fn raw(&self) -> usize {
        self.id
    }

    fn from_raw(id: usize) -> Self {
        CFTypeAny { id }
    }
}

/// The allocator argument of the framework's creation calls.
///
/// The storage model allocates its own slots, so the only allocator a
/// caller can name is the absent one, which selects the default.
#[derive(Debug)]
pub struct CFAllocator;

impl CFAllocator {
    /// The absent allocator: creation calls take it to mean the default.
    pub fn null() -> (r: Option<CFAllocator>)
        ensures
            r is None,
    {
        None
    }
}

/// Operations every object reference supports, whatever its category.
pub trait CFTypeBehavior: CFType {
    /// Creates a string object describing this object and returns a strong
    /// handle to it.  A string object describes itself by its own content,
    /// an error object by its message, and other categories by a fixed
    /// marker naming the category.
    fn description(&self, heap: &mut CFHeap) -> (r: StrongCell<CFString>)
        requires
            old(heap).wf(),
            old(heap).allocated(self.spec_id() as int),
        ensures
            final(heap)@ == old(heap)@.push(
                CFObj {
                    count: 1nat,
                    val: CFVal::Text(spec_desc(old(heap).val_of(self.spec_id() as int))),
                },
            ),
            final(heap).wf(),
            r.id() == old(heap)@.len(),
    ;

    /// Reads the object's runtime type identifier from the storage.
    fn type_id(&self, heap: &CFHeap) -> (r: CFTypeID)
        requires
            heap.allocated(self.spec_id() as int),
        ensures
            r == heap.tag_of(self.spec_id() as int),
    ;

    /// Checked cast of a borrowed reference: succeeds, with a reference to
    /// the same slot, exactly when the object's runtime type identifier
    /// matches the target category's expected identifier.
    fn checked_cast<R: CFTypeWithBaseType>(&self, heap: &CFHeap) -> (r: Option<R>)
        requires
            heap.allocated(self.spec_id() as int),
        ensures
            r is Some <==> heap.tag_of(self.spec_id() as int) == R::spec_type_id(),
            r matches Some(x) ==> x.spec_id() == self.spec_id(),
    ;

    /// Erases the reference to its raw slot index.
    fn as_ptr(&self) -> (r: usize)
        ensures
            r == self.spec_id(),
    ;

    /// Rebuilds a reference from a raw slot index, asserting nothing about
    /// it; what must hold of the index is stated where the result is used.
    fn from_ptr(id: usize) -> (r: Self)
        ensures
            r.spec_id() == id,
    ;
}

impl<T: CFType> CFTypeBehavior for T {
    fn description(&self, heap: &mut CFHeap) -> (r: StrongCell<CFString>) {
        let id = self.raw();
        let bytes: Vec<u8> = match heap.value_at(id) {
            CFValue::Text(b) => clone_bytes(b),
            CFValue::Data(_) => data_desc_bytes(),
            CFValue::Array(_) => array_desc_bytes(),
            CFValue::Dictionary(_) => dictionary_desc_bytes(),
            CFValue::ErrorInfo(m) => clone_bytes(m),
        };
        let new_id = heap.allocate(CFValue::Text(bytes));
        StrongCell::assuming_retained_nonnull(CFString::from_raw(new_id))
    }

    fn type_id(&self, heap: &CFHeap) -> (r: CFTypeID) {
        heap.tag_at(self.raw())
    }

    fn checked_cast<R: CFTypeWithBaseType>(&self, heap: &CFHeap) -> (r: Option<R>) {
        let actual = heap.tag_at(self.raw());
        if actual == R::type_id() {
            Some(R::from_raw(self.raw()))
        } else {
            None
        }
    }

    fn as_ptr(&self) -> (r: usize) {
        self.raw()
    }

    fn from_ptr(id: usize) -> (r: Self) {
        Self::from_raw(id)
    }
}

} // verus!
