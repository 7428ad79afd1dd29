//! A memory-safe ownership model over a reference-counted object
//! framework.
//!
//! The layer wraps a family of opaque, reference-counted object categories
//! — strings, byte buffers, arrays, dictionaries, errors, property lists —
//! behind marker types and one owning handle, [`StrongCell`].  The handle
//! owns exactly one retain-count unit and pays exactly one release; casts
//! between categories are checked against the object's runtime type
//! identifier and fail cleanly on a mismatch, never reinterpreting.
//!
//! All object state lives in an explicit storage, [`CFHeap`], whose slots
//! record a retain count and the object's contents.  Every operation
//! states over that storage what it reads and what it changes, so the
//! ownership discipline — who owes which release, which casts may
//! succeed, what a lookup returns — is proved rather than described.

mod array;
mod base;
mod cell;
mod codec;
mod data;
mod dictionary;
mod error;
mod heap;
mod property_list;
mod string;

pub use array::{lemma_iteration_repeatable, CFArray};
pub use base::{
    CFAllocator, CFIndex, CFOptionFlags, CFRange, CFString, CFType, CFTypeAny, CFTypeBehavior,
    CFTypeID, CFTypeWithBaseType,
};
pub use base::{ARRAY_TYPE_ID, DATA_TYPE_ID, DICTIONARY_TYPE_ID, ERROR_TYPE_ID, STRING_TYPE_ID};
pub use cell::{lemma_retain_release_balanced, StrongCell, StrongMutCell, TypeMismatch};
pub use codec::{
    decode_value, encode_value, lemma_decode_encode, lemma_round_trip, spec_decode,
    spec_decode_full, spec_encode, spec_wf, view_of, PlistEntry, PlistVal, PlistValue,
};
pub use data::{lemma_data_round_trip, CFData};
pub use dictionary::{lemma_lookup_absent, lemma_lookup_null_value, spec_lookup, CFDictionary};
pub use error::{CFError, CFErrorDomain};
pub use heap::{spec_desc, spec_tag, CFHeap, CFObj, CFVal};
pub use property_list::{
    spec_decode_error_message, store_models, CFPropertyList, Format, MutabilityOptions,
};
pub use string::{lemma_string_bytes_round_trip, lemma_string_round_trip, CFStringEncoding};
