//! Dictionary objects: keyed containers of other objects.
//!
//! A lookup answers with a borrowed, category-erased reference, or with
//! nothing.  "Nothing" covers two cases the layer cannot tell apart: the
//! key is absent, or the key is present with an explicit null value.  The
//! contracts state that collapse exactly rather than pretending to
//! resolve it.

use vstd::prelude::*;

use crate::base::{CFString, CFType, CFTypeAny, CFTypeID, CFTypeWithBaseType, DICTIONARY_TYPE_ID};
use crate::heap::{bytes_eq, CFHeap, CFValue};

verus! {

/// A reference to a dictionary object.
#[derive(Debug)]
pub struct CFDictionary {
    id: usize,
}

impl CFType for CFDictionary {
    closed spec fn spec_id(&self) -> usize {
        self.id
    }

    fn raw(&self) -> usize {
        self.id
    }

    fn from_raw(id: usize) -> Self {
        CFDictionary { id }
    }
}

impl CFTypeWithBaseType for CFDictionary {
    open spec fn spec_type_id() -> CFTypeID {
        DICTIONARY_TYPE_ID
    }

    fn type_id() -> CFTypeID {
        DICTIONARY_TYPE_ID
    }
}

/// What a lookup yields: the value slot of the first entry carrying the
/// key.  An absent key and a key whose entry carries no value both yield
/// nothing.
pub open spec fn spec_lookup(entries: Seq<(Seq<u8>, Option<usize>)>, key: Seq<u8>) -> Option<usize>
    decreases entries,
{
    if entries.len() == 0 {
        None
    } else if entries[0].0 == key {
        entries[0].1
    } else {
        spec_lookup(entries.drop_first(), key)
    }
}

/// Skipping entries that do not carry the key leaves the lookup's answer
/// unchanged.
proof fn lemma_lookup_skip(entries: Seq<(Seq<u8>, Option<usize>)>, key: Seq<u8>, i: int)
    requires
        0 <= i <= entries.len(),
        forall|j: int| 0 <= j < i ==> (#[trigger] entries[j]).0 != key,
    ensures
        spec_lookup(entries, key) == spec_lookup(entries.skip(i), key),
    decreases i,
{
    if i > 0 {
        assert(entries.drop_first().skip(i - 1) =~= entries.skip(i));
        lemma_lookup_skip(entries.drop_first(), key, i - 1);
    } else {
        assert(entries.skip(0) =~= entries);
    }
}

impl CFDictionary {
    /// Looks the key up by its raw slot index.  The index must denote a
    /// string object; its content is the key compared against the
    /// entries.  The answer may be nothing: then either the key is not
    /// present, or it is present with the explicit null value.
    pub fn get_with_ptr(&self, heap: &CFHeap, key: usize) -> (r: Option<CFTypeAny>)
        requires
            heap.is_dictionary(self.spec_id() as int),
            heap.is_text(key as int),
        ensures
            r is Some <==> spec_lookup(
                heap.entries_of(self.spec_id() as int),
                heap.text_of(key as int),
            ) is Some,
            r matches Some(x) ==> Some(x.spec_id()) == spec_lookup(
                heap.entries_of(self.spec_id() as int),
                heap.text_of(key as int),
            ),
    {
        let ghost spec_entries = heap.entries_of(self.spec_id() as int);
        let ghost key_bytes = heap.text_of(key as int);
        let kb = match heap.value_at(key) {
            CFValue::Text(b) => b,
            _ => unreached(),
        };
        let entries = match heap.value_at(self.raw()) {
            CFValue::Dictionary(entries) => entries,
            _ => unreached(),
        };
        let mut i: usize = 0;
        while i < entries.len()
            invariant
                i <= entries.len(),
                spec_entries == heap.entries_of(self.spec_id() as int),
                key_bytes == heap.text_of(key as int),
                kb@ == key_bytes,
                entries@.len() == spec_entries.len(),
                forall|j: int| 0 <= j < entries@.len() ==> (#[trigger] entries@[j]).entry_view()
                    == spec_entries[j],
                forall|j: int| 0 <= j < i ==> (#[trigger] spec_entries[j]).0 != key_bytes,
            decreases entries.len() - i,
        {
            if bytes_eq(&entries[i].key, kb) {
                proof {
                    lemma_lookup_skip(spec_entries, key_bytes, i as int);
                    assert(spec_entries[i as int] == entries@[i as int].entry_view());
                    assert(spec_entries[i as int].0 == key_bytes);
                    assert(spec_entries.skip(i as int).len() > 0);
                    assert(spec_entries.skip(i as int)[0] == spec_entries[i as int]);
                    assert(spec_lookup(spec_entries, key_bytes) == spec_entries[i as int].1);
                    assert(spec_entries[i as int].1 == entries@[i as int].value);
                }
                return match entries[i].value {
                    Some(v) => Some(CFTypeAny::from_raw(v)),
                    None => None,
                };
            }
            i = i + 1;
        }
        proof {
            lemma_lookup_skip(spec_entries, key_bytes, spec_entries.len() as int);
            assert(spec_entries.skip(spec_entries.len() as int).len() == 0);
        }
        None
    }

    /// Looks up the given string key.  The answer may be nothing: then
    /// either the key is not present, or it is present with the explicit
    /// null value — the two cases are indistinguishable here.
    pub fn get_with_key(&self, heap: &CFHeap, key: &CFString) -> (r: Option<CFTypeAny>)
        requires
            heap.is_dictionary(self.spec_id() as int),
            heap.is_text(key.spec_id() as int),
        ensures
            ({
                let found = spec_lookup(
                    heap.entries_of(self.spec_id() as int),
                    heap.text_of(key.spec_id() as int),
                );
                &&& (r is Some <==> found is Some)
                &&& (r matches Some(x) ==> Some(x.spec_id()) == found)
            }),
    {
        self.get_with_ptr(heap, key.raw())
    }
}

/// Law: looking up a key that no entry carries yields nothing.
pub proof fn lemma_lookup_absent(entries: Seq<(Seq<u8>, Option<usize>)>, key: Seq<u8>)
    requires
        forall|j: int| 0 <= j < entries.len() ==> (#[trigger] entries[j]).0 != key,
    ensures
        spec_lookup(entries, key) is None,
{
    lemma_lookup_skip(entries, key, entries.len() as int);
    assert(entries.skip(entries.len() as int).len() == 0);
}

/// Law: a key whose first entry carries the explicit null value also
/// yields nothing — at this layer the two cases collapse, exactly as
/// [`lemma_lookup_absent`] answers for the absent key.
pub proof fn lemma_lookup_null_value(
    entries: Seq<(Seq<u8>, Option<usize>)>,
    key: Seq<u8>,
    i: int,
)
    requires
        0 <= i < entries.len(),
        entries[i].0 == key,
        entries[i].1 is None,
        forall|j: int| 0 <= j < i ==> (#[trigger] entries[j]).0 != key,
    ensures
        spec_lookup(entries, key) is None,
{
    lemma_lookup_skip(entries, key, i);
    assert(entries.skip(i)[0] == entries[i]);
}

} // verus!
