//! The reference-counted object storage that every handle points into.
//!
//! The wrapped framework keeps all object state in its own storage and hands
//! out opaque references; this module models that storage as a growing table
//! of slots.  A slot records a retain count together with the object's
//! contents, and a handle is an index into the table.  Slots are never
//! reused: releasing a reference only lowers the count, so a stale index
//! stays indexable and every hazard of using one is captured by the
//! contracts rather than by memory corruption.

use vstd::prelude::*;

use crate::base::{
    CFTypeID, ARRAY_TYPE_ID, DATA_TYPE_ID, DICTIONARY_TYPE_ID, ERROR_TYPE_ID, STRING_TYPE_ID,
};

verus! {

/// The contents of one object, at the specification level.
///
/// String and data objects both carry a byte sequence: a string object's
/// bytes are the UTF-8 encoding of its characters, passed through unchanged.
/// Containers carry slot indices of the objects they retain.  A dictionary
/// entry's value may be absent, which stands for an explicit null value.
pub enum CFVal {
    Text(Seq<u8>),
    Data(Seq<u8>),
    Array(Seq<usize>),
    Dictionary(Seq<(Seq<u8>, Option<usize>)>),
    ErrorInfo(Seq<u8>),
}

/// One slot of the object storage, at the specification level.
pub struct CFObj {
    /// How many strong references the slot currently counts.
    pub count: nat,
    /// What the object holds.
    pub val: CFVal,
}

/// The runtime type identifier that tags an object's actual category.
pub open spec fn spec_tag(v: CFVal) -> CFTypeID {
    match v {
        CFVal::Text(_) => STRING_TYPE_ID,
        CFVal::Data(_) => DATA_TYPE_ID,
        CFVal::Array(_) => ARRAY_TYPE_ID,
        CFVal::Dictionary(_) => DICTIONARY_TYPE_ID,
        CFVal::ErrorInfo(_) => ERROR_TYPE_ID,
    }
}

/// The description bytes of an object: a string object describes itself by
/// its own content, an error object by its message; container and data
/// objects answer with a fixed marker naming their category.
pub open spec fn spec_desc(v: CFVal) -> Seq<u8> {
    match v {
        CFVal::Text(b) => b,
        CFVal::Data(_) => spec_data_desc(),
        CFVal::Array(_) => spec_array_desc(),
        CFVal::Dictionary(_) => spec_dictionary_desc(),
        CFVal::ErrorInfo(m) => m,
    }
}

/// The bytes of `"<CFData>"`.
pub open spec fn spec_data_desc() -> Seq<u8> {
    seq![60u8, 67u8, 70u8, 68u8, 97u8, 116u8, 97u8, 62u8]
}

/// The bytes of `"<CFArray>"`.
pub open spec fn spec_array_desc() -> Seq<u8> {
    seq![60u8, 67u8, 70u8, 65u8, 114u8, 114u8, 97u8, 121u8, 62u8]
}

/// The bytes of `"<CFDictionary>"`.
pub open spec fn spec_dictionary_desc() -> Seq<u8> {
    seq![60u8, 67u8, 70u8, 68u8, 105u8, 99u8, 116u8, 105u8, 111u8, 110u8, 97u8, 114u8, 121u8, 62u8]
}

/// The executable form of a dictionary entry.
pub(crate) struct DictEntry {
    pub(crate) key: Vec<u8>,
    pub(crate) value: Option<usize>,
}

impl DictEntry {
    pub(crate) open spec fn entry_view(&self) -> (Seq<u8>, Option<usize>) {
        (self.key@, self.value)
    }
}

/// The executable form of an object's contents.
pub(crate) enum CFValue {
    Text(Vec<u8>),
    Data(Vec<u8>),
    Array(Vec<usize>),
    Dictionary(Vec<DictEntry>),
    ErrorInfo(Vec<u8>),
}

impl CFValue {
    pub(crate) open spec fn value_view(&self) -> CFVal {
        match self {
            CFValue::Text(b) => CFVal::Text(b@),
            CFValue::Data(b) => CFVal::Data(b@),
            CFValue::Array(ids) => CFVal::Array(ids@),
            CFValue::Dictionary(entries) => CFVal::Dictionary(
                Seq::new(entries@.len(), |i: int| entries@[i].entry_view()),
            ),
            CFValue::ErrorInfo(m) => CFVal::ErrorInfo(m@),
        }
    }
}

struct Slot {
    count: u64,
    value: CFValue,
}

/// The object storage itself.  Its view is the sequence of slots allocated
/// so far, oldest first.
pub struct CFHeap {
    slots: Vec<Slot>,
}

impl View for CFHeap {
    type V = Seq<CFObj>;

    closed spec fn view(&self) -> Seq<CFObj> {
        Seq::new(
            self.slots@.len(),
            |i: int| CFObj { count: self.slots@[i].count as nat, val: self.slots@[i].value.value_view() },
        )
    }
}

/// An index referenced from a container must itself be an allocated slot.
pub open spec fn val_wf(v: CFVal, n: int) -> bool {
    match v {
        CFVal::Text(_) => true,
        CFVal::Data(_) => true,
        CFVal::Array(ids) => forall|i: int| 0 <= i < ids.len() ==> (#[trigger] ids[i]) < n,
        CFVal::Dictionary(entries) => forall|i: int|
            0 <= i < entries.len() ==> ((#[trigger] entries[i]).1 matches Some(id) ==> id < n),
        CFVal::ErrorInfo(_) => true,
    }
}

impl CFHeap {
    /// True of a slot index that has been handed out.
    pub open spec fn allocated(&self, id: int) -> bool {
        0 <= id < self@.len()
    }

    /// The retain count the slot currently records.
    pub open spec fn count_of(&self, id: int) -> nat {
        self@[id].count
    }

    /// The contents of the slot.
    pub open spec fn val_of(&self, id: int) -> CFVal {
        self@[id].val
    }

    /// The runtime type identifier of the object in the slot.
    pub open spec fn tag_of(&self, id: int) -> CFTypeID {
        spec_tag(self.val_of(id))
    }

    /// An allocated slot whose count still backs at least one strong handle.
    pub open spec fn live(&self, id: int) -> bool {
        self.allocated(id) && self.count_of(id) >= 1
    }

    pub open spec fn is_text(&self, id: int) -> bool {
        self.allocated(id) && self.val_of(id) is Text
    }

    pub open spec fn text_of(&self, id: int) -> Seq<u8> {
        self.val_of(id)->Text_0
    }

    pub open spec fn is_data(&self, id: int) -> bool {
        self.allocated(id) && self.val_of(id) is Data
    }

    pub open spec fn data_of(&self, id: int) -> Seq<u8> {
        self.val_of(id)->Data_0
    }

    pub open spec fn is_array(&self, id: int) -> bool {
        self.allocated(id) && self.val_of(id) is Array
    }

    pub open spec fn elems_of(&self, id: int) -> Seq<usize> {
        self.val_of(id)->Array_0
    }

    pub open spec fn is_dictionary(&self, id: int) -> bool {
        self.allocated(id) && self.val_of(id) is Dictionary
    }

    pub open spec fn entries_of(&self, id: int) -> Seq<(Seq<u8>, Option<usize>)> {
        self.val_of(id)->Dictionary_0
    }

    pub open spec fn is_error(&self, id: int) -> bool {
        self.allocated(id) && self.val_of(id) is ErrorInfo
    }

    pub open spec fn error_of(&self, id: int) -> Seq<u8> {
        self.val_of(id)->ErrorInfo_0
    }

    /// Every container in the storage references only allocated slots.
    pub open spec fn wf(&self) -> bool {
        forall|id: int|
            0 <= id < self@.len() ==> val_wf((#[trigger] self@[id]).val, self@.len() as int)
    }

    /// An empty storage with no objects.
    pub fn new() -> (h: CFHeap)
        ensures
            h@ == Seq::<CFObj>::empty(),
            h.wf(),
    {
        let h = CFHeap { slots: Vec::new() };
        proof {
            assert(h@ =~= Seq::<CFObj>::empty());
        }
        h
    }

    /// Allocates a fresh slot with a retain count of one.
    pub(crate) fn allocate(&mut self, value: CFValue) -> (id: usize)
        requires
            val_wf(value.value_view(), old(self)@.len() as int),
        ensures
            id == old(self)@.len(),
            final(self)@ == old(self)@.push(CFObj { count: 1nat, val: value.value_view() }),
            old(self).wf() ==> final(self).wf(),
    {
        let id = self.slots.len();
        let ghost old_view = self@;
        let ghost v = value.value_view();
        self.slots.push(Slot { count: 1, value });
        proof {
            assert(self@ =~= old_view.push(CFObj { count: 1nat, val: v }));
            if old(self).wf() {
                assert forall|j: int| 0 <= j < self@.len() implies val_wf(
                    (#[trigger] self@[j]).val,
                    self@.len() as int,
                ) by {
                    if j < old_view.len() {
                        assert(val_wf(old_view[j].val, old_view.len() as int));
                        lemma_val_wf_widen(old_view[j].val, old_view.len() as int, self@.len() as int);
                    } else {
                        lemma_val_wf_widen(v, old_view.len() as int, self@.len() as int);
                    }
                }
            }
        }
        id
    }

    /// Raises the slot's retain count by one.
    pub(crate) fn retain_at(&mut self, id: usize)
        requires
            old(self).allocated(id as int),
            old(self).count_of(id as int) < u64::MAX,
        ensures
            final(self)@ == old(self)@.update(
                id as int,
                CFObj { count: (old(self).count_of(id as int) + 1) as nat, val: old(self).val_of(id as int) },
            ),
    {
        let ghost old_view = self@;
        let c = self.slots[id].count;
        self.slots[id].count = c + 1;
        proof {
            assert(self@ =~= old_view.update(
                id as int,
                CFObj { count: (old_view[id as int].count + 1) as nat, val: old_view[id as int].val },
            ));
        }
    }

    /// Lowers the slot's retain count by one.  The slot itself stays in
    /// place: reclaiming the memory belongs to the wrapped framework, not to
    /// this model of it.
    pub(crate) fn release_at(&mut self, id: usize)
        requires
            old(self).live(id as int),
        ensures
            final(self)@ == old(self)@.update(
                id as int,
                CFObj { count: (old(self).count_of(id as int) - 1) as nat, val: old(self).val_of(id as int) },
            ),
    {
        let ghost old_view = self@;
        let c = self.slots[id].count;
        self.slots[id].count = c - 1;
        proof {
            assert(self@ =~= old_view.update(
                id as int,
                CFObj { count: (old_view[id as int].count - 1) as nat, val: old_view[id as int].val },
            ));
        }
    }

    /// Reads the slot's contents.
    pub(crate) fn value_at(&self, id: usize) -> (r: &CFValue)
        requires
            self.allocated(id as int),
        ensures
            r.value_view() == self.val_of(id as int),
    {
        &self.slots[id].value
    }

    /// Reads the slot's runtime type identifier.
    pub(crate) fn tag_at(&self, id: usize) -> (t: CFTypeID)
        requires
            self.allocated(id as int),
        ensures
            t == self.tag_of(id as int),
    {
        match &self.slots[id].value {
            CFValue::Text(_) => STRING_TYPE_ID,
            CFValue::Data(_) => DATA_TYPE_ID,
            CFValue::Array(_) => ARRAY_TYPE_ID,
            CFValue::Dictionary(_) => DICTIONARY_TYPE_ID,
            CFValue::ErrorInfo(_) => ERROR_TYPE_ID,
        }
    }
}

/// Well-formedness of a value only constrains the indices it references,
/// so it survives when the storage grows.
proof fn lemma_val_wf_widen(v: CFVal, n: int, m: int)
    requires
        val_wf(v, n),
        n <= m,
    ensures
        val_wf(v, m),
{
}

/// Copies a byte vector.
pub(crate) fn clone_bytes(v: &Vec<u8>) -> (r: Vec<u8>)
    ensures
        r@ == v@,
{
    let mut r: Vec<u8> = Vec::new();
    let mut i: usize = 0;
    while i < v.len()
        invariant
            i <= v.len(),
            r@ == v@.subrange(0, i as int),
        decreases v.len() - i,
    {
        r.push(v[i]);
        proof {
            assert(r@ =~= v@.subrange(0, i + 1 as int));
        }
        i = i + 1;
    }
    proof {
        assert(r@ =~= v@);
    }
    r
}

/// Compares two byte vectors for equal contents.
pub(crate) fn bytes_eq(a: &Vec<u8>, b: &Vec<u8>) -> (r: bool)
    ensures
        r == (a@ == b@),
{
    if a.len() != b.len() {
        return false;
    }
    let mut i: usize = 0;
    while i < a.len()
        invariant
            i <= a.len(),
            a@.len() == b@.len(),
            forall|j: int| 0 <= j < i ==> a@[j] == b@[j],
        decreases a.len() - i,
    {
        if a[i] != b[i] {
            return false;
        }
        i = i + 1;
    }
    proof {
        assert(a@ =~= b@);
    }
    true
}

/// Builds the description bytes of a data object.
pub(crate) fn data_desc_bytes() -> (r: Vec<u8>)
    ensures
        r@ == spec_data_desc(),
{
    let r: Vec<u8> = vec![60u8, 67u8, 70u8, 68u8, 97u8, 116u8, 97u8, 62u8];
    proof {
        assert(r@ =~= spec_data_desc());
    }
    r
}

/// Builds the description bytes of an array object.
pub(crate) fn array_desc_bytes() -> (r: Vec<u8>)
    ensures
        r@ == spec_array_desc(),
{
    let r: Vec<u8> = vec![60u8, 67u8, 70u8, 65u8, 114u8, 114u8, 97u8, 121u8, 62u8];
    proof {
        assert(r@ =~= spec_array_desc());
    }
    r
}

/// Builds the description bytes of a dictionary object.
pub(crate) fn dictionary_desc_bytes() -> (r: Vec<u8>)
    ensures
        r@ == spec_dictionary_desc(),
{
    let r: Vec<u8> = vec![
        60u8, 67u8, 70u8, 68u8, 105u8, 99u8, 116u8, 105u8, 111u8, 110u8, 97u8, 114u8, 121u8, 62u8,
    ];
    proof {
        assert(r@ =~= spec_dictionary_desc());
    }
    r
}

} // verus!
