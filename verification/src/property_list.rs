//! Property lists: decoding a framed buffer into the object storage.
//!
//! A decode takes a data object and an expected-mutability option.  On
//! success it creates the decoded object graph in the storage and returns
//! a strong handle to a category-erased result, which the caller then
//! downcasts; on failure it returns a strong handle to an error object
//! describing the cause.  The option controls whether the wrapped
//! framework would let the nested containers be mutated later; it has no
//! effect on what is decoded or on the owning semantics of the result,
//! and none of this layer's observable state depends on it.

use vstd::prelude::*;

use crate::base::{CFType, CFIndex, CFOptionFlags};
use crate::cell::StrongCell;
use crate::codec::{
    decode_value, entry_view_of, lemma_pheight_entries_elem, lemma_pheight_list_elem,
    lemma_views_of_entries_index, lemma_views_of_entries_len, lemma_views_of_list_index,
    lemma_views_of_list_len, pheight, pheight_entries, pheight_entry, pheight_list, spec_decode,
    spec_decode_full, view_of, views_of_entries, views_of_list, PlistVal, PlistValue,
};
use crate::data::CFData;
use crate::error::CFError;
use crate::heap::{clone_bytes, CFHeap, CFObj, CFVal, CFValue, DictEntry};

verus! {

/// The mutability options a decode accepts: a closed set, mirrored from
/// the wrapped framework together with the raw constants it names them by.
#[derive(Clone, Copy, PartialEq, Eq, Structural, Debug)]
pub enum MutabilityOptions {
    Immutable,
    MutableContainers,
    MutableContainersAndLeaves,
}

impl MutabilityOptions {
    /// The constant the wrapped framework uses for this option.
    pub fn raw_value(&self) -> (r: CFOptionFlags)
        ensures
            *self is Immutable ==> r == 0,
            *self is MutableContainers ==> r == 1,
            *self is MutableContainersAndLeaves ==> r == 2,
    {
        match self {
            MutabilityOptions::Immutable => 0,
            MutabilityOptions::MutableContainers => 1,
            MutabilityOptions::MutableContainersAndLeaves => 2,
        }
    }
}

/// The serialization formats the wrapped framework names, with the raw
/// constants it names them by.
#[allow(non_camel_case_types)]
#[derive(Clone, Copy, PartialEq, Eq, Structural, Debug)]
pub enum Format {
    OpenStepFormat,
    XMLFormat_v1_0,
    BinaryFormat_v1_0,
}

impl Format {
    /// The constant the wrapped framework uses for this format.
    pub fn raw_value(&self) -> (r: CFIndex)
        ensures
            *self is OpenStepFormat ==> r == 1,
            *self is XMLFormat_v1_0 ==> r == 100,
            *self is BinaryFormat_v1_0 ==> r == 200,
    {
        match self {
            Format::OpenStepFormat => 1,
            Format::XMLFormat_v1_0 => 100,
            Format::BinaryFormat_v1_0 => 200,
        }
    }
}

/// A reference to a decoded property-list object, category-erased: the
/// object's actual category is whatever the buffer framed, and a checked
/// cast recovers it.
#[derive(Debug)]
pub struct CFPropertyList {
    id: usize,
}

impl CFType for CFPropertyList {
    closed spec fn spec_id(&self) -> usize {
        self.id
    }

    fn raw(&self) -> usize {
        self.id
    }

    fn from_raw(id: usize) -> Self {
        CFPropertyList { id }
    }
}

/// The slot at `id` holds exactly the object graph of the value `v`:
/// matching category, matching bytes, and children slot by slot.
pub open spec fn store_models(h: Seq<CFObj>, id: int, v: PlistVal) -> bool
    decreases v,
{
    match v {
        PlistVal::Text(b) => 0 <= id < h.len() && h[id].val == CFVal::Text(b),
        PlistVal::Data(b) => 0 <= id < h.len() && h[id].val == CFVal::Data(b),
        PlistVal::Array(elems) => 0 <= id < h.len() && h[id].val is Array && {
            let ids = h[id].val->Array_0;
            ids.len() == elems.len() && forall|i: int|
                0 <= i < elems.len() ==> store_models(h, ids[i] as int, #[trigger] elems[i])
        },
        PlistVal::Dictionary(entries) => 0 <= id < h.len() && h[id].val is Dictionary && {
            let ents = h[id].val->Dictionary_0;
            ents.len() == entries.len() && forall|i: int|
                0 <= i < entries.len() ==> {
                    &&& ents[i].0 == (#[trigger] entries[i]).0
                    &&& match entries[i].1 {
                        None => ents[i].1 is None,
                        Some(v2) => ents[i].1 is Some && store_models(h, ents[i].1->0 as int, v2),
                    }
                }
        },
    }
}

/// The relation only reads the slots it names, so it survives when the
/// storage grows by new slots.
pub proof fn lemma_store_models_grow(h1: Seq<CFObj>, h2: Seq<CFObj>, id: int, v: PlistVal)
    requires
        store_models(h1, id, v),
        h1.len() <= h2.len(),
        forall|i: int| 0 <= i < h1.len() ==> h2[i] == h1[i],
    ensures
        store_models(h2, id, v),
    decreases v,
{
    match v {
        PlistVal::Text(_) => {},
        PlistVal::Data(_) => {},
        PlistVal::Array(elems) => {
            let ids = h1[id].val->Array_0;
            assert forall|i: int| 0 <= i < elems.len() implies store_models(
                h2,
                ids[i] as int,
                #[trigger] elems[i],
            ) by {
                lemma_store_models_grow(h1, h2, ids[i] as int, elems[i]);
            }
        },
        PlistVal::Dictionary(entries) => {
            let ents = h1[id].val->Dictionary_0;
            assert forall|i: int| 0 <= i < entries.len() implies ({
                &&& ents[i].0 == (#[trigger] entries[i]).0
                &&& match entries[i].1 {
                    None => ents[i].1 is None,
                    Some(v2) => ents[i].1 is Some && store_models(h2, ents[i].1->0 as int, v2),
                }
            }) by {
                match entries[i].1 {
                    None => {},
                    Some(v2) => {
                        lemma_store_models_grow(h1, h2, ents[i].1->0 as int, v2);
                    },
                }
            }
        },
    }
}

/// Creates the object graph of the value in the storage, every object
/// with a retain count of one, and returns the root's slot.
fn intern_value(heap: &mut CFHeap, v: &PlistValue) -> (id: usize)
    requires
        old(heap).wf(),
    ensures
        final(heap).wf(),
        old(heap)@.len() <= final(heap)@.len(),
        forall|i: int| 0 <= i < old(heap)@.len() ==> final(heap)@[i] == old(heap)@[i],
        forall|i: int|
            old(heap)@.len() <= i < final(heap)@.len() ==> (#[trigger] final(heap)@[i]).count
                == 1nat,
        id < final(heap)@.len(),
        final(heap).count_of(id as int) == 1,
        store_models(final(heap)@, id as int, view_of(*v)),
    decreases pheight(*v),
{
    match v {
        PlistValue::Text(b) => {
            let id = heap.allocate(CFValue::Text(clone_bytes(b)));
            id
        },
        PlistValue::Data(b) => {
            let id = heap.allocate(CFValue::Data(clone_bytes(b)));
            id
        },
        PlistValue::Array(elems) => {
            let ghost h0 = heap@;
            let mut ids: Vec<usize> = Vec::new();
            let mut i: usize = 0;
            while i < elems.len()
                invariant
                    heap.wf(),
                    i <= elems@.len(),
                    ids@.len() == i,
                    h0.len() <= heap@.len(),
                    forall|j: int| 0 <= j < h0.len() ==> heap@[j] == h0[j],
                    forall|j: int|
                        h0.len() <= j < heap@.len() ==> (#[trigger] heap@[j]).count == 1nat,
                    pheight_list(elems@) < pheight(*v),
                    forall|j: int| 0 <= j < i ==> (#[trigger] ids@[j]) < heap@.len(),
                    forall|j: int|
                        0 <= j < i ==> store_models(
                            heap@,
                            ids@[j] as int,
                            view_of(#[trigger] elems@[j]),
                        ),
                decreases elems@.len() - i,
            {
                proof {
                    lemma_pheight_list_elem(elems@, i as int);
                }
                let ghost h_before = heap@;
                let cid = intern_value(heap, &elems[i]);
                proof {
                    assert forall|j: int|
                        0 <= j < i implies store_models(
                        heap@,
                        ids@[j] as int,
                        view_of(#[trigger] elems@[j]),
                    ) by {
                        lemma_store_models_grow(
                            h_before,
                            heap@,
                            ids@[j] as int,
                            view_of(elems@[j]),
                        );
                    }
                }
                ids.push(cid);
                i = i + 1;
            }
            let ghost h_mid = heap@;
            let ghost idsv = ids@;
            let id = heap.allocate(CFValue::Array(ids));
            proof {
                assert forall|j: int|
                    0 <= j < elems@.len() implies store_models(
                    heap@,
                    idsv[j] as int,
                    view_of(#[trigger] elems@[j]),
                ) by {
                    lemma_store_models_grow(h_mid, heap@, idsv[j] as int, view_of(elems@[j]));
                }
                let views = views_of_list(elems@);
                lemma_views_of_list_len(elems@);
                assert forall|j: int|
                    0 <= j < views.len() implies store_models(
                    heap@,
                    idsv[j] as int,
                    #[trigger] views[j],
                ) by {
                    lemma_views_of_list_index(elems@, j);
                }
                lemma_views_of_list_len(elems@);
                assert(store_models(heap@, id as int, view_of(*v)));
            }
            id
        },
        PlistValue::Dictionary(entries) => {
            let ghost h0 = heap@;
            let mut ents: Vec<DictEntry> = Vec::new();
            let mut i: usize = 0;
            while i < entries.len()
                invariant
                    heap.wf(),
                    i <= entries@.len(),
                    ents@.len() == i,
                    h0.len() <= heap@.len(),
                    forall|j: int| 0 <= j < h0.len() ==> heap@[j] == h0[j],
                    forall|j: int|
                        h0.len() <= j < heap@.len() ==> (#[trigger] heap@[j]).count == 1nat,
                    pheight_entries(entries@) < pheight(*v),
                    forall|j: int|
                        0 <= j < i ==> ((#[trigger] ents@[j]).value matches Some(x) ==> x
                            < heap@.len()),
                    forall|j: int|
                        0 <= j < i ==> (#[trigger] ents@[j]).key@ == entry_view_of(
                            entries@[j],
                        ).0,
                    forall|j: int|
                        0 <= j < i ==> match entry_view_of(#[trigger] entries@[j]).1 {
                            None => ents@[j].value is None,
                            Some(v2) => ents@[j].value is Some && store_models(
                                heap@,
                                ents@[j].value->0 as int,
                                v2,
                            ),
                        },
                decreases entries@.len() - i,
            {
                proof {
                    lemma_pheight_entries_elem(entries@, i as int);
                }
                let e = &entries[i];
                let key_copy = clone_bytes(&e.key);
                let ghost h_before = heap@;
                let value_id: Option<usize> = match &e.value {
                    None => None,
                    Some(child) => {
                        proof {
                            assert(pheight_entry(entries@[i as int]) == 1 + pheight(*child));
                        }
                        Some(intern_value(heap, child))
                    },
                };
                proof {
                    assert forall|j: int|
                        0 <= j < i implies match entry_view_of(#[trigger] entries@[j]).1 {
                        None => ents@[j].value is None,
                        Some(v2) => ents@[j].value is Some && store_models(
                            heap@,
                            ents@[j].value->0 as int,
                            v2,
                        ),
                    } by {
                        match entry_view_of(entries@[j]).1 {
                            None => {},
                            Some(v2) => {
                                lemma_store_models_grow(
                                    h_before,
                                    heap@,
                                    ents@[j].value->0 as int,
                                    v2,
                                );
                            },
                        }
                    }
                }
                ents.push(DictEntry { key: key_copy, value: value_id });
                i = i + 1;
            }
            let ghost h_mid = heap@;
            let ghost entsv = Seq::new(ents@.len(), |j: int| ents@[j].entry_view());
            let id = heap.allocate(CFValue::Dictionary(ents));
            proof {
                let views = views_of_entries(entries@);
                lemma_views_of_entries_len(entries@);
                assert forall|j: int|
                    0 <= j < views.len() implies ({
                    &&& entsv[j].0 == (#[trigger] views[j]).0
                    &&& match views[j].1 {
                        None => entsv[j].1 is None,
                        Some(v2) => entsv[j].1 is Some && store_models(
                            heap@,
                            entsv[j].1->0 as int,
                            v2,
                        ),
                    }
                }) by {
                    lemma_views_of_entries_index(entries@, j);
                    match views[j].1 {
                        None => {},
                        Some(v2) => {
                            lemma_store_models_grow(h_mid, heap@, entsv[j].1->0 as int, v2);
                        },
                    }
                }
                assert(store_models(heap@, id as int, view_of(*v)));
            }
            id
        },
    }
}

/// The message of the error object a failed decode creates.
pub open spec fn spec_decode_error_message() -> Seq<u8> {
    seq![109u8, 97u8, 108u8, 102u8, 111u8, 114u8, 109u8, 101u8, 100u8, 32u8, 112u8, 114u8, 111u8, 112u8, 101u8, 114u8, 116u8, 121u8, 32u8, 108u8, 105u8, 115u8, 116u8]
}

fn decode_error_message() -> (r: Vec<u8>)
    ensures
        r@ == spec_decode_error_message(),
{
    let r: Vec<u8> = vec![109u8, 97u8, 108u8, 102u8, 111u8, 114u8, 109u8, 101u8, 100u8, 32u8, 112u8, 114u8, 111u8, 112u8, 101u8, 114u8, 116u8, 121u8, 32u8, 108u8, 105u8, 115u8, 116u8];
    proof {
        assert(r@ =~= spec_decode_error_message());
    }
    r
}

impl CFPropertyList {
    /// Decodes the buffer a data object holds, with the given
    /// expected-mutability option.
    ///
    /// Exactly when one frame fills the whole buffer, the decode succeeds:
    /// the decoded object graph is created in the storage and the answer
    /// owns the category-erased root.  Otherwise the answer owns a fresh
    /// error object naming the cause.  Either way every pre-existing slot
    /// — the buffer included — stays as it was, and the option changes
    /// nothing observable here.
    pub fn from_data_with_options(
        heap: &mut CFHeap,
        data: &CFData,
        options: MutabilityOptions,
    ) -> (r: Result<StrongCell<CFPropertyList>, StrongCell<CFError>>)
        requires
            old(heap).wf(),
            old(heap).is_data(data.spec_id() as int),
        ensures
            final(heap).wf(),
            old(heap)@.len() <= final(heap)@.len(),
            forall|i: int| 0 <= i < old(heap)@.len() ==> final(heap)@[i] == old(heap)@[i],
            r is Ok <==> spec_decode_full(old(heap).data_of(data.spec_id() as int)) is Some,
            r matches Ok(c) ==> c.id() < final(heap)@.len() && final(heap).count_of(
                c.id() as int,
            ) == 1 && store_models(
                final(heap)@,
                c.id() as int,
                spec_decode_full(old(heap).data_of(data.spec_id() as int))->0,
            ),
            forall|i: int|
                old(heap)@.len() <= i < final(heap)@.len() ==> (#[trigger] final(heap)@[i]).count
                    == 1nat,
            r matches Err(e) ==> final(heap)@ == old(heap)@.push(
                CFObj { count: 1nat, val: CFVal::ErrorInfo(spec_decode_error_message()) },
            ) && e.id() == old(heap)@.len(),
    {
        let ghost bytes_spec = heap.data_of(data.spec_id() as int);
        let total = match heap.value_at(data.raw()) {
            CFValue::Data(b) => b.len(),
            _ => unreached(),
        };
        let parsed = match heap.value_at(data.raw()) {
            CFValue::Data(b) => {
                let ghost whole = b@;
                proof {
                    assert(whole.skip(0) =~= bytes_spec);
                }
                decode_value(b, 0)
            },
            _ => unreached(),
        };
        match parsed {
            Some((value, end)) => {
                if end == total {
                    let id = intern_value(heap, &value);
                    proof {
                        assert(spec_decode(bytes_spec) == Some((view_of(value), end as int)));
                        assert(spec_decode_full(bytes_spec) == Some(view_of(value)));
                    }
                    Ok(StrongCell::assuming_retained_nonnull(CFPropertyList::from_raw(id)))
                } else {
                    proof {
                        assert(spec_decode(bytes_spec) == Some((view_of(value), end as int)));
                        assert(spec_decode_full(bytes_spec) is None);
                    }
                    let eid = heap.allocate(CFValue::ErrorInfo(decode_error_message()));
                    Err(StrongCell::assuming_retained_nonnull(CFError::from_raw(eid)))
                }
            },
            None => {
                proof {
                    assert(spec_decode(bytes_spec) is None);
                    assert(spec_decode_full(bytes_spec) is None);
                }
                let eid = heap.allocate(CFValue::ErrorInfo(decode_error_message()));
                Err(StrongCell::assuming_retained_nonnull(CFError::from_raw(eid)))
            },
        }
    }

    /// Decodes the buffer a data object holds, immutably — see
    /// [`CFPropertyList::from_data_with_options`].
    pub fn from_data(heap: &mut CFHeap, data: &CFData) -> (r: Result<
        StrongCell<CFPropertyList>,
        StrongCell<CFError>,
    >)
        requires
            old(heap).wf(),
            old(heap).is_data(data.spec_id() as int),
        ensures
            final(heap).wf(),
            old(heap)@.len() <= final(heap)@.len(),
            forall|i: int| 0 <= i < old(heap)@.len() ==> final(heap)@[i] == old(heap)@[i],
            r is Ok <==> spec_decode_full(old(heap).data_of(data.spec_id() as int)) is Some,
            r matches Ok(c) ==> c.id() < final(heap)@.len() && final(heap).count_of(
                c.id() as int,
            ) == 1 && store_models(
                final(heap)@,
                c.id() as int,
                spec_decode_full(old(heap).data_of(data.spec_id() as int))->0,
            ),
            forall|i: int|
                old(heap)@.len() <= i < final(heap)@.len() ==> (#[trigger] final(heap)@[i]).count
                    == 1nat,
            r matches Err(e) ==> final(heap)@ == old(heap)@.push(
                CFObj { count: 1nat, val: CFVal::ErrorInfo(spec_decode_error_message()) },
            ) && e.id() == old(heap)@.len(),
    {
        Self::from_data_with_options(heap, data, MutabilityOptions::Immutable)
    }
}

} // verus!
