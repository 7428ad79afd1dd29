//! The property-list value tree and its byte serialization.
//!
//! A property-list buffer frames one value: a string, a data blob, an
//! array of values, or a dictionary of keyed, possibly-null values.  The
//! frame is a tag byte, a four-byte big-endian length or count, and the
//! payload; dictionary entries carry a length-framed key and a presence
//! byte before the value.  Both directions are specified: the decoder is
//! proved against the specification of the format, and the encoder
//! produces exactly the bytes the specification names.

use vstd::prelude::*;

verus! {

broadcast use {vstd::std_specs::vec::group_vec_axioms, vstd::seq::axiom_seq_subrange_decreases};

/// The tag byte opening a string frame.
pub const TEXT_TAG: u8 = 1;

/// The tag byte opening a data frame.
pub const DATA_TAG: u8 = 2;

/// The tag byte opening an array frame.
pub const ARRAY_TAG: u8 = 3;

/// The tag byte opening a dictionary frame.
pub const DICTIONARY_TAG: u8 = 4;

/// A decoded property-list value, at the specification level.
pub enum PlistVal {
    Text(Seq<u8>),
    Data(Seq<u8>),
    Array(Seq<PlistVal>),
    Dictionary(Seq<(Seq<u8>, Option<PlistVal>)>),
}

/// One dictionary entry of a property-list value: a key and a value that
/// may be the explicit null.
#[derive(Debug)]
pub struct PlistEntry {
    pub key: Vec<u8>,
    pub value: Option<PlistValue>,
}

/// A decoded property-list value.
#[derive(Debug)]
pub enum PlistValue {
    Text(Vec<u8>),
    Data(Vec<u8>),
    Array(Vec<PlistValue>),
    Dictionary(Vec<PlistEntry>),
}

/// The specification-level value a decoded tree stands for.
pub open spec fn view_of(v: PlistValue) -> PlistVal
    decreases v,
{
    match v {
        PlistValue::Text(b) => PlistVal::Text(b@),
        PlistValue::Data(b) => PlistVal::Data(b@),
        PlistValue::Array(elems) => PlistVal::Array(views_of_list(elems@)),
        PlistValue::Dictionary(entries) => PlistVal::Dictionary(views_of_entries(entries@)),
    }
}

pub open spec fn views_of_list(s: Seq<PlistValue>) -> Seq<PlistVal>
    decreases s,
{
    if s.len() == 0 {
        Seq::empty()
    } else {
        seq![view_of(s[0])] + views_of_list(s.drop_first())
    }
}

pub open spec fn entry_view_of(e: PlistEntry) -> (Seq<u8>, Option<PlistVal>)
    decreases e,
{
    (
        e.key@,
        match e.value {
            None => None,
            Some(v) => Some(view_of(v)),
        },
    )
}

pub open spec fn views_of_entries(s: Seq<PlistEntry>) -> Seq<(Seq<u8>, Option<PlistVal>)>
    decreases s,
{
    if s.len() == 0 {
        Seq::empty()
    } else {
        seq![entry_view_of(s[0])] + views_of_entries(s.drop_first())
    }
}

pub proof fn lemma_views_of_list_index(s: Seq<PlistValue>, i: int)
    requires
        0 <= i < s.len(),
    ensures
        views_of_list(s).len() == s.len(),
        views_of_list(s)[i] == view_of(s[i]),
    decreases s,
{
    lemma_views_of_list_len(s);
    if i > 0 {
        lemma_views_of_list_index(s.drop_first(), i - 1);
    }
}

pub proof fn lemma_views_of_list_len(s: Seq<PlistValue>)
    ensures
        views_of_list(s).len() == s.len(),
    decreases s,
{
    if s.len() > 0 {
        lemma_views_of_list_len(s.drop_first());
    }
}

pub proof fn lemma_views_of_list_snoc(s: Seq<PlistValue>, v: PlistValue)
    ensures
        views_of_list(s.push(v)) == views_of_list(s) + seq![view_of(v)],
    decreases s,
{
    let sp = s.push(v);
    if s.len() == 0 {
        assert(sp.len() == 1);
        assert(sp.drop_first() =~= Seq::<PlistValue>::empty());
        assert(sp[0] == v);
        assert(views_of_list(sp) == seq![view_of(v)] + views_of_list(sp.drop_first()));
        assert(views_of_list(sp.drop_first()) == Seq::<PlistVal>::empty());
        assert(views_of_list(s) == Seq::<PlistVal>::empty());
        assert(views_of_list(sp) =~= views_of_list(s) + seq![view_of(v)]);
    } else {
        assert(sp.drop_first() =~= s.drop_first().push(v));
        assert(sp[0] == s[0]);
        lemma_views_of_list_snoc(s.drop_first(), v);
        lemma_views_of_list_len(s);
        lemma_views_of_list_len(s.drop_first());
        lemma_views_of_list_len(sp);
        assert(views_of_list(sp) == seq![view_of(sp[0])] + views_of_list(sp.drop_first()));
        assert(views_of_list(sp.drop_first()) == views_of_list(s.drop_first()) + seq![
            view_of(v),
        ]);
        assert(views_of_list(s) == seq![view_of(s[0])] + views_of_list(s.drop_first()));
        assert(views_of_list(sp) =~= views_of_list(s) + seq![view_of(v)]);
    }
}

pub proof fn lemma_views_of_entries_index(s: Seq<PlistEntry>, i: int)
    requires
        0 <= i < s.len(),
    ensures
        views_of_entries(s).len() == s.len(),
        views_of_entries(s)[i] == entry_view_of(s[i]),
    decreases s,
{
    lemma_views_of_entries_len(s);
    if i > 0 {
        lemma_views_of_entries_index(s.drop_first(), i - 1);
    }
}

pub proof fn lemma_views_of_entries_len(s: Seq<PlistEntry>)
    ensures
        views_of_entries(s).len() == s.len(),
    decreases s,
{
    if s.len() > 0 {
        lemma_views_of_entries_len(s.drop_first());
    }
}

pub proof fn lemma_views_of_entries_snoc(s: Seq<PlistEntry>, e: PlistEntry)
    ensures
        views_of_entries(s.push(e)) == views_of_entries(s) + seq![entry_view_of(e)],
    decreases s,
{
    let sp = s.push(e);
    if s.len() == 0 {
        assert(sp.len() == 1);
        assert(sp.drop_first() =~= Seq::<PlistEntry>::empty());
        assert(sp[0] == e);
        assert(views_of_entries(sp) == seq![entry_view_of(e)] + views_of_entries(
            sp.drop_first(),
        ));
        assert(views_of_entries(sp.drop_first()) == Seq::<(Seq<u8>, Option<PlistVal>)>::empty());
        assert(views_of_entries(s) == Seq::<(Seq<u8>, Option<PlistVal>)>::empty());
        assert(views_of_entries(sp) =~= views_of_entries(s) + seq![entry_view_of(e)]);
    } else {
        assert(sp.drop_first() =~= s.drop_first().push(e));
        assert(sp[0] == s[0]);
        lemma_views_of_entries_snoc(s.drop_first(), e);
        lemma_views_of_entries_len(s);
        lemma_views_of_entries_len(s.drop_first());
        lemma_views_of_entries_len(sp);
        assert(views_of_entries(sp) == seq![entry_view_of(sp[0])] + views_of_entries(
            sp.drop_first(),
        ));
        assert(views_of_entries(sp.drop_first()) == views_of_entries(s.drop_first()) + seq![
            entry_view_of(e),
        ]);
        assert(views_of_entries(s) == seq![entry_view_of(s[0])] + views_of_entries(
            s.drop_first(),
        ));
        assert(views_of_entries(sp) =~= views_of_entries(s) + seq![entry_view_of(e)]);
    }
}

/// The integer a four-byte big-endian field carries.
pub open spec fn spec_be32(b0: u8, b1: u8, b2: u8, b3: u8) -> int {
    b0 * 0x1000000 + b1 * 0x10000 + b2 * 0x100 + b3
}

/// The four big-endian bytes carrying the given integer.
pub open spec fn spec_be32_bytes(n: int) -> Seq<u8> {
    seq![
        ((n / 0x1000000) % 0x100) as u8,
        ((n / 0x10000) % 0x100) as u8,
        ((n / 0x100) % 0x100) as u8,
        (n % 0x100) as u8,
    ]
}

/// Every length and count a frame carries must fit its four-byte field.
pub open spec fn spec_wf(v: PlistVal) -> bool
    decreases v,
{
    match v {
        PlistVal::Text(b) => b.len() < 0x100000000,
        PlistVal::Data(b) => b.len() < 0x100000000,
        PlistVal::Array(elems) => elems.len() < 0x100000000 && (forall|i: int|
            0 <= i < elems.len() ==> spec_wf(#[trigger] elems[i])),
        PlistVal::Dictionary(entries) => entries.len() < 0x100000000 && (forall|i: int|
            0 <= i < entries.len() ==> spec_entry_wf(#[trigger] entries[i])),
    }
}

pub open spec fn spec_entry_wf(e: (Seq<u8>, Option<PlistVal>)) -> bool
    decreases e,
{
    e.0.len() < 0x100000000 && (e.1 matches Some(v) ==> spec_wf(v))
}

/// The bytes that encode a value.
pub open spec fn spec_encode(v: PlistVal) -> Seq<u8>
    decreases v,
{
    match v {
        PlistVal::Text(b) => seq![TEXT_TAG] + spec_be32_bytes(b.len() as int) + b,
        PlistVal::Data(b) => seq![DATA_TAG] + spec_be32_bytes(b.len() as int) + b,
        PlistVal::Array(elems) => seq![ARRAY_TAG] + spec_be32_bytes(elems.len() as int)
            + spec_encode_list(elems),
        PlistVal::Dictionary(entries) => seq![DICTIONARY_TAG] + spec_be32_bytes(
            entries.len() as int,
        ) + spec_encode_entries(entries),
    }
}

pub open spec fn spec_encode_list(elems: Seq<PlistVal>) -> Seq<u8>
    decreases elems,
{
    if elems.len() == 0 {
        Seq::empty()
    } else {
        spec_encode(elems[0]) + spec_encode_list(elems.drop_first())
    }
}

pub open spec fn spec_encode_entry(e: (Seq<u8>, Option<PlistVal>)) -> Seq<u8>
    decreases e,
{
    spec_be32_bytes(e.0.len() as int) + e.0 + match e.1 {
        None => seq![0u8],
        Some(v) => seq![1u8] + spec_encode(v),
    }
}

pub open spec fn spec_encode_entries(entries: Seq<(Seq<u8>, Option<PlistVal>)>) -> Seq<u8>
    decreases entries,
{
    if entries.len() == 0 {
        Seq::empty()
    } else {
        spec_encode_entry(entries[0]) + spec_encode_entries(entries.drop_first())
    }
}

/// What decoding one value from the front of the bytes yields: the value
/// and how many bytes its frame took, or nothing when the bytes do not
/// open with a well-formed frame.
pub open spec fn spec_decode(s: Seq<u8>) -> Option<(PlistVal, int)>
    decreases s.len(), 0int, 0int,
{
    if s.len() < 5 {
        None
    } else {
        let tag = s[0];
        let n = spec_be32(s[1], s[2], s[3], s[4]);
        if tag == TEXT_TAG {
            if 5 + n <= s.len() {
                Some((PlistVal::Text(s.subrange(5, 5 + n)), 5 + n))
            } else {
                None
            }
        } else if tag == DATA_TAG {
            if 5 + n <= s.len() {
                Some((PlistVal::Data(s.subrange(5, 5 + n)), 5 + n))
            } else {
                None
            }
        } else if tag == ARRAY_TAG {
            match spec_decode_list(s.skip(5), n) {
                None => None,
                Some((elems, used)) => Some((PlistVal::Array(elems), 5 + used)),
            }
        } else if tag == DICTIONARY_TAG {
            match spec_decode_entries(s.skip(5), n) {
                None => None,
                Some((entries, used)) => Some((PlistVal::Dictionary(entries), 5 + used)),
            }
        } else {
            None
        }
    }
}

/// Decodes `n` consecutive values from the front of the bytes.
pub open spec fn spec_decode_list(s: Seq<u8>, n: int) -> Option<(Seq<PlistVal>, int)>
    decreases s.len(), 1int, n,
{
    if n <= 0 {
        Some((Seq::empty(), 0))
    } else {
        match spec_decode(s) {
            None => None,
            Some((v, used)) => if 1 <= used <= s.len() {
                match spec_decode_list(s.skip(used), n - 1) {
                    None => None,
                    Some((rest, used2)) => Some((seq![v] + rest, used + used2)),
                }
            } else {
                None
            },
        }
    }
}

/// Decodes one dictionary entry from the front of the bytes: a key frame,
/// a presence byte, and — when the presence byte says so — a value.
pub open spec fn spec_decode_entry(s: Seq<u8>) -> Option<((Seq<u8>, Option<PlistVal>), int)>
    decreases s.len(), 0int, 0int,
{
    if s.len() < 4 {
        None
    } else {
        let klen = spec_be32(s[0], s[1], s[2], s[3]);
        if 4 + klen + 1 <= s.len() {
            let key = s.subrange(4, 4 + klen);
            let marker = s[4 + klen];
            if marker == 0 {
                Some(((key, None), 4 + klen + 1))
            } else if marker == 1 {
                match spec_decode(s.skip(4 + klen + 1)) {
                    None => None,
                    Some((v, used)) => Some(((key, Some(v)), 4 + klen + 1 + used)),
                }
            } else {
                None
            }
        } else {
            None
        }
    }
}

/// Decodes `n` consecutive dictionary entries from the front of the bytes.
pub open spec fn spec_decode_entries(s: Seq<u8>, n: int) -> Option<
    (Seq<(Seq<u8>, Option<PlistVal>)>, int),
>
    decreases s.len(), 1int, n,
{
    if n <= 0 {
        Some((Seq::empty(), 0))
    } else {
        match spec_decode_entry(s) {
            None => None,
            Some((e, used)) => if 1 <= used <= s.len() {
                match spec_decode_entries(s.skip(used), n - 1) {
                    None => None,
                    Some((rest, used2)) => Some((seq![e] + rest, used + used2)),
                }
            } else {
                None
            },
        }
    }
}

/// A whole buffer decodes to a value exactly when one frame fills it.
pub open spec fn spec_decode_full(s: Seq<u8>) -> Option<PlistVal> {
    match spec_decode(s) {
        None => None,
        Some((v, used)) => if used == s.len() {
            Some(v)
        } else {
            None
        },
    }
}

/// Reads a four-byte big-endian field.
fn be32_value(b0: u8, b1: u8, b2: u8, b3: u8) -> (r: u32)
    ensures
        r as int == spec_be32(b0, b1, b2, b3),
{
    (b0 as u32) * 0x1000000 + (b1 as u32) * 0x10000 + (b2 as u32) * 0x100 + (b3 as u32)
}

/// Copies the given range of the buffer.
fn copy_range(bytes: &Vec<u8>, from: usize, to: usize) -> (r: Vec<u8>)
    requires
        from <= to <= bytes@.len(),
    ensures
        r@ == bytes@.subrange(from as int, to as int),
{
    let mut r: Vec<u8> = Vec::new();
    let mut i: usize = from;
    while i < to
        invariant
            from <= i <= to <= bytes@.len(),
            r@ == bytes@.subrange(from as int, i as int),
        decreases to - i,
    {
        r.push(bytes[i]);
        proof {
            assert(r@ =~= bytes@.subrange(from as int, (i + 1) as int));
        }
        i = i + 1;
    }
    r
}

/// Decodes one value from the buffer at the given position.  The answer
/// carries the value and the position just past its frame; it is nothing
/// exactly when the specification of the format rejects the bytes.
pub fn decode_value(bytes: &Vec<u8>, pos: usize) -> (r: Option<(PlistValue, usize)>)
    requires
        pos <= bytes@.len(),
    ensures
        r matches Some((v, end)) ==> pos < end <= bytes@.len() && spec_decode(
            bytes@.skip(pos as int),
        ) == Some((view_of(v), end - pos as int)),
        r is None ==> spec_decode(bytes@.skip(pos as int)) is None,
    decreases bytes@.len() - pos,
{
    let ghost s = bytes@.skip(pos as int);
    let n_avail = bytes.len() - pos;
    if n_avail < 5 {
        return None;
    }
    let tag = bytes[pos];
    let n32 = be32_value(bytes[pos + 1], bytes[pos + 2], bytes[pos + 3], bytes[pos + 4]);
    proof {
        assert(s.len() == n_avail);
        assert(s[0] == bytes@[pos as int]);
        assert(s[1] == bytes@[pos + 1]);
        assert(s[2] == bytes@[pos + 2]);
        assert(s[3] == bytes@[pos + 3]);
        assert(s[4] == bytes@[pos + 4]);
        assert(n32 as int == spec_be32(s[1], s[2], s[3], s[4]));
    }
    if tag == TEXT_TAG {
        let n = n32 as usize;
        proof {
            assert(n as int == n32 as int);
        }
        if n > n_avail - 5 {
            return None;
        }
        let payload = copy_range(bytes, pos + 5, pos + 5 + n);
        proof {
            assert(bytes@.subrange(pos + 5, pos + 5 + n) =~= s.subrange(5, 5 + n32 as int));
        }
        Some((PlistValue::Text(payload), pos + 5 + n))
    } else if tag == DATA_TAG {
        let n = n32 as usize;
        proof {
            assert(n as int == n32 as int);
        }
        if n > n_avail - 5 {
            return None;
        }
        let payload = copy_range(bytes, pos + 5, pos + 5 + n);
        proof {
            assert(bytes@.subrange(pos + 5, pos + 5 + n) =~= s.subrange(5, 5 + n32 as int));
        }
        Some((PlistValue::Data(payload), pos + 5 + n))
    } else if tag == ARRAY_TAG {
        let count = n32 as usize;
        proof {
            assert(count as int == n32 as int);
            assert(bytes@.skip(pos + 5) =~= s.skip(5));
        }
        let mut elems: Vec<PlistValue> = Vec::new();
        let mut cur: usize = pos + 5;
        let mut k: usize = 0;
        proof {
            assert(views_of_list(elems@) =~= Seq::<PlistVal>::empty());
            assert(bytes@.skip(cur as int) == bytes@.skip(pos + 5));
        }
        while k < count
            invariant
                pos + 5 <= cur <= bytes@.len(),
                k <= count,
                count as int == n32 as int,
                elems@.len() == k,
                ({
                    let s2 = bytes@.skip(pos as int);
                    s2.len() >= 5 && s2[0] == ARRAY_TAG && n32 as int == spec_be32(
                        s2[1],
                        s2[2],
                        s2[3],
                        s2[4],
                    ) && s2.skip(5) == bytes@.skip(pos + 5)
                }),
                ({
                    let orig = spec_decode_list(bytes@.skip(pos + 5), n32 as int);
                    let cont = spec_decode_list(bytes@.skip(cur as int), n32 as int - k);
                    match cont {
                        None => orig is None,
                        Some((rest, u2)) => orig == Some(
                            (views_of_list(elems@) + rest, cur - (pos + 5) + u2),
                        ),
                    }
                }),
            decreases count - k,
        {
            match decode_value(bytes, cur) {
                None => {
                    proof {
                        assert(spec_decode(bytes@.skip(cur as int)) is None);
                        assert(spec_decode_list(bytes@.skip(cur as int), n32 as int - k) is None);
                        assert(spec_decode_list(bytes@.skip(pos + 5), n32 as int) is None);
                        assert(spec_decode(bytes@.skip(pos as int)) is None);
                    }
                    return None;
                },
                Some((v, end)) => {
                    proof {
                        let t = bytes@.skip(cur as int);
                        assert(spec_decode(t) == Some((view_of(v), end - cur as int)));
                        assert(t.skip(end - cur as int) =~= bytes@.skip(end as int));
                        lemma_views_of_list_snoc(elems@, v);
                    }
                    let ghost old_elems = elems@;
                    elems.push(v);
                    proof {
                        assert(elems@ == old_elems.push(v));
                        let orig = spec_decode_list(bytes@.skip(pos + 5), n32 as int);
                        let cont2 = spec_decode_list(bytes@.skip(end as int), n32 as int - (k + 1));
                        match cont2 {
                            None => {
                                assert(spec_decode_list(bytes@.skip(cur as int), n32 as int - k)
                                    is None);
                                assert(orig is None);
                            },
                            Some((rest2, u3)) => {
                                assert(spec_decode_list(bytes@.skip(cur as int), n32 as int - k)
                                    == Some(
                                    (seq![view_of(v)] + rest2, (end - cur as int) + u3),
                                ));
                                assert(views_of_list(old_elems) + (seq![view_of(v)] + rest2)
                                    =~= views_of_list(elems@) + rest2);
                                assert(orig == Some(
                                    (views_of_list(elems@) + rest2, end - (pos + 5) + u3),
                                ));
                            },
                        }
                    }
                    cur = end;
                    k = k + 1;
                },
            }
        }
        proof {
            let orig = spec_decode_list(bytes@.skip(pos + 5), n32 as int);
            assert(spec_decode_list(bytes@.skip(cur as int), n32 as int - k) == Some(
                (Seq::<PlistVal>::empty(), 0int),
            ));
            assert(views_of_list(elems@) + Seq::<PlistVal>::empty() =~= views_of_list(elems@));
            assert(orig == Some((views_of_list(elems@), cur - (pos + 5) as int)));
            assert(s.skip(5) =~= bytes@.skip(pos + 5));
            assert(spec_decode(s) == Some((PlistVal::Array(views_of_list(elems@)), cur - pos as int)));
        }
        Some((PlistValue::Array(elems), cur))
    } else if tag == DICTIONARY_TAG {
        let count = n32 as usize;
        proof {
            assert(count as int == n32 as int);
            assert(bytes@.skip(pos + 5) =~= s.skip(5));
        }
        let mut entries: Vec<PlistEntry> = Vec::new();
        let mut cur: usize = pos + 5;
        let mut k: usize = 0;
        proof {
            assert(views_of_entries(entries@) =~= Seq::<(Seq<u8>, Option<PlistVal>)>::empty());
        }
        while k < count
            invariant
                pos + 5 <= cur <= bytes@.len(),
                k <= count,
                count as int == n32 as int,
                entries@.len() == k,
                ({
                    let s2 = bytes@.skip(pos as int);
                    s2.len() >= 5 && s2[0] == DICTIONARY_TAG && n32 as int == spec_be32(
                        s2[1],
                        s2[2],
                        s2[3],
                        s2[4],
                    ) && s2.skip(5) == bytes@.skip(pos + 5)
                }),
                ({
                    let orig = spec_decode_entries(bytes@.skip(pos + 5), n32 as int);
                    let cont = spec_decode_entries(bytes@.skip(cur as int), n32 as int - k);
                    match cont {
                        None => orig is None,
                        Some((rest, u2)) => orig == Some(
                            (views_of_entries(entries@) + rest, cur - (pos + 5) + u2),
                        ),
                    }
                }),
            decreases count - k,
        {
            let ghost t = bytes@.skip(cur as int);
            let avail = bytes.len() - cur;
            if avail < 4 {
                proof {
                    assert(t.len() < 4);
                    assert(spec_decode_entry(t) is None);
                    assert(spec_decode_entries(t, n32 as int - k) is None);
                    assert(spec_decode_entries(bytes@.skip(pos + 5), n32 as int) is None);
                    assert(spec_decode(bytes@.skip(pos as int)) is None);
                }
                return None;
            }
            let klen32 = be32_value(bytes[cur], bytes[cur + 1], bytes[cur + 2], bytes[cur + 3]);
            let klen = klen32 as usize;
            proof {
                assert(t[0] == bytes@[cur as int]);
                assert(t[1] == bytes@[cur + 1]);
                assert(t[2] == bytes@[cur + 2]);
                assert(t[3] == bytes@[cur + 3]);
                assert(klen as int == spec_be32(t[0], t[1], t[2], t[3]));
            }
            if avail < 5 || klen > avail - 5 {
                proof {
                    assert(4 + (klen as int) + 1 > t.len());
                    assert(spec_decode_entry(t) is None);
                    assert(spec_decode_entries(t, n32 as int - k) is None);
                    assert(spec_decode_entries(bytes@.skip(pos + 5), n32 as int) is None);
                    assert(spec_decode(bytes@.skip(pos as int)) is None);
                }
                return None;
            }
            let key = copy_range(bytes, cur + 4, cur + 4 + klen);
            let ghost keyb = key@;
            proof {
                assert(bytes@.subrange(cur + 4, cur + 4 + klen) =~= t.subrange(
                    4,
                    4 + klen as int,
                ));
            }
            let marker = bytes[cur + 4 + klen];
            proof {
                assert(t[4 + klen as int] == bytes@[cur + 4 + klen]);
            }
            if marker == 0 {
                proof {
                    assert(spec_decode_entry(t) == Some(((keyb, None::<PlistVal>), 4 + klen as int + 1)));
                }
                let e = PlistEntry { key, value: None };
                proof {
                    assert(entry_view_of(e) == (keyb, None::<PlistVal>));
                    lemma_views_of_entries_snoc(entries@, e);
                }
                let end = cur + 5 + klen;
                let ghost old_entries = entries@;
                entries.push(e);
                proof {
                    assert(t.skip(4 + klen as int + 1) =~= bytes@.skip(end as int));
                    let orig = spec_decode_entries(bytes@.skip(pos + 5), n32 as int);
                    let cont2 = spec_decode_entries(bytes@.skip(end as int), n32 as int - (k + 1));
                    match cont2 {
                        None => {
                            assert(spec_decode_entries(t, n32 as int - k) is None);
                            assert(orig is None);
                        },
                        Some((rest2, u3)) => {
                            assert(spec_decode_entries(t, n32 as int - k) == Some(
                                (seq![entry_view_of(e)] + rest2, (end - cur as int) + u3),
                            ));
                            assert(views_of_entries(old_entries) + (seq![entry_view_of(e)]
                                + rest2) =~= views_of_entries(entries@) + rest2);
                            assert(orig == Some(
                                (views_of_entries(entries@) + rest2, end - (pos + 5) + u3),
                            ));
                        },
                    }
                }
                cur = end;
                k = k + 1;
            } else if marker == 1 {
                let vstart = cur + 5 + klen;
                match decode_value(bytes, vstart) {
                    None => {
                        proof {
                            assert(t.skip(4 + klen as int + 1) =~= bytes@.skip(vstart as int));
                            assert(spec_decode(t.skip(4 + klen as int + 1)) is None);
                            assert(spec_decode_entry(t) is None);
                            assert(spec_decode_entries(t, n32 as int - k) is None);
                            assert(spec_decode_entries(bytes@.skip(pos + 5), n32 as int) is None);
                            assert(spec_decode(bytes@.skip(pos as int)) is None);
                        }
                        return None;
                    },
                    Some((v, vend)) => {
                        proof {
                            assert(t.skip(4 + klen as int + 1) =~= bytes@.skip(vstart as int));
                            assert(spec_decode(t.skip(4 + klen as int + 1)) == Some(
                                (view_of(v), vend - vstart as int),
                            ));
                            assert(spec_decode_entry(t) == Some(
                                ((keyb, Some(view_of(v))), vend - cur as int),
                            ));
                        }
                        let e = PlistEntry { key, value: Some(v) };
                        proof {
                            assert(entry_view_of(e) == (keyb, Some(view_of(e.value->0))));
                            lemma_views_of_entries_snoc(entries@, e);
                        }
                        let ghost old_entries = entries@;
                        entries.push(e);
                        proof {
                            assert(t.skip(vend - cur as int) =~= bytes@.skip(vend as int));
                            let orig = spec_decode_entries(bytes@.skip(pos + 5), n32 as int);
                            let cont2 = spec_decode_entries(
                                bytes@.skip(vend as int),
                                n32 as int - (k + 1),
                            );
                            match cont2 {
                                None => {
                                    assert(spec_decode_entries(t, n32 as int - k) is None);
                                    assert(orig is None);
                                },
                                Some((rest2, u3)) => {
                                    assert(spec_decode_entries(t, n32 as int - k) == Some(
                                        (
                                            seq![entry_view_of(e)] + rest2,
                                            (vend - cur as int) + u3,
                                        ),
                                    ));
                                    assert(views_of_entries(old_entries) + (seq![
                                        entry_view_of(e),
                                    ] + rest2) =~= views_of_entries(entries@) + rest2);
                                    assert(orig == Some(
                                        (
                                            views_of_entries(entries@) + rest2,
                                            vend - (pos + 5) + u3,
                                        ),
                                    ));
                                },
                            }
                        }
                        cur = vend;
                        k = k + 1;
                    },
                }
            } else {
                proof {
                    assert(spec_decode_entry(t) is None);
                    assert(spec_decode_entries(t, n32 as int - k) is None);
                    assert(spec_decode_entries(bytes@.skip(pos + 5), n32 as int) is None);
                    assert(spec_decode(bytes@.skip(pos as int)) is None);
                }
                return None;
            }
        }
        proof {
            let orig = spec_decode_entries(bytes@.skip(pos + 5), n32 as int);
            assert(spec_decode_entries(bytes@.skip(cur as int), n32 as int - k) == Some(
                (Seq::<(Seq<u8>, Option<PlistVal>)>::empty(), 0int),
            ));
            assert(views_of_entries(entries@) + Seq::<(Seq<u8>, Option<PlistVal>)>::empty()
                =~= views_of_entries(entries@));
            assert(orig == Some((views_of_entries(entries@), cur - (pos + 5) as int)));
            assert(s.skip(5) =~= bytes@.skip(pos + 5));
            assert(spec_decode(s) == Some(
                (PlistVal::Dictionary(views_of_entries(entries@)), cur - pos as int),
            ));
        }
        Some((PlistValue::Dictionary(entries), cur))
    } else {
        return None;
    }
}

/// The nesting height of a value: the measure that bounds recursion over
/// the tree.
pub open spec fn pheight(v: PlistValue) -> nat
    decreases v,
{
    match v {
        PlistValue::Text(_) => 0,
        PlistValue::Data(_) => 0,
        PlistValue::Array(elems) => 1 + pheight_list(elems@),
        PlistValue::Dictionary(entries) => 1 + pheight_entries(entries@),
    }
}

pub open spec fn pheight_list(s: Seq<PlistValue>) -> nat
    decreases s,
{
    if s.len() == 0 {
        0
    } else {
        let h0 = pheight(s[0]);
        let hr = pheight_list(s.drop_first());
        if h0 > hr {
            h0
        } else {
            hr
        }
    }
}

pub open spec fn pheight_entry(e: PlistEntry) -> nat
    decreases e,
{
    match e.value {
        None => 0,
        Some(v) => 1 + pheight(v),
    }
}

pub open spec fn pheight_entries(s: Seq<PlistEntry>) -> nat
    decreases s,
{
    if s.len() == 0 {
        0
    } else {
        let h0 = pheight_entry(s[0]);
        let hr = pheight_entries(s.drop_first());
        if h0 > hr {
            h0
        } else {
            hr
        }
    }
}

pub proof fn lemma_pheight_list_elem(s: Seq<PlistValue>, i: int)
    requires
        0 <= i < s.len(),
    ensures
        pheight(s[i]) <= pheight_list(s),
    decreases s,
{
    if i > 0 {
        lemma_pheight_list_elem(s.drop_first(), i - 1);
    }
}

pub proof fn lemma_pheight_entries_elem(s: Seq<PlistEntry>, i: int)
    requires
        0 <= i < s.len(),
    ensures
        pheight_entry(s[i]) <= pheight_entries(s),
    decreases s,
{
    if i > 0 {
        lemma_pheight_entries_elem(s.drop_first(), i - 1);
    }
}

/// Appending a value to a list appends its encoding.
pub proof fn lemma_spec_encode_list_snoc(s: Seq<PlistVal>, v: PlistVal)
    ensures
        spec_encode_list(s.push(v)) == spec_encode_list(s) + spec_encode(v),
    decreases s,
{
    let sp = s.push(v);
    if s.len() == 0 {
        assert(sp.len() == 1);
        assert(sp.drop_first() =~= Seq::<PlistVal>::empty());
        assert(sp[0] == v);
        assert(spec_encode_list(sp) == spec_encode(v) + spec_encode_list(sp.drop_first()));
        assert(spec_encode_list(sp.drop_first()) == Seq::<u8>::empty());
        assert(spec_encode_list(s) == Seq::<u8>::empty());
        assert(spec_encode_list(sp) =~= spec_encode_list(s) + spec_encode(v));
    } else {
        assert(sp.drop_first() =~= s.drop_first().push(v));
        assert(sp[0] == s[0]);
        lemma_spec_encode_list_snoc(s.drop_first(), v);
        assert(spec_encode_list(sp) == spec_encode(s[0]) + spec_encode_list(sp.drop_first()));
        assert(spec_encode_list(sp.drop_first()) == spec_encode_list(s.drop_first())
            + spec_encode(v));
        assert(spec_encode_list(s) == spec_encode(s[0]) + spec_encode_list(s.drop_first()));
        assert(spec_encode_list(sp) =~= spec_encode_list(s) + spec_encode(v));
    }
}

/// Appending an entry to a list appends its encoding.
pub proof fn lemma_spec_encode_entries_snoc(s: Seq<(Seq<u8>, Option<PlistVal>)>, e: (Seq<u8>, Option<PlistVal>))
    ensures
        spec_encode_entries(s.push(e)) == spec_encode_entries(s) + spec_encode_entry(e),
    decreases s,
{
    let sp = s.push(e);
    if s.len() == 0 {
        assert(sp.len() == 1);
        assert(sp.drop_first() =~= Seq::<(Seq<u8>, Option<PlistVal>)>::empty());
        assert(sp[0] == e);
        assert(spec_encode_entries(sp) == spec_encode_entry(e) + spec_encode_entries(
            sp.drop_first(),
        ));
        assert(spec_encode_entries(sp.drop_first()) == Seq::<u8>::empty());
        assert(spec_encode_entries(s) == Seq::<u8>::empty());
        assert(spec_encode_entries(sp) =~= spec_encode_entries(s) + spec_encode_entry(e));
    } else {
        assert(sp.drop_first() =~= s.drop_first().push(e));
        assert(sp[0] == s[0]);
        lemma_spec_encode_entries_snoc(s.drop_first(), e);
        assert(spec_encode_entries(sp) == spec_encode_entry(s[0]) + spec_encode_entries(
            sp.drop_first(),
        ));
        assert(spec_encode_entries(sp.drop_first()) == spec_encode_entries(s.drop_first())
            + spec_encode_entry(e));
        assert(spec_encode_entries(s) == spec_encode_entry(s[0]) + spec_encode_entries(
            s.drop_first(),
        ));
        assert(spec_encode_entries(sp) =~= spec_encode_entries(s) + spec_encode_entry(e));
    }
}

/// Appends a whole byte vector.
fn push_bytes(out: &mut Vec<u8>, src: &Vec<u8>)
    ensures
        final(out)@ == old(out)@ + src@,
{
    let mut i: usize = 0;
    while i < src.len()
        invariant
            i <= src.len(),
            out@ == old(out)@ + src@.subrange(0, i as int),
        decreases src.len() - i,
    {
        out.push(src[i]);
        proof {
            assert(out@ =~= old(out)@ + src@.subrange(0, (i + 1) as int));
        }
        i = i + 1;
    }
    proof {
        assert(old(out)@ + src@.subrange(0, src@.len() as int) =~= old(out)@ + src@);
    }
}

/// Appends a four-byte big-endian field.
fn push_be32(out: &mut Vec<u8>, n: usize)
    requires
        n < 0x100000000,
    ensures
        final(out)@ == old(out)@ + spec_be32_bytes(n as int),
{
    out.push(((n / 0x1000000) % 0x100) as u8);
    out.push(((n / 0x10000) % 0x100) as u8);
    out.push(((n / 0x100) % 0x100) as u8);
    out.push((n % 0x100) as u8);
    proof {
        assert(out@ =~= old(out)@ + spec_be32_bytes(n as int));
    }
}

/// Encodes a value into the bytes its specification names.  Every length
/// and count in the tree must fit its four-byte field.
pub fn encode_value(v: &PlistValue) -> (r: Vec<u8>)
    requires
        spec_wf(view_of(*v)),
    ensures
        r@ == spec_encode(view_of(*v)),
    decreases pheight(*v),
{
    let mut out: Vec<u8> = Vec::new();
    match v {
        PlistValue::Text(b) => {
            out.push(TEXT_TAG);
            push_be32(&mut out, b.len());
            push_bytes(&mut out, b);
            proof {
                assert(out@ =~= spec_encode(view_of(*v)));
            }
        },
        PlistValue::Data(b) => {
            out.push(DATA_TAG);
            push_be32(&mut out, b.len());
            push_bytes(&mut out, b);
            proof {
                assert(out@ =~= spec_encode(view_of(*v)));
            }
        },
        PlistValue::Array(elems) => {
            out.push(ARRAY_TAG);
            proof {
                lemma_views_of_list_len(elems@);
            }
            push_be32(&mut out, elems.len());
            let ghost views = views_of_list(elems@);
            let ghost header = seq![ARRAY_TAG] + spec_be32_bytes(elems@.len() as int);
            proof {
                assert(out@ =~= header + spec_encode_list(views.take(0)));
            }
            let mut i: usize = 0;
            while i < elems.len()
                invariant
                    i <= elems@.len(),
                    views == views_of_list(elems@),
                    views.len() == elems@.len(),
                    spec_wf(PlistVal::Array(views)),
                    pheight_list(elems@) < pheight(*v),
                    out@ == header + spec_encode_list(views.take(i as int)),
                decreases elems@.len() - i,
            {
                proof {
                    lemma_pheight_list_elem(elems@, i as int);
                    lemma_views_of_list_index(elems@, i as int);
                    assert(views[i as int] == view_of(elems@[i as int]));
                    assert(spec_wf(views[i as int]));
                }
                let piece = encode_value(&elems[i]);
                push_bytes(&mut out, &piece);
                proof {
                    assert(views.take(i + 1) =~= views.take(i as int).push(views[i as int]));
                    lemma_spec_encode_list_snoc(views.take(i as int), views[i as int]);
                    assert(out@ =~= header + spec_encode_list(views.take(i + 1)));
                }
                i = i + 1;
            }
            proof {
                assert(views.take(views.len() as int) =~= views);
                assert(out@ =~= spec_encode(view_of(*v)));
            }
        },
        PlistValue::Dictionary(entries) => {
            out.push(DICTIONARY_TAG);
            proof {
                lemma_views_of_entries_len(entries@);
            }
            push_be32(&mut out, entries.len());
            let ghost views = views_of_entries(entries@);
            let ghost header = seq![DICTIONARY_TAG] + spec_be32_bytes(entries@.len() as int);
            proof {
                assert(out@ =~= header + spec_encode_entries(views.take(0)));
            }
            let mut i: usize = 0;
            while i < entries.len()
                invariant
                    i <= entries@.len(),
                    views == views_of_entries(entries@),
                    views.len() == entries@.len(),
                    spec_wf(PlistVal::Dictionary(views)),
                    pheight_entries(entries@) < pheight(*v),
                    out@ == header + spec_encode_entries(views.take(i as int)),
                decreases entries@.len() - i,
            {
                proof {
                    lemma_pheight_entries_elem(entries@, i as int);
                    lemma_views_of_entries_index(entries@, i as int);
                    assert(views[i as int] == entry_view_of(entries@[i as int]));
                    assert(spec_entry_wf(views[i as int]));
                }
                let e = &entries[i];
                push_be32(&mut out, e.key.len());
                push_bytes(&mut out, &e.key);
                match &e.value {
                    None => {
                        out.push(0u8);
                        proof {
                            assert(out@ =~= header + spec_encode_entries(views.take(i as int))
                                + spec_encode_entry(views[i as int]));
                        }
                    },
                    Some(child) => {
                        out.push(1u8);
                        proof {
                            assert(pheight_entry(entries@[i as int]) == 1 + pheight(*child));
                            assert(view_of(*child) == views[i as int].1->0);
                            assert(spec_wf(view_of(*child)));
                        }
                        let piece = encode_value(child);
                        push_bytes(&mut out, &piece);
                        proof {
                            assert(out@ =~= header + spec_encode_entries(views.take(i as int))
                                + spec_encode_entry(views[i as int]));
                        }
                    },
                }
                proof {
                    assert(views.take(i + 1) =~= views.take(i as int).push(views[i as int]));
                    lemma_spec_encode_entries_snoc(views.take(i as int), views[i as int]);
                    assert(out@ =~= header + spec_encode_entries(views.take(i + 1)));
                }
                i = i + 1;
            }
            proof {
                assert(views.take(views.len() as int) =~= views);
                assert(out@ =~= spec_encode(view_of(*v)));
            }
        },
    }
    out
}

/// The four-byte field reads back the integer it was written from.
pub proof fn lemma_be32_round(n: int)
    requires
        0 <= n < 0x100000000,
    ensures
        ({
            let b = spec_be32_bytes(n);
            spec_be32(b[0], b[1], b[2], b[3]) == n
        }),
{
    let b = spec_be32_bytes(n);
    assert(b[0] as int == (n / 0x1000000) % 0x100);
    assert(b[1] as int == (n / 0x10000) % 0x100);
    assert(b[2] as int == (n / 0x100) % 0x100);
    assert(b[3] as int == n % 0x100);
    assert(((n / 0x1000000) % 0x100) * 0x1000000 + ((n / 0x10000) % 0x100) * 0x10000 + ((n
        / 0x100) % 0x100) * 0x100 + n % 0x100 == n) by (nonlinear_arith)
        requires
            0 <= n < 0x100000000,
    ;
}

/// Law, one frame: decoding the encoding of a well-formed value from the
/// front of any buffer yields exactly that value and consumes exactly its
/// frame.
pub proof fn lemma_decode_encode(v: PlistVal, rest: Seq<u8>)
    requires
        spec_wf(v),
    ensures
        spec_decode(spec_encode(v) + rest) == Some((v, spec_encode(v).len() as int)),
    decreases v, 0int,
{
    let enc = spec_encode(v);
    let s = enc + rest;
    match v {
        PlistVal::Text(b) => {
            let hdr = seq![TEXT_TAG] + spec_be32_bytes(b.len() as int);
            assert(enc == hdr + b);
            assert(s.len() == 5 + b.len() + rest.len());
            assert(s[0] == TEXT_TAG);
            assert(s[1] == spec_be32_bytes(b.len() as int)[0]);
            assert(s[2] == spec_be32_bytes(b.len() as int)[1]);
            assert(s[3] == spec_be32_bytes(b.len() as int)[2]);
            assert(s[4] == spec_be32_bytes(b.len() as int)[3]);
            lemma_be32_round(b.len() as int);
            assert(spec_be32(s[1], s[2], s[3], s[4]) == b.len() as int);
            assert(s.subrange(5, 5 + b.len() as int) =~= b);
            assert(enc.len() == 5 + b.len());
        },
        PlistVal::Data(b) => {
            let hdr = seq![DATA_TAG] + spec_be32_bytes(b.len() as int);
            assert(enc == hdr + b);
            assert(s.len() == 5 + b.len() + rest.len());
            assert(s[0] == DATA_TAG);
            assert(s[1] == spec_be32_bytes(b.len() as int)[0]);
            assert(s[2] == spec_be32_bytes(b.len() as int)[1]);
            assert(s[3] == spec_be32_bytes(b.len() as int)[2]);
            assert(s[4] == spec_be32_bytes(b.len() as int)[3]);
            lemma_be32_round(b.len() as int);
            assert(spec_be32(s[1], s[2], s[3], s[4]) == b.len() as int);
            assert(s.subrange(5, 5 + b.len() as int) =~= b);
            assert(enc.len() == 5 + b.len());
        },
        PlistVal::Array(elems) => {
            let body = spec_encode_list(elems);
            assert(enc == seq![ARRAY_TAG] + spec_be32_bytes(elems.len() as int) + body);
            assert(s.len() >= 5);
            assert(s[0] == ARRAY_TAG);
            assert(s[1] == spec_be32_bytes(elems.len() as int)[0]);
            assert(s[2] == spec_be32_bytes(elems.len() as int)[1]);
            assert(s[3] == spec_be32_bytes(elems.len() as int)[2]);
            assert(s[4] == spec_be32_bytes(elems.len() as int)[3]);
            lemma_be32_round(elems.len() as int);
            assert(spec_be32(s[1], s[2], s[3], s[4]) == elems.len() as int);
            assert(s.skip(5) =~= body + rest);
            lemma_decode_encode_list(elems, rest);
            assert(spec_decode_list(body + rest, elems.len() as int) == Some(
                (elems, body.len() as int),
            ));
            assert(enc.len() == 5 + body.len());
        },
        PlistVal::Dictionary(entries) => {
            let body = spec_encode_entries(entries);
            assert(enc == seq![DICTIONARY_TAG] + spec_be32_bytes(entries.len() as int) + body);
            assert(s.len() >= 5);
            assert(s[0] == DICTIONARY_TAG);
            assert(s[1] == spec_be32_bytes(entries.len() as int)[0]);
            assert(s[2] == spec_be32_bytes(entries.len() as int)[1]);
            assert(s[3] == spec_be32_bytes(entries.len() as int)[2]);
            assert(s[4] == spec_be32_bytes(entries.len() as int)[3]);
            lemma_be32_round(entries.len() as int);
            assert(spec_be32(s[1], s[2], s[3], s[4]) == entries.len() as int);
            assert(s.skip(5) =~= body + rest);
            lemma_decode_encode_entries(entries, rest);
            assert(spec_decode_entries(body + rest, entries.len() as int) == Some(
                (entries, body.len() as int),
            ));
            assert(enc.len() == 5 + body.len());
        },
    }
}

/// Law, element lists: decoding as many values as a list encodes, from
/// the front of any buffer, yields exactly the list.
pub proof fn lemma_decode_encode_list(elems: Seq<PlistVal>, rest: Seq<u8>)
    requires
        forall|i: int| 0 <= i < elems.len() ==> spec_wf(#[trigger] elems[i]),
    ensures
        spec_decode_list(spec_encode_list(elems) + rest, elems.len() as int) == Some(
            (elems, spec_encode_list(elems).len() as int),
        ),
    decreases elems, 1int,
{
    let body = spec_encode_list(elems);
    let s = body + rest;
    if elems.len() == 0 {
        assert(body == Seq::<u8>::empty());
        assert(elems =~= Seq::<PlistVal>::empty());
        assert(spec_decode_list(s, 0) == Some((Seq::<PlistVal>::empty(), 0int)));
    } else {
        let head = elems[0];
        let tail = elems.drop_first();
        let enc0 = spec_encode(head);
        let bodyt = spec_encode_list(tail);
        assert(body == enc0 + bodyt);
        assert(s =~= enc0 + (bodyt + rest));
        lemma_decode_encode(head, bodyt + rest);
        assert(spec_decode(s) == Some((head, enc0.len() as int)));
        assert(enc0.len() >= 5);
        assert(s.len() >= enc0.len());
        assert(s.skip(enc0.len() as int) =~= bodyt + rest);
        assert(forall|i: int| 0 <= i < tail.len() ==> spec_wf(#[trigger] tail[i]));
        lemma_decode_encode_list(tail, rest);
        assert(spec_decode_list(bodyt + rest, tail.len() as int) == Some(
            (tail, bodyt.len() as int),
        ));
        assert(seq![head] + tail =~= elems);
        assert(spec_decode_list(s, elems.len() as int) == Some(
            (elems, (enc0.len() + bodyt.len()) as int),
        ));
        assert(body.len() == enc0.len() + bodyt.len());
    }
}

/// Law, one entry: decoding the encoding of a well-formed entry from the
/// front of any buffer yields exactly that entry.
pub proof fn lemma_decode_encode_entry(e: (Seq<u8>, Option<PlistVal>), rest: Seq<u8>)
    requires
        spec_entry_wf(e),
    ensures
        spec_decode_entry(spec_encode_entry(e) + rest) == Some(
            (e, spec_encode_entry(e).len() as int),
        ),
    decreases e, 1int,
{
    let enc = spec_encode_entry(e);
    let s = enc + rest;
    let key = e.0;
    let klen = key.len() as int;
    assert(s[0] == spec_be32_bytes(klen)[0]);
    assert(s[1] == spec_be32_bytes(klen)[1]);
    assert(s[2] == spec_be32_bytes(klen)[2]);
    assert(s[3] == spec_be32_bytes(klen)[3]);
    lemma_be32_round(klen);
    assert(spec_be32(s[0], s[1], s[2], s[3]) == klen);
    assert(s.subrange(4, 4 + klen) =~= key);
    match e.1 {
        None => {
            assert(enc == spec_be32_bytes(klen) + key + seq![0u8]);
            assert(enc.len() == 4 + klen + 1);
            assert(s[4 + klen] == 0u8);
            assert(spec_decode_entry(s) == Some(((key, None::<PlistVal>), 4 + klen + 1)));
        },
        Some(v) => {
            let encv = spec_encode(v);
            assert(enc == spec_be32_bytes(klen) + key + (seq![1u8] + encv));
            assert(enc.len() == 4 + klen + 1 + encv.len());
            assert(s[4 + klen] == 1u8);
            assert(s.skip(4 + klen + 1) =~= encv + rest);
            lemma_decode_encode(v, rest);
            assert(spec_decode(encv + rest) == Some((v, encv.len() as int)));
            assert(spec_decode_entry(s) == Some(((key, Some(v)), 4 + klen + 1 + encv.len())));
        },
    }
}

/// Law, entry lists: decoding as many entries as a list encodes, from
/// the front of any buffer, yields exactly the list.
pub proof fn lemma_decode_encode_entries(entries: Seq<(Seq<u8>, Option<PlistVal>)>, rest: Seq<u8>)
    requires
        forall|i: int| 0 <= i < entries.len() ==> spec_entry_wf(#[trigger] entries[i]),
    ensures
        spec_decode_entries(spec_encode_entries(entries) + rest, entries.len() as int) == Some(
            (entries, spec_encode_entries(entries).len() as int),
        ),
    decreases entries, 2int,
{
    let body = spec_encode_entries(entries);
    let s = body + rest;
    if entries.len() == 0 {
        assert(body == Seq::<u8>::empty());
        assert(entries =~= Seq::<(Seq<u8>, Option<PlistVal>)>::empty());
    } else {
        let head = entries[0];
        let tail = entries.drop_first();
        let enc0 = spec_encode_entry(head);
        let bodyt = spec_encode_entries(tail);
        assert(body == enc0 + bodyt);
        assert(s =~= enc0 + (bodyt + rest));
        lemma_decode_encode_entry(head, bodyt + rest);
        assert(spec_decode_entry(s) == Some((head, enc0.len() as int)));
        assert(enc0.len() >= 5);
        assert(s.len() >= enc0.len());
        assert(s.skip(enc0.len() as int) =~= bodyt + rest);
        assert(forall|i: int| 0 <= i < tail.len() ==> spec_entry_wf(#[trigger] tail[i]));
        lemma_decode_encode_entries(tail, rest);
        assert(seq![head] + tail =~= entries);
        assert(spec_decode_entries(s, entries.len() as int) == Some(
            (entries, (enc0.len() + bodyt.len()) as int),
        ));
        assert(body.len() == enc0.len() + bodyt.len());
    }
}

/// Law: a buffer holding nothing but the encoding of a well-formed value
/// decodes, in full, back to exactly that value.
pub proof fn lemma_round_trip(v: PlistVal)
    requires
        spec_wf(v),
    ensures
        spec_decode_full(spec_encode(v)) == Some(v),
{
    lemma_decode_encode(v, Seq::<u8>::empty());
    assert(spec_encode(v) + Seq::<u8>::empty() =~= spec_encode(v));
}

} // verus!
