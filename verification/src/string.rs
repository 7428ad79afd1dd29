//! String objects: creation from text or raw bytes, and reading back.
//!
//! A string object stores the UTF-8 bytes of its text, passed through
//! unchanged: re-encoding text is the wrapped framework's business, not
//! this layer's.  The round trip is therefore exact — the bytes that went
//! in are the bytes that come out, and for text the stored encoding
//! decodes back to the characters it came from.

use vstd::prelude::*;

use vstd::slice::slice_to_vec;
use vstd::string::StringSliceAdditionalSpecFns;
use vstd::string::StrSliceExecFns;
use vstd::utf8::{decode_utf8, encode_utf8, valid_utf8};

use crate::base::{CFString, CFType};
use crate::cell::StrongCell;
use crate::heap::{clone_bytes, CFHeap, CFObj, CFVal, CFValue};

verus! {

/// The text encodings the wrapped framework names, with the raw constants
/// it names them by.  Two of the names — `Unicode` and `UTF16` — are the
/// same encoding and carry the same constant.
#[allow(non_camel_case_types)]
#[derive(Clone, Copy, PartialEq, Eq, Structural, Debug)]
pub enum CFStringEncoding {
    MacRoman,
    WindowsLatin1,
    ISOLatin1,
    NextStepLatin,
    ASCII,
    Unicode,
    UTF8,
    NonLossyASCII,
    UTF16,
    UTF16BE,
    UTF16LE,
    UTF32,
    UTF32BE,
    UTF32LE,
}

impl CFStringEncoding {
    /// The constant the wrapped framework uses for this encoding.
    pub fn raw_value(&self) -> (r: u32)
        ensures
            r == self.spec_raw_value(),
    {
        match self {
            CFStringEncoding::MacRoman => 0,
            CFStringEncoding::WindowsLatin1 => 0x0500,
            CFStringEncoding::ISOLatin1 => 0x0201,
            CFStringEncoding::NextStepLatin => 0x0B01,
            CFStringEncoding::ASCII => 0x0600,
            CFStringEncoding::Unicode => 0x0100,
            CFStringEncoding::UTF8 => 0x08000100,
            CFStringEncoding::NonLossyASCII => 0x0BFF,
            CFStringEncoding::UTF16 => 0x0100,
            CFStringEncoding::UTF16BE => 0x10000100,
            CFStringEncoding::UTF16LE => 0x14000100,
            CFStringEncoding::UTF32 => 0x0c000100,
            CFStringEncoding::UTF32BE => 0x18000100,
            CFStringEncoding::UTF32LE => 0x1c000100,
        }
    }

    /// The constant the wrapped framework uses for this encoding.
    pub open spec fn spec_raw_value(&self) -> u32 {
        match self {
            CFStringEncoding::MacRoman => 0,
            CFStringEncoding::WindowsLatin1 => 0x0500,
            CFStringEncoding::ISOLatin1 => 0x0201,
            CFStringEncoding::NextStepLatin => 0x0B01,
            CFStringEncoding::ASCII => 0x0600,
            CFStringEncoding::Unicode => 0x0100,
            CFStringEncoding::UTF8 => 0x08000100,
            CFStringEncoding::NonLossyASCII => 0x0BFF,
            CFStringEncoding::UTF16 => 0x0100,
            CFStringEncoding::UTF16BE => 0x10000100,
            CFStringEncoding::UTF16LE => 0x14000100,
            CFStringEncoding::UTF32 => 0x0c000100,
            CFStringEncoding::UTF32BE => 0x18000100,
            CFStringEncoding::UTF32LE => 0x1c000100,
        }
    }
}

/// Relies on `String::from_utf8`: rebuilds the owned string whose UTF-8
/// encoding is exactly the given bytes.  The bytes are required to be a
/// valid encoding, so the failing branch below is unreachable.
#[verifier::external_body]
fn string_from_utf8(v: Vec<u8>) -> (r: String)
    requires
        valid_utf8(v@),
    ensures
        encode_utf8(r@) == v@,
{
    match String::from_utf8(v) {
        Ok(s) => s,
        Err(_) => String::new(),
    }
}

impl CFString {
    /// Creates a string object holding the UTF-8 bytes of the given text
    /// and returns a strong handle to it.
    pub fn from_str(heap: &mut CFHeap, s: &str) -> (r: StrongCell<CFString>)
        requires
            old(heap).wf(),
        ensures
            final(heap)@ == old(heap)@.push(
                CFObj { count: 1nat, val: CFVal::Text(encode_utf8(s@)) },
            ),
            final(heap).wf(),
            r.id() == old(heap)@.len(),
    {
        let bytes = s.as_bytes_vec();
        let id = heap.allocate(CFValue::Text(bytes));
        StrongCell::assuming_retained_nonnull(CFString::from_raw(id))
    }

    /// Creates a string object holding exactly the given bytes, taken as
    /// an already-encoded UTF-8 sequence, and returns a strong handle.
    pub fn from_bytes(heap: &mut CFHeap, b: &[u8]) -> (r: StrongCell<CFString>)
        requires
            old(heap).wf(),
        ensures
            final(heap)@ == old(heap)@.push(CFObj { count: 1nat, val: CFVal::Text(b@) }),
            final(heap).wf(),
            r.id() == old(heap)@.len(),
    {
        let bytes = slice_to_vec(b);
        let id = heap.allocate(CFValue::Text(bytes));
        StrongCell::assuming_retained_nonnull(CFString::from_raw(id))
    }

    /// The length of the stored byte sequence.
    pub fn length(&self, heap: &CFHeap) -> (r: usize)
        requires
            heap.is_text(self.spec_id() as int),
        ensures
            r == heap.text_of(self.spec_id() as int).len(),
    {
        match heap.value_at(self.raw()) {
            CFValue::Text(b) => b.len(),
            _ => unreached(),
        }
    }

    /// Reads back the stored bytes, exactly as they were put in.
    pub fn as_bytes(&self, heap: &CFHeap) -> (r: Vec<u8>)
        requires
            heap.is_text(self.spec_id() as int),
        ensures
            r@ == heap.text_of(self.spec_id() as int),
    {
        match heap.value_at(self.raw()) {
            CFValue::Text(b) => clone_bytes(b),
            _ => unreached(),
        }
    }

    /// Decodes the stored bytes back into owned text.  The stored bytes
    /// must be a valid UTF-8 encoding, which they are whenever the object
    /// was built from text.
    pub fn as_string(&self, heap: &CFHeap) -> (r: String)
        requires
            heap.is_text(self.spec_id() as int),
            valid_utf8(heap.text_of(self.spec_id() as int)),
        ensures
            r@ == decode_utf8(heap.text_of(self.spec_id() as int)),
            encode_utf8(r@) == heap.text_of(self.spec_id() as int),
    {
        let owned = match heap.value_at(self.raw()) {
            CFValue::Text(b) => clone_bytes(b),
            _ => unreached(),
        };
        let r = string_from_utf8(owned);
        proof {
            vstd::utf8::encode_utf8_decode_utf8(r@);
        }
        r
    }
}

/// Law: building a string object from any character sequence stores a
/// valid UTF-8 encoding, and decoding the stored bytes yields exactly the
/// characters that went in — the empty sequence included.
pub proof fn lemma_string_round_trip(s: Seq<char>)
    ensures
        valid_utf8(encode_utf8(s)),
        decode_utf8(encode_utf8(s)) == s,
{
    vstd::utf8::encode_utf8_valid_utf8(s);
    vstd::utf8::encode_utf8_decode_utf8(s);
}

/// Law: a string object built from a byte sequence stores exactly those
/// bytes — the slot that [`CFString::from_bytes`] creates reads back
/// unchanged.
pub proof fn lemma_string_bytes_round_trip(h: Seq<CFObj>, b: Seq<u8>)
    ensures
        h.push(CFObj { count: 1nat, val: CFVal::Text(b) })[h.len() as int].val->Text_0 == b,
{
}

} // verus!
