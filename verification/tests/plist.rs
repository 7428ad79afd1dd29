use corefoundation::CFArray;
use corefoundation::CFData;
use corefoundation::CFDictionary;
use corefoundation::CFHeap;
use corefoundation::CFString;
use corefoundation::CFTypeBehavior;
use corefoundation::Format;
use corefoundation::MutabilityOptions;
use corefoundation::{decode_value, encode_value, PlistEntry, PlistValue};
use corefoundation::{CFError, CFPropertyList, StrongCell};

fn text(s: &str) -> PlistValue {
    PlistValue::Text(s.as_bytes().to_vec())
}

fn entry(key: &str, value: Option<PlistValue>) -> PlistEntry {
    PlistEntry {
        key: key.as_bytes().to_vec(),
        value,
    }
}

fn decode_buffer(
    heap: &mut CFHeap,
    bytes: &[u8],
) -> Result<StrongCell<CFPropertyList>, StrongCell<CFError>> {
    let data = CFData::copy_slice(heap, bytes);
    CFPropertyList::from_data(heap, data.deref())
}

#[test]
fn dictionary_absent_and_null_collapse() {
    let mut heap = CFHeap::new();
    let value = PlistValue::Dictionary(vec![
        entry("present", Some(text("value"))),
        entry("null", None),
    ]);
    let buffer = encode_value(&value);
    let plist = decode_buffer(&mut heap, &buffer).expect("a well-formed buffer must decode");
    let dict: StrongCell<CFDictionary> = plist
        .cast_checked(&heap)
        .expect("the buffer framed a dictionary");

    let present = CFString::from_str(&mut heap, "present");
    let null = CFString::from_str(&mut heap, "null");
    let absent = CFString::from_str(&mut heap, "absent");

    assert!(dict.deref().get_with_key(&heap, present.deref()).is_some());
    // A key carrying the explicit null value and a key that is not there
    // are indistinguishable: both answer with no value.
    assert!(dict.deref().get_with_key(&heap, null.deref()).is_none());
    assert!(dict.deref().get_with_key(&heap, absent.deref()).is_none());
}

#[test]
fn dictionary_lookup_by_raw_key() {
    let mut heap = CFHeap::new();
    let value = PlistValue::Dictionary(vec![entry("needle", Some(text("found")))]);
    let buffer = encode_value(&value);
    let plist = decode_buffer(&mut heap, &buffer).unwrap();
    let dict: StrongCell<CFDictionary> = plist.cast_checked(&heap).unwrap();

    let key = CFString::from_str(&mut heap, "needle");
    let raw = key.deref().as_ptr();
    let hit = dict.deref().get_with_ptr(&heap, raw);
    let found: CFString = hit.unwrap().checked_cast(&heap).unwrap();
    assert_eq!(found.as_bytes(&heap), b"found".to_vec());
}

#[test]
fn array_iteration_visits_in_order_twice() {
    let mut heap = CFHeap::new();
    let value = PlistValue::Array(vec![text("first"), text("second"), text("third")]);
    let buffer = encode_value(&value);
    let plist = decode_buffer(&mut heap, &buffer).unwrap();
    let array: StrongCell<CFArray> = plist.cast_checked(&heap).unwrap();

    assert_eq!(array.deref().count(&heap), 3);

    let first_pass = array.deref().iter(&heap);
    let second_pass = array.deref().iter(&heap);
    assert_eq!(first_pass.len(), 3);
    assert_eq!(second_pass.len(), 3);
    for (a, b) in first_pass.iter().zip(second_pass.iter()) {
        assert_eq!(a.as_ptr(), b.as_ptr());
    }

    let expected = [&b"first"[..], &b"second"[..], &b"third"[..]];
    for (element, want) in first_pass.iter().zip(expected.iter()) {
        let s: CFString = element.checked_cast(&heap).unwrap();
        assert_eq!(s.as_bytes(&heap), want.to_vec());
    }

    let past_end = array.deref().get(&heap, 3);
    assert!(past_end.is_none());
}

#[test]
fn plist_end_to_end() {
    // A dictionary whose key "k" maps to an array of three dictionaries;
    // the first of them carrying "mount-point" names the expected volume.
    let mut heap = CFHeap::new();
    let value = PlistValue::Dictionary(vec![entry(
        "k",
        Some(PlistValue::Array(vec![
            PlistValue::Dictionary(vec![entry("content-hint", Some(text("scheme")))]),
            PlistValue::Dictionary(vec![
                entry("content-hint", Some(text("volume"))),
                entry("mount-point", Some(text("/Volumes/Sample Volume"))),
            ]),
            PlistValue::Dictionary(vec![entry("mount-point", Some(text("/Volumes/Other")))]),
        ])),
    )]);
    let buffer = encode_value(&value);
    let plist = decode_buffer(&mut heap, &buffer).unwrap();
    let dict: StrongCell<CFDictionary> = plist.cast_checked(&heap).unwrap();

    let k = CFString::from_str(&mut heap, "k");
    let array_ref = dict.deref().get_with_key(&heap, k.deref()).unwrap();
    let array: CFArray = array_ref.checked_cast(&heap).unwrap();

    let mount_point = CFString::from_str(&mut heap, "mount-point");
    let mut found: Option<Vec<u8>> = None;
    for element in array.iter(&heap) {
        let nested: CFDictionary = element.checked_cast(&heap).unwrap();
        if let Some(value_ref) = nested.get_with_key(&heap, mount_point.deref()) {
            let s: CFString = value_ref.checked_cast(&heap).unwrap();
            found = Some(s.as_bytes(&heap));
            break;
        }
    }
    assert_eq!(found.unwrap(), b"/Volumes/Sample Volume".to_vec());
}

#[test]
fn malformed_buffer_yields_error_object() {
    let mut heap = CFHeap::new();
    let error = match decode_buffer(&mut heap, b"\xFFnot a property list") {
        Ok(_) => panic!("garbage must not decode"),
        Err(e) => e,
    };
    assert_eq!(
        error.deref().message(&heap),
        b"malformed property list".to_vec()
    );
    let description = error.deref().description(&mut heap);
    assert_eq!(
        description.deref().as_string(&heap),
        "malformed property list"
    );
}

#[test]
fn empty_and_truncated_buffers_fail() {
    let mut heap = CFHeap::new();
    assert!(decode_buffer(&mut heap, b"").is_err());
    // A string frame announcing more payload than the buffer holds.
    assert!(decode_buffer(&mut heap, &[1, 0, 0, 0, 9, b'x']).is_err());
    // A well-formed frame followed by trailing bytes.
    let mut buffer = encode_value(&text("tail"));
    buffer.push(0);
    assert!(decode_buffer(&mut heap, &buffer).is_err());
}

#[test]
fn decode_matches_encode_frame_by_frame() {
    let value = PlistValue::Array(vec![
        text("abc"),
        PlistValue::Data(vec![0, 1, 2, 255]),
        PlistValue::Dictionary(vec![entry("inner", None)]),
    ]);
    let buffer = encode_value(&value);
    let (decoded, end) = decode_value(&buffer, 0).expect("the encoder's output must decode");
    assert_eq!(end, buffer.len());
    match decoded {
        PlistValue::Array(elems) => {
            assert_eq!(elems.len(), 3);
            match &elems[0] {
                PlistValue::Text(b) => assert_eq!(b, &b"abc".to_vec()),
                _ => panic!("first element must be the string"),
            }
            match &elems[1] {
                PlistValue::Data(b) => assert_eq!(b, &vec![0, 1, 2, 255]),
                _ => panic!("second element must be the data"),
            }
            match &elems[2] {
                PlistValue::Dictionary(entries) => {
                    assert_eq!(entries.len(), 1);
                    assert_eq!(entries[0].key, b"inner".to_vec());
                    assert!(entries[0].value.is_none());
                }
                _ => panic!("third element must be the dictionary"),
            }
        }
        _ => panic!("the buffer framed an array"),
    }
}

#[test]
fn option_and_format_constants() {
    assert_eq!(MutabilityOptions::Immutable.raw_value(), 0);
    assert_eq!(MutabilityOptions::MutableContainers.raw_value(), 1);
    assert_eq!(MutabilityOptions::MutableContainersAndLeaves.raw_value(), 2);
    assert_eq!(Format::OpenStepFormat.raw_value(), 1);
    assert_eq!(Format::XMLFormat_v1_0.raw_value(), 100);
    assert_eq!(Format::BinaryFormat_v1_0.raw_value(), 200);
}

#[test]
fn options_do_not_change_the_decode() {
    let mut heap = CFHeap::new();
    let buffer = encode_value(&text("same either way"));
    for options in [
        MutabilityOptions::Immutable,
        MutabilityOptions::MutableContainers,
        MutabilityOptions::MutableContainersAndLeaves,
    ] {
        let data = CFData::copy_slice(&mut heap, &buffer);
        let plist = CFPropertyList::from_data_with_options(&mut heap, data.deref(), options)
            .expect("the option must not affect success");
        let s: StrongCell<CFString> = plist.cast_checked(&heap).unwrap();
        assert_eq!(s.deref().as_bytes(&heap), b"same either way".to_vec());
    }
}
