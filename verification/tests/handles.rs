use corefoundation::CFData;
use corefoundation::CFDictionary;
use corefoundation::CFHeap;
use corefoundation::CFString;
use corefoundation::CFStringEncoding;
use corefoundation::CFTypeBehavior;
use corefoundation::StrongCell;
use corefoundation::{DICTIONARY_TYPE_ID, STRING_TYPE_ID};

#[test]
fn from_str() {
    let mut heap = CFHeap::new();
    let result = CFData::from_str(&mut heap, "hello world");
    let description = result.deref().description(&mut heap);
    let str = description.deref().as_string(&heap);
    assert!(str.starts_with("<CFData"))
}

#[test]
fn copy_slice() {
    let mut heap = CFHeap::new();
    let result = CFData::copy_slice(&mut heap, b"hello world");
    let description = result.deref().description(&mut heap);
    let str = description.deref().as_string(&heap);
    assert!(str.starts_with("<CFData"))
}

#[test]
fn create_string() {
    let mut heap = CFHeap::new();
    let string = CFString::from_str(&mut heap, "test");
    println!("cf {:?}", string.deref().as_bytes(&heap));
    println!("roundtrip {:?}", string.deref().as_string(&heap));
}

#[test]
fn cast_mismatch_fails() {
    let mut heap = CFHeap::new();
    let string = CFString::from_str(&mut heap, "not a dictionary");
    match string.cast_checked::<CFDictionary>(&heap) {
        Ok(_) => panic!("a string must not cast to a dictionary"),
        Err(mismatch) => {
            assert_eq!(mismatch.expected, DICTIONARY_TYPE_ID);
            assert_eq!(mismatch.actual, STRING_TYPE_ID);
            // The failed cast hands the original handle back; its one
            // release is still owed and can still be paid.
            mismatch.original.release(&mut heap);
        }
    }
}

#[test]
fn cast_same_category_succeeds() {
    let mut heap = CFHeap::new();
    let string = CFString::from_str(&mut heap, "same object");
    let original_desc = string.deref().description(&mut heap);
    let recast: StrongCell<CFString> = match string.cast_checked::<CFString>(&heap) {
        Ok(cell) => cell,
        Err(_) => panic!("a cast to the object's own category must succeed"),
    };
    let recast_desc = recast.deref().description(&mut heap);
    assert_eq!(
        original_desc.deref().as_bytes(&heap),
        recast_desc.deref().as_bytes(&heap)
    );
}

#[test]
fn borrowed_checked_cast() {
    let mut heap = CFHeap::new();
    let string = CFString::from_str(&mut heap, "typed");
    let any_id = string.deref().as_ptr();
    assert_eq!(string.deref().type_id(&heap), STRING_TYPE_ID);
    let as_string: Option<CFString> = string.deref().checked_cast(&heap);
    assert!(as_string.is_some());
    assert_eq!(as_string.unwrap().as_ptr(), any_id);
    let as_dictionary: Option<CFDictionary> = string.deref().checked_cast(&heap);
    assert!(as_dictionary.is_none());
}

#[test]
fn string_byte_round_trip() {
    let mut heap = CFHeap::new();
    for input in [
        &b""[..],
        &b"a"[..],
        &b"hello world"[..],
        "caf\u{e9} \u{1F600}".as_bytes(),
    ] {
        let cell = CFString::from_bytes(&mut heap, input);
        assert_eq!(cell.deref().as_bytes(&heap), input.to_vec());
        assert_eq!(cell.deref().length(&heap), input.len());
    }
}

#[test]
fn string_text_round_trip() {
    let mut heap = CFHeap::new();
    for input in ["", "test", "caf\u{e9}", "\u{1F600} emoji"] {
        let cell = CFString::from_str(&mut heap, input);
        assert_eq!(cell.deref().as_string(&heap), input.to_string());
    }
}

#[test]
fn data_round_trip_lengths() {
    let mut heap = CFHeap::new();
    let empty: Vec<u8> = Vec::new();
    let single = vec![0xABu8];
    let mut large: Vec<u8> = Vec::new();
    for i in 0..5000usize {
        large.push((i % 251) as u8);
    }
    for input in [&empty, &single, &large] {
        let cell = CFData::copy_slice(&mut heap, input);
        let data = cell.deref();
        assert_eq!(data.GetLength(&heap), input.len());
        assert_eq!(data.as_slice(&heap), input);
        for (i, expected) in input.iter().enumerate() {
            assert_eq!(data.byte_at(&heap, i), *expected);
        }
    }
}

#[test]
fn retain_then_release_twice() {
    let mut heap = CFHeap::new();
    let first = CFString::from_str(&mut heap, "counted");
    let second = StrongCell::retain_assuming_nonnull(&mut heap, first.deref());
    second.release(&mut heap);
    first.release(&mut heap);
}

#[test]
fn mutable_handle_keeps_object() {
    let mut heap = CFHeap::new();
    let cell = CFString::from_str(&mut heap, "exclusive");
    let mutable = cell.assuming_mut();
    assert_eq!(mutable.deref().as_bytes(&heap), b"exclusive".to_vec());
    mutable.release(&mut heap);
}

#[test]
fn encoding_constants() {
    assert_eq!(CFStringEncoding::MacRoman.raw_value(), 0);
    assert_eq!(CFStringEncoding::UTF8.raw_value(), 0x0800_0100);
    assert_eq!(
        CFStringEncoding::Unicode.raw_value(),
        CFStringEncoding::UTF16.raw_value()
    );
    assert_eq!(CFStringEncoding::UTF32LE.raw_value(), 0x1c00_0100);
}
