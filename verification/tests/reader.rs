use dtoolkit::cells::CellInt;
use dtoolkit::codec::{align_tag_offset, padding, read_u32_be, read_u64_be};
use dtoolkit::error::{FdtErrorKind, FdtParseError, PropertyError, StandardError};
use dtoolkit::fdt::header::{validate_header, FdtHeader};
use dtoolkit::fdt::structure::{find_string_end, read_token, FdtToken};
use dtoolkit::fdt::Fdt;
use dtoolkit::property::{
    value_as_prop_encoded_array, value_as_str, value_as_str_list, value_as_u32, value_as_u64,
    value_form, ValueForm,
};
use dtoolkit::{Cells, Node, Property};

const MINIMAL: [u8; 60] = [
    0xd0, 0x0d, 0xfe, 0xed, // magic
    0x00, 0x00, 0x00, 0x3c, // totalsize = 60
    0x00, 0x00, 0x00, 0x38, // off_dt_struct = 56
    0x00, 0x00, 0x00, 0x3c, // off_dt_strings = 60
    0x00, 0x00, 0x00, 0x28, // off_mem_rsvmap = 40
    0x00, 0x00, 0x00, 0x11, // version = 17
    0x00, 0x00, 0x00, 0x10, // last_comp_version = 16
    0x00, 0x00, 0x00, 0x00, // boot_cpuid_phys = 0
    0x00, 0x00, 0x00, 0x00, // size_dt_strings = 0
    0x00, 0x00, 0x00, 0x04, // size_dt_struct = 4
    0x00, 0x00, 0x00, 0x00, // memory reservation
    0x00, 0x00, 0x00, 0x00, // ...
    0x00, 0x00, 0x00, 0x00, // ...
    0x00, 0x00, 0x00, 0x00, // ...
    0x00, 0x00, 0x00, 0x09, // dt struct
];

/// `/ { a { p = <1>; }; };`, with a `NOP` token before and after the
/// property and after the root node.
const WITH_NOPS: [u8; 114] = [
    0xd0, 0x0d, 0xfe, 0xed, 0x00, 0x00, 0x00, 0x72, 0x00, 0x00, 0x00, 0x38,
    0x00, 0x00, 0x00, 0x70, 0x00, 0x00, 0x00, 0x28, 0x00, 0x00, 0x00, 0x11,
    0x00, 0x00, 0x00, 0x10, 0x00, 0x00, 0x00, 0x00, 0x00, 0x00, 0x00, 0x02,
    0x00, 0x00, 0x00, 0x38, 0x00, 0x00, 0x00, 0x00, 0x00, 0x00, 0x00, 0x00,
    0x00, 0x00, 0x00, 0x00, 0x00, 0x00, 0x00, 0x00, 0x00, 0x00, 0x00, 0x01,
    0x00, 0x00, 0x00, 0x00, 0x00, 0x00, 0x00, 0x01, 0x61, 0x00, 0x00, 0x00,
    0x00, 0x00, 0x00, 0x04, 0x00, 0x00, 0x00, 0x03, 0x00, 0x00, 0x00, 0x04,
    0x00, 0x00, 0x00, 0x00, 0x00, 0x00, 0x00, 0x01, 0x00, 0x00, 0x00, 0x04,
    0x00, 0x00, 0x00, 0x02, 0x00, 0x00, 0x00, 0x02, 0x00, 0x00, 0x00, 0x04,
    0x00, 0x00, 0x00, 0x09, 0x70, 0x00,
];

fn with_word(blob: &[u8], offset: usize, word: u32) -> Vec<u8> {
    let mut blob = blob.to_vec();
    blob[offset..offset + 4].copy_from_slice(&word.to_be_bytes());
    blob
}

fn error_of(blob: &[u8]) -> FdtParseError {
    Fdt::new(blob).unwrap_err()
}

#[test]
fn minimal_blob_is_an_empty_tree() {
    let fdt = Fdt::new(&MINIMAL).unwrap();
    assert_eq!(fdt.data(), &MINIMAL);
    assert_eq!(fdt.version(), 17);
    assert_eq!(fdt.last_comp_version(), 16);
    assert_eq!(fdt.boot_cpuid_phys(), 0);
    let root = fdt.root();
    assert_eq!(root.name(), "");
    assert_eq!(root.name_without_address(), "");
    assert!(root.children().is_empty());
    assert!(root.properties().is_empty());
    assert!(root.property("any").is_none());
    assert!(root.child("any").is_none());
    assert!(fdt.memory_reservations().is_empty());
    assert_eq!(fdt.find_node("/").unwrap().name(), "");
    assert!(fdt.find_node("/a").is_none());
}

#[test]
fn invalid_magic_is_at_offset_zero() {
    let mut blob = MINIMAL.to_vec();
    blob[0] = 0x00;
    let error = error_of(&blob);
    assert_eq!(error.kind, FdtErrorKind::InvalidMagic);
    assert_eq!(error.offset(), 0);
}

#[test]
fn truncated_blob_has_an_invalid_length() {
    let error = error_of(&MINIMAL[..10]);
    assert_eq!(error.kind, FdtErrorKind::InvalidLength);
    assert_eq!(error.offset(), 0);
    assert_eq!(error_of(&[]).kind, FdtErrorKind::InvalidLength);
    // A whole header whose total size is not the length of the buffer.
    let error = error_of(&MINIMAL[..59]);
    assert_eq!(error.kind, FdtErrorKind::InvalidLength);
    assert_eq!(error.offset(), 4);
    let mut longer = MINIMAL.to_vec();
    longer.push(0);
    assert_eq!(error_of(&longer), FdtParseError::new(FdtErrorKind::InvalidLength, 4));
}

#[test]
fn unsupported_version_is_at_the_version_field() {
    let blob = with_word(&MINIMAL, 20, 16);
    let error = error_of(&blob);
    assert_eq!(error.kind, FdtErrorKind::UnsupportedVersion(16));
    assert_eq!(error.offset(), 20);
    // A last compatible version after the supported one.
    let blob = with_word(&with_word(&MINIMAL, 20, 18), 24, 18);
    assert_eq!(
        error_of(&blob),
        FdtParseError::new(FdtErrorKind::UnsupportedVersion(18), 20)
    );
    // A newer version that is compatible is accepted.
    assert!(Fdt::new(&with_word(&MINIMAL, 20, 18)).is_ok());
}

#[test]
fn header_checks_are_made_in_order() {
    let cases: [(usize, u32, FdtErrorKind, usize); 8] = [
        (16, 60, FdtErrorKind::InvalidHeader("dt_struct not after memrsvmap"), 16),
        (8, 64, FdtErrorKind::InvalidHeader("struct offset out of bounds"), 8),
        (12, 64, FdtErrorKind::InvalidHeader("strings offset out of bounds"), 12),
        (36, 8, FdtErrorKind::InvalidHeader("struct block overflows"), 36),
        (32, 4, FdtErrorKind::InvalidHeader("strings block overflows"), 32),
        (12, 56, FdtErrorKind::InvalidHeader("strings block not after struct block"), 12),
        (8, 54, FdtErrorKind::InvalidHeader("struct block not aligned"), 8),
        (16, 36, FdtErrorKind::MemReserveInvalid, 16),
    ];
    for (field, word, kind, offset) in cases {
        let mut blob = with_word(&MINIMAL, field, word);
        if field == 8 && word == 54 {
            // Keep the structure block inside the blob.
            blob = with_word(&blob, 36, 2);
        }
        assert_eq!(error_of(&blob), FdtParseError::new(kind, offset));
    }
    assert!(validate_header(&MINIMAL).is_ok());
    assert!(FdtHeader::parse(&MINIMAL[..39]).is_none());
    assert_eq!(FdtHeader::parse(&MINIMAL).unwrap().totalsize(), 60);
}

#[test]
fn memory_reservations_must_be_terminated() {
    // The only entry is no terminator, and the structure block follows it.
    let mut blob = MINIMAL.to_vec();
    blob[47] = 1;
    assert_eq!(
        error_of(&blob),
        FdtParseError::new(FdtErrorKind::MemReserveNotTerminated, 56)
    );
    // No room for an entry at all.
    let blob = with_word(&MINIMAL, 16, 48);
    assert_eq!(
        error_of(&blob),
        FdtParseError::new(FdtErrorKind::MemReserveNotTerminated, 48)
    );
}

#[test]
fn nop_tokens_are_passed_over() {
    let fdt = Fdt::new(&WITH_NOPS).unwrap();
    let a = fdt.find_node("/a").unwrap();
    let props = a.properties();
    assert_eq!(props.len(), 1);
    assert_eq!(props[0].name(), "p");
    assert_eq!(props[0].value(), &[0, 0, 0, 1]);
    assert_eq!(props[0].as_u32(), Ok(1));
    assert!(a.children().is_empty());
    assert_eq!(fdt.root().children().len(), 1);
    assert_eq!(fdt.string(0).unwrap(), "p");
    assert_eq!(
        fdt.string(2).unwrap_err(),
        FdtParseError::new(FdtErrorKind::InvalidOffset, 2)
    );
}

#[test]
fn structure_errors_carry_the_offset() {
    let root = 56;
    let a = root + 8;
    let nop = a + 8;
    let prop = nop + 4;
    let end_a = prop + 16 + 4;
    let end_root = end_a + 4;
    let end = end_root + 8;
    assert_eq!(&WITH_NOPS[end..end + 4], &[0, 0, 0, 9]);

    // An unknown token.
    assert_eq!(
        error_of(&with_word(&WITH_NOPS, nop, 7)),
        FdtParseError::new(FdtErrorKind::BadToken(7), nop)
    );
    // `END` inside a node.
    assert_eq!(
        error_of(&with_word(&WITH_NOPS, nop, 9)),
        FdtParseError::new(FdtErrorKind::BadToken(9), nop)
    );
    // A second root.
    assert_eq!(
        error_of(&with_word(&WITH_NOPS, end_root + 4, 1)),
        FdtParseError::new(FdtErrorKind::BadToken(1), end_root + 4)
    );
    // `END_NODE` without an open node.
    assert_eq!(
        error_of(&with_word(&WITH_NOPS, end_root + 4, 2)),
        FdtParseError::new(FdtErrorKind::BadToken(2), end_root + 4)
    );
    // A missing `END` token: the walk leaves the structure block.
    assert_eq!(
        error_of(&with_word(&WITH_NOPS, end, 4)),
        FdtParseError::new(FdtErrorKind::InvalidOffset, end + 4)
    );
    // A missing `END_NODE` token.
    assert_eq!(
        error_of(&with_word(&WITH_NOPS, end_root, 4)),
        FdtParseError::new(FdtErrorKind::BadToken(9), end)
    );
    // A token after `END`.
    assert_eq!(
        error_of(&with_word(&WITH_NOPS, end_root + 4, 9)),
        FdtParseError::new(FdtErrorKind::BadToken(9), end)
    );
    // A property value that leaves the structure block.
    assert_eq!(
        error_of(&with_word(&WITH_NOPS, prop + 4, 1000)),
        FdtParseError::new(FdtErrorKind::InvalidOffset, prop)
    );
    // A name offset that leaves the strings block.
    assert_eq!(
        error_of(&with_word(&WITH_NOPS, prop + 8, 2)),
        FdtParseError::new(FdtErrorKind::InvalidOffset, prop + 8)
    );
}

#[test]
fn names_must_be_terminated_utf8() {
    let a = 56 + 8;
    let strings = WITH_NOPS.len() - 2;
    // The name of node `a` without its terminator runs into the tokens
    // behind it, which hold zero bytes: fill them up.
    let mut blob = WITH_NOPS.to_vec();
    blob[a + 4] = 0xff;
    assert_eq!(
        error_of(&blob),
        FdtParseError::new(FdtErrorKind::InvalidString, a + 4)
    );
    // A property name that is not UTF-8.
    let mut blob = WITH_NOPS.to_vec();
    blob[strings] = 0x80;
    assert_eq!(
        error_of(&blob),
        FdtParseError::new(FdtErrorKind::InvalidString, strings)
    );
    // A property name without a terminator.
    let mut blob = WITH_NOPS.to_vec();
    blob[strings + 1] = b'q';
    assert_eq!(
        error_of(&blob),
        FdtParseError::new(FdtErrorKind::InvalidString, strings)
    );
    // A name of several UTF-8 bytes is accepted.
    let mut blob = WITH_NOPS.to_vec();
    blob[a + 4] = 0xc3;
    blob[a + 5] = 0xa9;
    blob[a + 6] = 0;
    let expected = "\u{e9}";
    let fdt = Fdt::new(&blob).unwrap();
    assert_eq!(fdt.root().children()[0].name(), expected);
    assert!(fdt.find_node("/\u{e9}").is_some());
}

#[test]
fn cell_codec_reads_big_endian() {
    let buf = [0x01, 0x02, 0x03, 0x04, 0x05, 0x06, 0x07, 0x08, 0x09];
    assert_eq!(read_u32_be(&buf, 0), Ok(0x0102_0304));
    assert_eq!(read_u32_be(&buf, 5), Ok(0x0607_0809));
    assert_eq!(
        read_u32_be(&buf, 6),
        Err(FdtParseError::new(FdtErrorKind::InvalidOffset, 6))
    );
    assert_eq!(
        read_u32_be(&buf, usize::MAX),
        Err(FdtParseError::new(FdtErrorKind::InvalidOffset, usize::MAX))
    );
    assert_eq!(read_u64_be(&buf, 1), Ok(0x0203_0405_0607_0809));
    assert_eq!(
        read_u64_be(&buf, 2),
        Err(FdtParseError::new(FdtErrorKind::InvalidOffset, 2))
    );
}

#[test]
fn alignment_rounds_up_to_four() {
    assert_eq!(align_tag_offset(0), Some(0));
    assert_eq!(align_tag_offset(1), Some(4));
    assert_eq!(align_tag_offset(4), Some(4));
    assert_eq!(align_tag_offset(13), Some(16));
    assert_eq!(align_tag_offset(usize::MAX), None);
    assert_eq!(align_tag_offset(usize::MAX - 3), Some(usize::MAX - 3));
    assert_eq!(padding(5), 3);
    assert_eq!(padding(8), 0);
}

#[test]
fn cells_are_combined_left_to_right() {
    let bytes = [
        0x00, 0x00, 0x00, 0x01, 0x00, 0x00, 0x00, 0x02, 0x00, 0x00, 0x00, 0x03, 0x00, 0x00,
        0x00, 0x04, 0x00, 0x00, 0x00, 0x05,
    ];
    let cells = |n: usize| Cells::new(&bytes[..4 * n]).unwrap();
    assert_eq!(cells(0).to_int::<u32>(), Ok(0));
    assert_eq!(cells(0).len(), 0);
    assert_eq!(cells(1).to_int::<u32>(), Ok(1));
    assert_eq!(cells(1).to_int::<u64>(), Ok(1));
    assert_eq!(cells(2).to_int::<u64>(), Ok(0x1_0000_0002));
    assert_eq!(cells(2).to_int::<u128>(), Ok(0x1_0000_0002));
    assert_eq!(cells(3).to_int::<u128>(), Ok(0x1_0000_0002_0000_0003));
    assert_eq!(
        cells(4).to_int::<u128>(),
        Ok(0x1_0000_0002_0000_0003_0000_0004)
    );
    assert_eq!(
        cells(2).to_int::<u32>(),
        Err(StandardError::TooManyCells { cells: 2 })
    );
    assert_eq!(
        cells(3).to_int::<u64>(),
        Err(StandardError::TooManyCells { cells: 3 })
    );
    assert_eq!(
        cells(5).to_int::<u128>(),
        Err(StandardError::TooManyCells { cells: 5 })
    );
    assert_eq!(u64::from_cell_bytes(&bytes[..8]), Some(0x1_0000_0002));
    assert!(Cells::new(&bytes[..3]).is_none());
    assert_eq!(cells(2).as_bytes(), &bytes[..8]);
    assert_eq!(cells(2).len(), 2);
}

#[test]
fn values_are_decoded() {
    assert_eq!(value_as_u32(&[0x12, 0x34, 0x56, 0x78]), Ok(0x1234_5678));
    assert_eq!(value_as_u32(&[0x12, 0x34, 0x56]), Err(PropertyError::InvalidLength));
    assert_eq!(value_as_u32(&[0; 8]), Err(PropertyError::InvalidLength));
    assert_eq!(
        value_as_u64(&[0x11, 0x22, 0x33, 0x44, 0x55, 0x66, 0x77, 0x88]),
        Ok(0x1122_3344_5566_7788)
    );
    assert_eq!(value_as_u64(&[0; 4]), Err(PropertyError::InvalidLength));
    assert_eq!(value_as_str(b"hello world\0"), Ok("hello world"));
    assert_eq!(value_as_str(b"\0"), Ok(""));
    assert_eq!(value_as_str(b""), Err(PropertyError::InvalidString));
    assert_eq!(value_as_str(b"hello"), Err(PropertyError::InvalidString));
    assert_eq!(value_as_str(b"a\0b\0"), Err(PropertyError::InvalidString));
    assert_eq!(value_as_str(b"\xff\0"), Err(PropertyError::InvalidString));
}

#[test]
fn string_lists_are_decoded() {
    let empty: Vec<&str> = Vec::new();
    assert_eq!(value_as_str_list(b""), empty);
    assert_eq!(value_as_str_list(b"first\0second\0third\0"), vec!["first", "second", "third"]);
    assert_eq!(value_as_str_list(b"a\0\0b\0"), vec!["a", "", "b"]);
    assert_eq!(value_as_str_list(b"a\0rest"), vec!["a"]);
    assert_eq!(value_as_str_list(b"a\0\xff\0b\0"), vec!["a"]);
    // A list is read back from the value that holds it.
    for list in [vec![], vec!["x"], vec!["", ""], vec!["one", "", "three"]] {
        let mut value = Vec::new();
        for s in &list {
            value.extend_from_slice(s.as_bytes());
            value.push(0);
        }
        assert_eq!(value_as_str_list(&value), list);
    }
    // A string is read back from the value that holds it.
    for s in ["", "a", "hello world", "\u{e9}t\u{e9}"] {
        let mut value = s.as_bytes().to_vec();
        value.push(0);
        assert_eq!(value_as_str(&value), Ok(s));
    }
}

fn rows(value: &[u8], fields: &[usize]) -> Result<Vec<Vec<Vec<u8>>>, StandardError> {
    value_as_prop_encoded_array(value, fields).map(|rows| {
        rows.iter()
            .map(|row| row.iter().map(|cells| cells.as_bytes().to_vec()).collect())
            .collect()
    })
}

#[test]
fn prop_encoded_arrays_are_split_into_fields() {
    let value: Vec<u8> = (0..24).collect();
    assert_eq!(
        rows(&value, &[2, 1]),
        Ok(vec![
            vec![value[0..8].to_vec(), value[8..12].to_vec()],
            vec![value[12..20].to_vec(), value[20..24].to_vec()],
        ])
    );
    assert_eq!(
        rows(&value, &[1, 0, 2]),
        Ok(vec![
            vec![value[0..4].to_vec(), vec![], value[4..12].to_vec()],
            vec![value[12..16].to_vec(), vec![], value[16..24].to_vec()],
        ])
    );
    // A value of `k` cells is one element of one field of `k` cells.
    for k in 1..=6 {
        assert_eq!(
            rows(&value[..4 * k], &[k]),
            Ok(vec![vec![value[..4 * k].to_vec()]])
        );
    }
    assert_eq!(
        rows(&value, &[5]),
        Err(StandardError::PropEncodedArraySizeMismatch { size: 24, chunk: 5 })
    );
    assert_eq!(
        rows(&value[..7], &[1]),
        Err(StandardError::PropEncodedArraySizeMismatch { size: 7, chunk: 1 })
    );
    assert_eq!(
        rows(&value, &[]),
        Err(StandardError::PropEncodedArraySizeMismatch { size: 24, chunk: 0 })
    );
    assert_eq!(
        rows(&value, &[0, 0]),
        Err(StandardError::PropEncodedArraySizeMismatch { size: 24, chunk: 0 })
    );
    assert_eq!(
        rows(&value, &[usize::MAX, 2]),
        Err(StandardError::PropEncodedArraySizeMismatch {
            size: 24,
            chunk: usize::MAX
        })
    );
    assert_eq!(
        rows(&value, &[usize::MAX / 4 + 1]),
        Err(StandardError::PropEncodedArraySizeMismatch {
            size: 24,
            chunk: usize::MAX / 4 + 1
        })
    );
    // An empty value has no elements.
    assert_eq!(rows(&[], &[2, 1]), Ok(vec![]));
    assert_eq!(rows(&[], &[]), Ok(vec![]));
}

#[test]
fn property_errors_become_standard_errors() {
    assert_eq!(
        StandardError::from(PropertyError::InvalidLength),
        StandardError::PropertyConversion(PropertyError::InvalidLength)
    );
}

#[test]
fn tokens_are_read_inside_the_structure_block() {
    let fdt = Fdt::new(&WITH_NOPS).unwrap();
    let layout = fdt.layout();
    assert_eq!(layout.struct_start, 56);
    assert_eq!(layout.strings_end, WITH_NOPS.len());
    let token = |off| read_token(&WITH_NOPS, &layout, off);
    assert_eq!(token(56), Ok(FdtToken::BeginNode));
    assert_eq!(token(72), Ok(FdtToken::Nop));
    assert_eq!(token(76), Ok(FdtToken::Prop));
    assert_eq!(token(96), Ok(FdtToken::EndNode));
    assert_eq!(token(108), Ok(FdtToken::End));
    // The name of the root, read as a token.
    assert_eq!(
        token(68),
        Err(FdtParseError::new(FdtErrorKind::BadToken(0x6100_0000), 68))
    );
    assert_eq!(
        token(112),
        Err(FdtParseError::new(FdtErrorKind::InvalidOffset, 112))
    );
    // The name of node `a` ends behind its terminator.
    assert_eq!(find_string_end(&WITH_NOPS, 68, layout.struct_end), Ok(70));
    assert_eq!(find_string_end(&WITH_NOPS, 60, layout.struct_end), Ok(61));
    assert_eq!(find_string_end(&WITH_NOPS, 112, 114), Ok(114));
    assert_eq!(
        find_string_end(&WITH_NOPS, 112, 113),
        Err(FdtParseError::new(FdtErrorKind::InvalidString, 112))
    );
}

#[test]
fn values_are_shown_in_four_forms() {
    assert_eq!(value_form(b""), ValueForm::Empty);
    assert_eq!(value_form(b"hello\0"), ValueForm::Strings);
    assert_eq!(value_form(b"a b\0c\0"), ValueForm::Strings);
    assert_eq!(value_form(b"\0"), ValueForm::Strings);
    assert_eq!(value_form(b"abc\0"), ValueForm::Strings);
    // Two zero bytes in a row, a byte that is not shown, no terminator.
    assert_eq!(value_form(b"ab\0\0"), ValueForm::Cells);
    assert_eq!(value_form(b"a\tb\0"), ValueForm::Cells);
    assert_eq!(value_form(b"abcd"), ValueForm::Cells);
    assert_eq!(value_form(&[0, 0, 0, 1]), ValueForm::Cells);
    assert_eq!(value_form(b"abc"), ValueForm::Bytes);
    assert_eq!(value_form(&[0x7f, 0]), ValueForm::Bytes);
    assert_eq!(value_form(&[0, 0]), ValueForm::Bytes);
}
