use lox::loxcc::{decompress_loxcc, extract_and_decompress, is_loxcc_entry_name, LoxccError, LOXCC_MAGIC};
use std::io::Write;

fn literal_stream(payload: &[u8]) -> Vec<u8> {
    let mut compressed = Vec::new();
    let lit_len = payload.len();
    if lit_len < 15 {
        compressed.push((lit_len as u8) << 4);
    } else {
        compressed.push(0xF0);
        let mut remaining = lit_len - 15;
        while remaining >= 255 {
            compressed.push(255);
            remaining -= 255;
        }
        compressed.push(remaining as u8);
    }
    compressed.extend_from_slice(payload);
    compressed
}

fn blob_of(compressed: &[u8], hint: u32) -> Vec<u8> {
    let mut blob = Vec::new();
    blob.extend_from_slice(&LOXCC_MAGIC.to_le_bytes());
    blob.extend_from_slice(&(compressed.len() as u32).to_le_bytes());
    blob.extend_from_slice(&hint.to_le_bytes());
    blob.extend_from_slice(&0u32.to_le_bytes());
    blob.extend_from_slice(compressed);
    blob
}

fn zip_with(name: &str, contents: &[u8]) -> Vec<u8> {
    let buf = Vec::new();
    let cursor = std::io::Cursor::new(buf);
    let mut zip_writer = zip::ZipWriter::new(cursor);
    let options =
        zip::write::SimpleFileOptions::default().compression_method(zip::CompressionMethod::Stored);
    zip_writer.start_file(name, options).unwrap();
    zip_writer.write_all(contents).unwrap();
    let cursor = zip_writer.finish().unwrap();
    cursor.into_inner()
}

#[test]
fn test_bad_magic() {
    let data = vec![0x00; 100];
    let err = decompress_loxcc(&data).unwrap_err();
    assert!(err.to_string().contains("Not a valid LoxCC"));
}

#[test]
fn test_too_short() {
    let data = vec![0xee, 0xcc, 0xbb, 0xaa]; // just magic, no header
    let err = decompress_loxcc(&data).unwrap_err();
    assert!(err.to_string().contains("too short"));
}

#[test]
fn test_decompress_literals_only() {
    let xml = b"<Config>Hello</Config>";
    let compressed = literal_stream(xml);
    let blob = blob_of(&compressed, xml.len() as u32);
    let result = decompress_loxcc(&blob).unwrap();
    assert_eq!(result, xml);
}

#[test]
fn test_decompress_with_backreference() {
    // Token: 3 literals, match_len - 4 = 2 (i.e., match_len = 6)
    let mut compressed = Vec::new();
    compressed.push(0x32);
    compressed.extend_from_slice(b"ABC");
    compressed.extend_from_slice(&3u16.to_le_bytes());
    let blob = blob_of(&compressed, 9);
    let result = decompress_loxcc(&blob).unwrap();
    assert_eq!(result, b"ABCABCABC");
}

#[test]
fn test_extract_missing_loxcc() {
    let zip_data = zip_with("other.txt", b"hello");
    let err = extract_and_decompress(&zip_data).unwrap_err();
    assert!(err.to_string().contains("sps0.LoxCC"));
}

#[test]
fn test_extract_and_decompress_roundtrip() {
    let xml = b"<?xml version=\"1.0\"?><LoxoneProject/>";
    let compressed = literal_stream(xml);
    let loxcc_blob = blob_of(&compressed, xml.len() as u32);
    let zip_data = zip_with("sps0.LoxCC", &loxcc_blob);
    let result = extract_and_decompress(&zip_data).unwrap();
    assert_eq!(result, xml);
}

#[test]
fn bad_magic_message_names_both_numbers() {
    let mut data = vec![0x00; 20];
    data[0] = 0x01;
    data[1] = 0x02;
    let err = decompress_loxcc(&data).unwrap_err();
    assert!(matches!(err, LoxccError::BadMagic { magic: 0x0201 }));
    assert_eq!(
        err.to_string(),
        "Not a valid LoxCC file (magic: 0x00000201, expected 0xaabbccee)"
    );
}

#[test]
fn too_short_message_gives_length() {
    let err = decompress_loxcc(&[1, 2, 3]).unwrap_err();
    assert!(matches!(err, LoxccError::TooShort { len: 3 }));
    assert_eq!(err.to_string(), "LoxCC data too short (3 bytes)");
}

#[test]
fn header_alone_expands_to_nothing() {
    let blob = blob_of(&[], 0);
    assert_eq!(decompress_loxcc(&blob).unwrap(), Vec::<u8>::new());
}

#[test]
fn long_literal_run_uses_extension_bytes() {
    let payload: Vec<u8> = (0..300u32).map(|i| (i % 251) as u8).collect();
    let compressed = literal_stream(&payload);
    assert_eq!(compressed[0], 0xF0);
    assert_eq!(compressed[1], 255);
    assert_eq!(compressed[2], 30);
    let blob = blob_of(&compressed, 0);
    assert_eq!(decompress_loxcc(&blob).unwrap(), payload);
}

#[test]
fn overlapping_back_reference_repeats_a_byte() {
    // one literal 'x', then offset 1 with match length 4 + 3 = 7
    let compressed = vec![0x13, b'x', 1, 0];
    let blob = blob_of(&compressed, 0);
    assert_eq!(decompress_loxcc(&blob).unwrap(), b"xxxxxxxx");
}

#[test]
fn extended_match_length() {
    // two literals, low nibble 15 with extension 2: match length 4 + 15 + 2 = 21
    let compressed = vec![0x2F, b'a', b'b', 2, 0, 2];
    let blob = blob_of(&compressed, 0);
    let expected: Vec<u8> = b"ab".iter().cycle().take(23).copied().collect();
    assert_eq!(decompress_loxcc(&blob).unwrap(), expected);
}

#[test]
fn partial_final_literal_block_is_kept() {
    // token announces 5 literals but only 3 follow
    let compressed = vec![0x50, b'a', b'b', b'c'];
    let blob = blob_of(&compressed, 0);
    assert_eq!(decompress_loxcc(&blob).unwrap(), b"abc");
}

#[test]
fn dangling_offset_byte_ends_the_stream() {
    // literals, then a single byte where the two-byte offset should be
    let compressed = vec![0x21, b'h', b'i', 7];
    let blob = blob_of(&compressed, 0);
    assert_eq!(decompress_loxcc(&blob).unwrap(), b"hi");
}

#[test]
fn zero_offset_is_refused() {
    let compressed = vec![0x10, b'a', 0, 0];
    let blob = blob_of(&compressed, 0);
    let err = decompress_loxcc(&blob).unwrap_err();
    assert!(matches!(err, LoxccError::ZeroOffset { at: 2 }));
    assert_eq!(err.to_string(), "LoxCC: zero back-reference offset at byte 2");
}

#[test]
fn offset_beyond_output_is_refused() {
    let compressed = vec![0x10, b'a', 5, 0];
    let blob = blob_of(&compressed, 0);
    let err = decompress_loxcc(&blob).unwrap_err();
    assert!(matches!(err, LoxccError::OffsetTooLarge { offset: 5, output_len: 1 }));
    assert_eq!(err.to_string(), "LoxCC: back-reference offset 5 exceeds output size 1");
}

#[test]
fn not_a_zip_is_refused() {
    let err = extract_and_decompress(b"certainly not a zip archive").unwrap_err();
    assert!(matches!(err, LoxccError::InvalidZip { .. }));
    assert_eq!(err.to_string(), "Invalid ZIP archive");
}

#[test]
fn loxcc_entry_found_case_insensitively_in_a_folder() {
    let xml = b"<LoxoneProject/>";
    let blob = blob_of(&literal_stream(xml), 0);
    let zip_data = zip_with("backup/SPS0.loxcc", &blob);
    assert_eq!(extract_and_decompress(&zip_data).unwrap(), xml);
}

#[test]
fn entry_contents_are_decompressed_not_passed_through() {
    let blob = blob_of(&[0x32, b'A', b'B', b'C', 3, 0], 0);
    let zip_data = zip_with("sps0.LoxCC", &blob);
    assert_eq!(extract_and_decompress(&zip_data).unwrap(), b"ABCABCABC");
}

#[test]
fn entry_names() {
    assert!(is_loxcc_entry_name("sps0.LoxCC"));
    assert!(is_loxcc_entry_name("dir/Sps0.LOXCC"));
    assert!(!is_loxcc_entry_name("sps1.LoxCC"));
    assert!(!is_loxcc_entry_name("other.txt"));
}

#[test]
fn header_fields_after_magic_are_ignored() {
    let stream = [0x32, b'A', b'B', b'C', 3, 0];
    let mut a = blob_of(&stream, 9);
    let mut b = blob_of(&stream, 12345);
    a[12] = 0x11;
    b[12] = 0x99;
    b[4] = 0xff;
    assert_eq!(decompress_loxcc(&a).unwrap(), decompress_loxcc(&b).unwrap());
}

#[test]
fn unreadable_entry_is_reported() {
    let blob = blob_of(&literal_stream(b"<x/>"), 0);
    let mut zip_data = zip_with("sps0.LoxCC", &blob);
    // Mark the entry as encrypted in both the local and the central header:
    // the archive opens, but the entry cannot be read without a password.
    let n = zip_data.len();
    for i in 0..n.saturating_sub(4) {
        let sig = &zip_data[i..i + 4];
        if sig == [0x50, 0x4b, 0x03, 0x04] {
            zip_data[i + 6] |= 1;
        } else if sig == [0x50, 0x4b, 0x01, 0x02] {
            zip_data[i + 8] |= 1;
        }
    }
    let err = extract_and_decompress(&zip_data).unwrap_err();
    assert!(matches!(err, LoxccError::ZipEntry { .. }), "got {:?}", err);
    assert!(!err.to_string().is_empty());
}
