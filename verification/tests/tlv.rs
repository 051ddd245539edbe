use ncmeta::nctg::NctgBox;
use ncmeta::stream::ByteReader;
use ncmeta::Error;

fn push_u16(out: &mut Vec<u8>, x: u16) {
    out.extend_from_slice(&x.to_be_bytes());
}

fn push_u32(out: &mut Vec<u8>, x: u32) {
    out.extend_from_slice(&x.to_be_bytes());
}

fn push_entry(out: &mut Vec<u8>, tag: u32, ty: u16, len: u16, payload: &[u8]) {
    push_u32(out, tag);
    push_u16(out, ty);
    push_u16(out, len);
    out.extend_from_slice(payload);
}

/// Wraps a leaf body in its box header and reads it back.
fn read_leaf_body(body: Vec<u8>) -> (Result<NctgBox, Error>, ByteReader) {
    let size = 8 + body.len() as u32;
    let mut data: Vec<u8> = Vec::new();
    push_u32(&mut data, size);
    push_u32(&mut data, 0x6E637467);
    data.extend_from_slice(&body);
    let mut r = ByteReader::new(data);
    let declared = r.read_u32_be().unwrap() as u64;
    let _fourcc = r.read_u32_be().unwrap();
    let parsed = NctgBox::read_box(&mut r, declared);
    (parsed, r)
}

#[test]
fn timestamp_entry_stored() {
    // Tag = capture timestamp, type text, length 11: ten printable ASCII
    // bytes then a zero terminator.
    let mut body: Vec<u8> = Vec::new();
    push_entry(&mut body, 0x0012, 0x02, 11, b"2024:01:02\0");
    let (parsed, _) = read_leaf_body(body);
    let leaf = parsed.unwrap();
    assert_eq!(leaf.date_time_original, Some(String::from("2024:01:02")));
    assert_eq!(leaf.time_zone, None);
}

#[test]
fn timezone_entry_stored() {
    let mut body: Vec<u8> = Vec::new();
    push_entry(&mut body, 0x0019, 0x02, 7, b"+09:00\0");
    let (parsed, _) = read_leaf_body(body);
    let leaf = parsed.unwrap();
    assert_eq!(leaf.date_time_original, None);
    assert_eq!(leaf.time_zone, Some(String::from("+09:00")));
}

#[test]
fn u32_entry_advances_twelve_bytes() {
    // A type 0x04 entry with count 3 occupies exactly 12 payload bytes and
    // stores nothing, whatever its tag; the next record is found right after.
    let mut body: Vec<u8> = Vec::new();
    push_entry(&mut body, 0x0012, 0x04, 3, &[0xAA; 12]);
    push_entry(&mut body, 0x0019, 0x02, 7, b"+09:00\0");
    let (parsed, r) = read_leaf_body(body);
    let leaf = parsed.unwrap();
    assert_eq!(leaf.date_time_original, None);
    assert_eq!(leaf.time_zone, Some(String::from("+09:00")));
    assert_eq!(r.stream_position(), 8 + 20 + 15);
}

#[test]
fn skip_widths() {
    // Element widths: type 0x01 and 0x07 one byte, 0x03 two, 0x05 eight.
    let mut body: Vec<u8> = Vec::new();
    push_entry(&mut body, 0x0001, 0x01, 3, &[1, 2, 3]);
    push_entry(&mut body, 0x0002, 0x03, 2, &[0; 4]);
    push_entry(&mut body, 0x0003, 0x05, 1, &[0; 8]);
    push_entry(&mut body, 0x0004, 0x07, 2, &[9, 9]);
    push_entry(&mut body, 0x0012, 0x02, 3, b"ab\0");
    let (parsed, _) = read_leaf_body(body);
    let leaf = parsed.unwrap();
    assert_eq!(leaf.date_time_original, Some(String::from("ab")));
}

#[test]
fn unknown_tag_text_consumed() {
    // A text entry under an unrecognized tag: its bytes are consumed, nothing
    // is stored, and decoding continues right after it.
    let mut body: Vec<u8> = Vec::new();
    push_entry(&mut body, 0x0099, 0x02, 4, b"abc\0");
    push_entry(&mut body, 0x0012, 0x02, 3, b"hi\0");
    let (parsed, _) = read_leaf_body(body);
    let leaf = parsed.unwrap();
    assert_eq!(leaf.date_time_original, Some(String::from("hi")));
    assert_eq!(leaf.time_zone, None);
}

#[test]
fn last_entry_wins() {
    let mut body: Vec<u8> = Vec::new();
    push_entry(&mut body, 0x0012, 0x02, 4, b"old\0");
    push_entry(&mut body, 0x0012, 0x02, 4, b"new\0");
    let (parsed, _) = read_leaf_body(body);
    assert_eq!(parsed.unwrap().date_time_original, Some(String::from("new")));
}

#[test]
fn empty_text_payload_stores_empty_string() {
    let mut body: Vec<u8> = Vec::new();
    push_entry(&mut body, 0x0012, 0x02, 0, b"");
    let (parsed, _) = read_leaf_body(body);
    assert_eq!(parsed.unwrap().date_time_original, Some(String::new()));
}

#[test]
fn non_ascii_text_decoded() {
    let mut body: Vec<u8> = Vec::new();
    push_entry(&mut body, 0x0019, 0x02, 3, &[0xC3, 0xA9, 0x00]);
    let (parsed, _) = read_leaf_body(body);
    let expected = String::from_utf8(vec![0xC3, 0xA9]).unwrap();
    assert_eq!(parsed.unwrap().time_zone, Some(expected));
}

#[test]
fn invalid_utf8_is_fatal() {
    let mut body: Vec<u8> = Vec::new();
    push_entry(&mut body, 0x0012, 0x02, 2, &[0xFF, 0x00]);
    let (parsed, _) = read_leaf_body(body);
    assert_eq!(parsed, Err(Error::TextDecodeFailure));
}

#[test]
fn unsupported_type_code_is_fatal() {
    let mut body: Vec<u8> = Vec::new();
    push_entry(&mut body, 0x0012, 0x06, 2, &[0, 0]);
    let (parsed, _) = read_leaf_body(body);
    assert_eq!(parsed, Err(Error::UnsupportedTlvType));
}

#[test]
fn truncated_entry_header_is_fatal() {
    let body: Vec<u8> = vec![0, 0, 0, 0x12, 0, 2];
    let (parsed, _) = read_leaf_body(body);
    assert_eq!(parsed, Err(Error::StreamFailure));
}

#[test]
fn truncated_payload_is_fatal() {
    let mut body: Vec<u8> = Vec::new();
    push_entry(&mut body, 0x0012, 0x02, 8, b"ab\0");
    let (parsed, _) = read_leaf_body(body);
    assert_eq!(parsed, Err(Error::StreamFailure));
}

#[test]
fn defensive_end_seek_runs() {
    // The last record starts inside the declared range but runs past its
    // end; the stream is still forced back to start + declared size.
    let mut body: Vec<u8> = Vec::new();
    push_entry(&mut body, 0x0001, 0x01, 2, &[7, 7]);
    push_entry(&mut body, 0x0002, 0x01, 4, &[1, 2, 3, 4]);
    let mut data: Vec<u8> = Vec::new();
    push_u32(&mut data, 8 + 10 + 4);
    push_u32(&mut data, 0x6E637467);
    data.extend_from_slice(&body);
    let mut r = ByteReader::new(data);
    let declared = r.read_u32_be().unwrap() as u64;
    assert_eq!(declared, 22);
    let _fourcc = r.read_u32_be().unwrap();
    let parsed = NctgBox::read_box(&mut r, declared).unwrap();
    assert_eq!(parsed, NctgBox::default());
    assert_eq!(r.stream_position(), 22);
    assert_eq!(r.remaining(), 8);
}

#[test]
fn declared_size_past_buffer_is_fatal() {
    // Records all fit, but the declared range runs past the buffer: the
    // forced end seek fails.
    let mut body: Vec<u8> = Vec::new();
    push_entry(&mut body, 0x0001, 0x01, 2, &[7, 7]);
    let mut data: Vec<u8> = Vec::new();
    push_u32(&mut data, 8 + 10 + 4);
    push_u32(&mut data, 0x6E637467);
    data.extend_from_slice(&body);
    let mut r = ByteReader::new(data);
    let declared = r.read_u32_be().unwrap() as u64;
    let _fourcc = r.read_u32_be().unwrap();
    let parsed = NctgBox::read_box(&mut r, declared);
    assert_eq!(parsed, Err(Error::StreamFailure));
}
