use ncmeta::ncdt::NcdtBox;
use ncmeta::nctg::NctgBox;
use ncmeta::stream::ByteReader;
use ncmeta::Error;

fn push_u32(out: &mut Vec<u8>, x: u32) {
    out.extend_from_slice(&x.to_be_bytes());
}

fn leaf_bytes() -> (NctgBox, Vec<u8>) {
    let leaf = NctgBox {
        date_time_original: Some(String::from("2024:01:02 03:04:05")),
        time_zone: None,
    };
    let mut out: Vec<u8> = Vec::new();
    leaf.write_box(&mut out).unwrap();
    (leaf, out)
}

fn read_container_body(children: Vec<u8>) -> (Result<NcdtBox, Error>, ByteReader) {
    let size = 8 + children.len() as u32;
    let mut data: Vec<u8> = Vec::new();
    push_u32(&mut data, size);
    push_u32(&mut data, 0x6E636474);
    data.extend_from_slice(&children);
    let mut r = ByteReader::new(data);
    let declared = r.read_u32_be().unwrap() as u64;
    let _fourcc = r.read_u32_be().unwrap();
    let parsed = NcdtBox::read_box(&mut r, declared);
    (parsed, r)
}

#[test]
fn unknown_child_is_skipped() {
    // An unrecognized 16-byte child, then the recognized leaf: the read
    // yields the same leaf as without the stranger, and the stream ends at
    // the container's declared end offset.
    let (leaf, leaf_wire) = leaf_bytes();
    let mut unknown: Vec<u8> = Vec::new();
    push_u32(&mut unknown, 16);
    unknown.extend_from_slice(b"free");
    unknown.extend_from_slice(&[0xAB; 8]);

    let mut children: Vec<u8> = Vec::new();
    children.extend_from_slice(&unknown);
    children.extend_from_slice(&leaf_wire);
    let declared_end = 8 + children.len() as u64;
    let (with_unknown, r1) = read_container_body(children);

    let (without_unknown, _r2) = read_container_body(leaf_wire);

    let with_unknown = with_unknown.unwrap();
    let without_unknown = without_unknown.unwrap();
    assert_eq!(with_unknown.nctg, Some(leaf));
    assert_eq!(with_unknown.nctg, without_unknown.nctg);
    assert_eq!(r1.stream_position(), declared_end);
}

#[test]
fn oversized_child_is_rejected() {
    // The child claims 100 bytes while the parent has 16 left: a size
    // violation, and no value comes back.
    let mut children: Vec<u8> = Vec::new();
    push_u32(&mut children, 100);
    children.extend_from_slice(b"free");
    children.extend_from_slice(&[0; 8]);
    let (parsed, _) = read_container_body(children);
    assert_eq!(parsed, Err(Error::SizeViolation));
}

#[test]
fn undersized_child_is_rejected() {
    // A declared child size smaller than its own header can make no
    // progress; it is rejected as a size violation.
    let mut children: Vec<u8> = Vec::new();
    push_u32(&mut children, 4);
    children.extend_from_slice(b"free");
    let (parsed, _) = read_container_body(children);
    assert_eq!(parsed, Err(Error::SizeViolation));
}

#[test]
fn oversized_leaf_child_is_rejected() {
    // The size check guards the recognized child too, before recursing.
    let mut children: Vec<u8> = Vec::new();
    push_u32(&mut children, 64);
    children.extend_from_slice(b"nctg");
    let (parsed, _) = read_container_body(children);
    assert_eq!(parsed, Err(Error::SizeViolation));
}

#[test]
fn repeated_leaf_last_one_wins() {
    let first = NctgBox {
        date_time_original: Some(String::from("first")),
        time_zone: None,
    };
    let second = NctgBox {
        date_time_original: Some(String::from("second")),
        time_zone: Some(String::from("+00:00")),
    };
    let mut children: Vec<u8> = Vec::new();
    first.write_box(&mut children).unwrap();
    second.write_box(&mut children).unwrap();
    let (parsed, _) = read_container_body(children);
    assert_eq!(parsed.unwrap().nctg, Some(second));
}

#[test]
fn truncated_child_header_is_fatal() {
    let children: Vec<u8> = vec![0, 0, 0, 16];
    let (parsed, _) = read_container_body(children);
    assert_eq!(parsed, Err(Error::StreamFailure));
}

#[test]
fn leaf_failure_aborts_container() {
    // An unsupported TLV type inside the leaf fails the whole container read.
    let mut leaf_body: Vec<u8> = Vec::new();
    push_u32(&mut leaf_body, 0x0012);
    leaf_body.extend_from_slice(&[0x00, 0x06, 0x00, 0x00]);
    let mut children: Vec<u8> = Vec::new();
    push_u32(&mut children, 8 + leaf_body.len() as u32);
    children.extend_from_slice(b"nctg");
    children.extend_from_slice(&leaf_body);
    let (parsed, _) = read_container_body(children);
    assert_eq!(parsed, Err(Error::UnsupportedTlvType));
}
