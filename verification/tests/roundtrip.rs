use ncmeta::ncdt::NcdtBox;
use ncmeta::nctg::NctgBox;
use ncmeta::stream::ByteReader;
use ncmeta::BoxType;

fn read_container(data: Vec<u8>) -> (Result<NcdtBox, ncmeta::Error>, ByteReader) {
    let mut r = ByteReader::new(data);
    let size = r.read_u32_be().unwrap() as u64;
    let fourcc = r.read_u32_be().unwrap();
    assert_eq!(BoxType::from_fourcc(fourcc), BoxType::NcdtBox);
    let parsed = NcdtBox::read_box(&mut r, size);
    (parsed, r)
}

#[test]
fn empty_container_round_trip() {
    let b = NcdtBox { nctg: None };
    assert_eq!(b.get_size(), 8);
    let mut out: Vec<u8> = Vec::new();
    let written = b.write_box(&mut out).unwrap();
    assert_eq!(written, 8);
    assert_eq!(out.len() as u64, written);
    assert_eq!(out, vec![0, 0, 0, 8, b'n', b'c', b'd', b't']);
    let (parsed, r) = read_container(out);
    assert_eq!(parsed.unwrap(), b);
    assert_eq!(r.stream_position(), 8);
}

#[test]
fn full_container_round_trip() {
    let leaf = NctgBox {
        date_time_original: Some(String::from("2024:01:02 03:04:05")),
        time_zone: Some(String::from("+09:00")),
    };
    let b = NcdtBox { nctg: Some(leaf) };
    let mut out: Vec<u8> = Vec::new();
    let written = b.write_box(&mut out).unwrap();
    assert_eq!(written, b.get_size());
    assert_eq!(out.len() as u64, written);
    let (parsed, r) = read_container(out);
    assert_eq!(parsed.unwrap(), b);
    assert_eq!(r.stream_position(), written);
}

#[test]
fn leaf_round_trip() {
    let leaf = NctgBox {
        date_time_original: Some(String::from("2024:01:02 03:04:05")),
        time_zone: None,
    };
    let mut out: Vec<u8> = Vec::new();
    let written = leaf.write_box(&mut out).unwrap();
    assert_eq!(written, leaf.get_size());
    assert_eq!(out.len() as u64, written);
    let mut r = ByteReader::new(out);
    let size = r.read_u32_be().unwrap() as u64;
    let fourcc = r.read_u32_be().unwrap();
    assert_eq!(BoxType::from_fourcc(fourcc), BoxType::NctgBox);
    let parsed = NctgBox::read_box(&mut r, size).unwrap();
    assert_eq!(parsed, leaf);
}

#[test]
fn empty_leaf_sizes() {
    let leaf = NctgBox { date_time_original: None, time_zone: None };
    assert_eq!(leaf.get_size(), 8);
    assert_eq!(NctgBox::default(), leaf);
    let mut out: Vec<u8> = Vec::new();
    assert_eq!(leaf.write_box(&mut out).unwrap(), 8);
    assert_eq!(out, vec![0, 0, 0, 8, b'n', b'c', b't', b'g']);
}

#[test]
fn size_formula_exact() {
    // One text record costs 8 header bytes, the UTF-8 bytes and a terminator.
    let leaf = NctgBox {
        date_time_original: Some(String::from("2024:01:02")),
        time_zone: None,
    };
    assert_eq!(leaf.get_size(), 8 + 8 + 10 + 1);
    let both = NctgBox {
        date_time_original: Some(String::from("2024:01:02 03:04:05")),
        time_zone: Some(String::from("+09:00")),
    };
    assert_eq!(both.get_size(), 8 + (8 + 19 + 1) + (8 + 6 + 1));
    assert_eq!(both.box_size(), both.get_size());
    let container = NcdtBox { nctg: Some(both) };
    assert_eq!(container.get_size(), 8 + 51);
    assert_eq!(container.box_size(), container.get_size());
}

#[test]
fn box_types() {
    let leaf = NctgBox::default();
    let container = NcdtBox::default();
    assert_eq!(leaf.get_type(), BoxType::NctgBox);
    assert_eq!(container.get_type(), BoxType::NcdtBox);
    assert_eq!(container.box_type(), BoxType::NcdtBox);
    assert_eq!(BoxType::NcdtBox.fourcc(), 0x6E636474);
    assert_eq!(BoxType::NctgBox.fourcc(), 0x6E637467);
    assert_eq!(BoxType::from_fourcc(0x66726565), BoxType::UnknownBox(0x66726565));
    assert_eq!(BoxType::UnknownBox(0x66726565).fourcc(), 0x66726565);
}

#[test]
fn container_summary_is_empty() {
    let container = NcdtBox::default();
    assert_eq!(container.summary().unwrap(), String::new());
}
