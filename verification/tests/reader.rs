use ncmeta::stream::ByteReader;
use ncmeta::Error;

#[test]
fn reads_advance_in_order() {
    let mut r = ByteReader::new(vec![0x12, 0x34, 0x56, 0x78, 0x9A, 0xBC, 0xDE]);
    assert_eq!(r.read_u32_be().unwrap(), 0x12345678);
    assert_eq!(r.stream_position(), 4);
    assert_eq!(r.read_u16_be().unwrap(), 0x9ABC);
    assert_eq!(r.read_u8().unwrap(), 0xDE);
    assert_eq!(r.remaining(), 0);
    assert_eq!(r.read_u8(), Err(Error::StreamFailure));
}

#[test]
fn read_exact_returns_the_range() {
    let mut r = ByteReader::new(vec![1, 2, 3, 4, 5]);
    r.skip(1).unwrap();
    assert_eq!(r.read_exact(3).unwrap(), vec![2, 3, 4]);
    assert_eq!(r.stream_position(), 4);
    assert_eq!(r.read_exact(2), Err(Error::StreamFailure));
}

#[test]
fn seek_is_bounded_by_the_buffer() {
    let mut r = ByteReader::new(vec![0; 10]);
    r.seek_to(10).unwrap();
    assert_eq!(r.stream_position(), 10);
    r.seek_to(3).unwrap();
    assert_eq!(r.stream_position(), 3);
    assert_eq!(r.seek_to(11), Err(Error::StreamFailure));
    assert_eq!(r.stream_position(), 3);
    assert_eq!(r.skip(8), Err(Error::StreamFailure));
    r.skip(7).unwrap();
    assert_eq!(r.stream_position(), 10);
}
