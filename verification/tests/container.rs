use aegis_engine::container::{encode_record, CHUNK_SIZE, LEN_PREFIX_SIZE, MAX_RECORD_PAYLOAD};
use aegis_engine::crypto::{FRAME_OVERHEAD, KEY_SIZE, NONCE_SIZE, TAG_SIZE};

#[test]
fn record_is_little_endian_length_then_frame() {
    assert_eq!(encode_record(b"abc").unwrap(), vec![3, 0, 0, 0, b'a', b'b', b'c']);
    assert_eq!(encode_record(b"").unwrap(), vec![0, 0, 0, 0]);
    let frame = vec![9u8; 0x0102_03];
    let record = encode_record(&frame).unwrap();
    assert_eq!(&record[..4], &[0x03, 0x02, 0x01, 0x00]);
    assert_eq!(&record[4..], &frame[..]);
}

#[test]
fn sizes_of_the_format() {
    assert_eq!(CHUNK_SIZE, 1024 * 1024);
    assert_eq!(LEN_PREFIX_SIZE, 4);
    assert_eq!(KEY_SIZE, 32);
    assert_eq!(NONCE_SIZE, 12);
    assert_eq!(TAG_SIZE, 16);
    assert_eq!(FRAME_OVERHEAD, NONCE_SIZE + TAG_SIZE);
    assert_eq!(MAX_RECORD_PAYLOAD as u64 + FRAME_OVERHEAD as u64, u32::MAX as u64);
}
