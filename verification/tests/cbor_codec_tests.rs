use rinku_node::cbor_codec::{
    check_frame_length, encode_varint, frame_message, CborCodec, FrameError, VarintReader, VarintStep,
};

fn read_prefix(bytes: &[u8]) -> (VarintStep, usize) {
    let mut reader = VarintReader::new();
    for (i, b) in bytes.iter().enumerate() {
        match reader.push_byte(*b) {
            VarintStep::NeedMore => continue,
            other => return (other, i + 1),
        }
    }
    (VarintStep::NeedMore, bytes.len())
}

#[test]
fn varint_encoding_examples() {
    assert_eq!(encode_varint(0), vec![0]);
    assert_eq!(encode_varint(127), vec![127]);
    assert_eq!(encode_varint(128), vec![0x80, 0x01]);
    assert_eq!(encode_varint(300), vec![0xac, 0x02]);
    assert_eq!(encode_varint(u64::MAX).len(), 10);
}

#[test]
fn varint_roundtrip_through_reader() {
    for n in [0u64, 1, 127, 128, 300, 16384, 1 << 35, u64::MAX - 1, u64::MAX] {
        let enc = encode_varint(n);
        assert_eq!(read_prefix(&enc), (VarintStep::Complete(n), enc.len()));
    }
}

#[test]
fn reader_rejects_long_prefixes() {
    let too_long = [0x80u8; 10];
    assert_eq!(read_prefix(&too_long), (VarintStep::TooLong, 10));
    // The tenth byte keeps only what fits in 64 bits.
    let mut wide = vec![0xffu8; 9];
    wide.push(0x7f);
    assert_eq!(read_prefix(&wide), (VarintStep::Complete(u64::MAX), 10));
}

#[test]
fn frames_and_limits() {
    let data = vec![5u8; 300];
    let frame = frame_message(&data, 1000).unwrap();
    assert_eq!(&frame[..2], &[0xac, 0x02]);
    assert_eq!(&frame[2..], &data[..]);
    assert_eq!(frame_message(&data, 299).unwrap_err(), FrameError::MessageTooLarge);
    assert_eq!(check_frame_length(300, 300), Ok(300));
    assert_eq!(check_frame_length(301, 300), Err(FrameError::MessageTooLarge));
    let codec = CborCodec::default();
    assert_eq!(codec.max_request_size, 16 * 1024 * 1024);
    let small = CborCodec::new(4, 8);
    assert!(small.frame_request(b"12345").is_err());
    assert_eq!(small.frame_response(b"12345").unwrap(), vec![5, b'1', b'2', b'3', b'4', b'5']);
}
