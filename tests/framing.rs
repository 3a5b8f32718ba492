use n2c_source::framer::{decode_segment, encode_segment, Decoded, FramingError, MAX_PAYLOAD_LEN};
use n2c_source::mux::{split_message, Demuxer, MuxError};
use n2c_source::framer::{Segment, SegmentReader};

#[test]
fn encodes_header_big_endian() {
    let bytes = encode_segment(0x01020304, 0x8005, &[0xaa, 0xbb]).unwrap();
    assert_eq!(bytes, vec![1, 2, 3, 4, 0x80, 0x05, 0, 2, 0xaa, 0xbb]);
}

#[test]
fn round_trip_with_trailing_bytes() {
    let payload: Vec<u8> = (0..300u32).map(|i| (i % 251) as u8).collect();
    let mut bytes = encode_segment(77, 5, &payload).unwrap();
    bytes.extend_from_slice(&[9, 9, 9]);
    match decode_segment(&bytes) {
        Decoded::Complete(seg, used) => {
            assert_eq!(seg.timestamp, 77);
            assert_eq!(seg.protocol_id, 5);
            assert_eq!(seg.payload, payload);
            assert_eq!(used, 308);
        }
        Decoded::Incomplete => panic!("segment should be complete"),
    }
}

#[test]
fn partial_segment_is_incomplete() {
    let bytes = encode_segment(1, 0, &[1, 2, 3, 4]).unwrap();
    assert!(matches!(decode_segment(&bytes[..5]), Decoded::Incomplete));
    assert!(matches!(decode_segment(&bytes[..11]), Decoded::Incomplete));
    assert!(matches!(decode_segment(&bytes), Decoded::Complete(_, 12)));
}

#[test]
fn oversized_payload_is_refused() {
    let payload = vec![0u8; MAX_PAYLOAD_LEN + 1];
    assert_eq!(encode_segment(0, 0, &payload).unwrap_err(), FramingError::PayloadTooLarge);
    let payload = vec![0u8; MAX_PAYLOAD_LEN];
    assert_eq!(encode_segment(0, 0, &payload).unwrap().len(), MAX_PAYLOAD_LEN + 8);
}

#[test]
fn empty_payload_round_trip() {
    let bytes = encode_segment(0, 2, &[]).unwrap();
    assert_eq!(bytes.len(), 8);
    assert!(matches!(decode_segment(&bytes), Decoded::Complete(_, 8)));
}

#[test]
fn long_message_is_split_into_segments() {
    let msg = vec![7u8; MAX_PAYLOAD_LEN + 10];
    let segs = split_message(3, 5, &msg);
    assert_eq!(segs.len(), 2);
    assert_eq!(segs[0].len(), MAX_PAYLOAD_LEN + 8);
    assert_eq!(segs[1].len(), 18);
    assert_eq!(&segs[1][..8], &[0, 0, 0, 3, 0, 5, 0, 10]);
    assert!(split_message(3, 5, &[]).is_empty());
}

#[test]
fn demuxer_routes_by_channel() {
    let mut mux = Demuxer::new();
    mux.use_channel(0).unwrap();
    mux.use_channel(5).unwrap();
    assert_eq!(mux.use_channel(5).unwrap_err(), MuxError::ChannelInUse(5));
    assert_eq!(mux.use_channel(0x8001).unwrap_err(), MuxError::InvalidChannel(0x8001));
    mux.deliver(Segment { timestamp: 0, protocol_id: 0x8005, payload: vec![1, 2] }).unwrap();
    mux.deliver(Segment { timestamp: 0, protocol_id: 0x8005, payload: vec![3] }).unwrap();
    mux.deliver(Segment { timestamp: 0, protocol_id: 0x8000, payload: vec![9] }).unwrap();
    assert_eq!(
        mux.deliver(Segment { timestamp: 0, protocol_id: 0x8007, payload: vec![1] }).unwrap_err(),
        MuxError::UnknownProtocol(0x8007)
    );
    assert_eq!(mux.take_inbound(5), Some(vec![1, 2, 3]));
    assert_eq!(mux.take_inbound(5), Some(vec![]));
    assert_eq!(mux.take_inbound(0), Some(vec![9]));
    assert_eq!(mux.take_inbound(7), None);
}

#[test]
fn reader_reassembles_split_reads() {
    let mut wire = encode_segment(5, 0x8000, &[1, 2, 3]).unwrap();
    wire.extend(encode_segment(6, 0x8005, &[4]).unwrap());
    let mut reader = SegmentReader::new();
    reader.feed(&wire[..4]);
    assert!(reader.next_segment().is_none());
    reader.feed(&wire[4..10]);
    assert!(reader.next_segment().is_none());
    reader.feed(&wire[10..]);
    let a = reader.next_segment().unwrap();
    assert_eq!((a.timestamp, a.protocol_id, a.payload), (5, 0x8000, vec![1, 2, 3]));
    let b = reader.next_segment().unwrap();
    assert_eq!((b.timestamp, b.protocol_id, b.payload), (6, 0x8005, vec![4]));
    assert!(reader.next_segment().is_none());
}
