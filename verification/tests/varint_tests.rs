use statusserver::packets::PacketError;
use statusserver::stream::ByteStream;
use statusserver::varint::{decode_stream, encode};

fn check_payload(vect: Vec<u8>, trg: i32) {
    let mut bytes = ByteStream::new(vect.clone());
    let res = decode_stream(&mut bytes).expect("error decoding stream");
    assert_eq!(res, trg);
    let res = encode(trg);
    assert_eq!(res, vect);
}

#[test]
fn test_127() {
    check_payload(vec![0x7f], 127);
}

#[test]
fn test_128() {
    check_payload(vec![0x80, 0x01], 128)
}

#[test]
fn test_4bytes() {
    check_payload(0xd88bad01u32.to_be_bytes().to_vec(), 2835928);
}

#[test]
fn check_equal_4bytes() {
    for i in 0..(0xffffu32) {
        let i = i as i32;
        let encoded = encode(i);
        let mut encoded = ByteStream::new(encoded);
        assert_eq!(decode_stream(&mut encoded).unwrap(), i);
    }
}

#[test]
fn round_trip_boundaries() {
    for &n in &[0i32, 1, 127, 128, 2_835_928, i32::MAX, -1, i32::MIN] {
        let encoded = encode(n);
        assert!((1..=5).contains(&encoded.len()));
        let mut stream = ByteStream::new(encoded);
        assert_eq!(decode_stream(&mut stream).unwrap(), n);
    }
}

#[test]
fn negative_takes_five_bytes() {
    assert_eq!(encode(-1), vec![0xff, 0xff, 0xff, 0xff, 0x0f]);
}

#[test]
fn malformed_varint_truncation() {
    let mut stream = ByteStream::new(vec![0x80, 0x80, 0x80, 0x80, 0x80, 0x80]);
    let res = decode_stream(&mut stream);
    assert!(matches!(res, Err(PacketError::MalformedVarint)));
}

#[test]
fn empty_stream_is_peer_close() {
    let mut stream = ByteStream::new(vec![]);
    let res = decode_stream(&mut stream);
    assert!(matches!(res, Err(PacketError::ClosedError)));
}

#[test]
fn short_stream_is_transport_error() {
    let mut stream = ByteStream::new(vec![0x80, 0x80]);
    let res = decode_stream(&mut stream);
    assert!(matches!(res, Err(PacketError::IOError)));
}
