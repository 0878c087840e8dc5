use couscous::codec::{
    decode_frame, decode_string, decode_varint, encode_frame, encode_string, encode_varint,
};

fn varint(n: u64) -> Vec<u8> {
    let mut out = Vec::new();
    encode_varint(n, &mut out);
    out
}

#[test]
fn varint_small_values() {
    assert_eq!(varint(0), vec![0]);
    assert_eq!(varint(1), vec![1]);
    assert_eq!(varint(127), vec![127]);
    assert_eq!(varint(128), vec![0x80, 0x01]);
    assert_eq!(varint(300), vec![0xAC, 0x02]);
    assert_eq!(varint(16384), vec![0x80, 0x80, 0x01]);
}

#[test]
fn varint_round_trip_small() {
    for n in [0u64, 1, 127, 128, 300, 16383, 16384, 1 << 32] {
        let enc = varint(n);
        let len = enc.len();
        assert_eq!(decode_varint(&enc, 0), Some((n, len)));
    }
}

#[test]
fn varint_round_trip_max() {
    let enc = varint(u64::MAX);
    assert_eq!(enc.len(), 10);
    assert_eq!(decode_varint(&enc, 0), Some((u64::MAX, 10)));
}

#[test]
fn varint_round_trip_with_rest() {
    let mut enc = varint(300);
    enc.push(0xAB);
    enc.push(0xCD);
    assert_eq!(decode_varint(&enc, 0), Some((300, 2)));
}

#[test]
fn varint_empty_refused() {
    assert_eq!(decode_varint(&[], 0), None);
}

#[test]
fn varint_truncated_refused() {
    assert_eq!(decode_varint(&[0x80], 0), None);
    assert_eq!(decode_varint(&[0xFF, 0xFF], 0), None);
}

#[test]
fn varint_padded_refused() {
    // 0x80 0x00 would denote 0 in two bytes; only the one-byte form is
    // accepted
    assert_eq!(decode_varint(&[0x80, 0x00], 0), None);
    assert_eq!(decode_varint(&[0x00], 0), Some((0, 1)));
}

#[test]
fn varint_overflow_refused() {
    let mut enc = varint(u64::MAX);
    let last = enc.len() - 1;
    enc[last] = 0x02;
    assert_eq!(decode_varint(&enc, 0), None);
}

#[test]
fn varint_eleventh_byte_refused() {
    let mut bytes = vec![0x80u8; 10];
    bytes.push(0x01);
    assert_eq!(decode_varint(&bytes, 0), None);
}

#[test]
fn frame_round_trip() {
    let payload = vec![1u8, 2, 3];
    let mut framed = Vec::new();
    encode_frame(&payload, &mut framed);
    assert_eq!(framed, vec![3, 1, 2, 3]);
    let (decoded, end) = decode_frame(&framed, 0).unwrap();
    assert_eq!(decoded, payload);
    assert_eq!(end, 4);
}

#[test]
fn frame_empty_payload() {
    let payload: Vec<u8> = Vec::new();
    let mut framed = Vec::new();
    encode_frame(&payload, &mut framed);
    assert_eq!(framed, vec![0]);
    let (decoded, end) = decode_frame(&framed, 0).unwrap();
    assert!(decoded.is_empty());
    assert_eq!(end, 1);
}

#[test]
fn frame_truncated_refused() {
    assert_eq!(decode_frame(&[5, 1, 2], 0), None);
}

#[test]
fn frame_oversize_refused() {
    // a length above the cap is refused before any payload is read
    let mut bytes = varint(0x0100_0000 + 1);
    bytes.push(0);
    assert_eq!(decode_frame(&bytes, 0), None);
}

#[test]
fn string_round_trip() {
    let mut enc = Vec::new();
    encode_string("hello", &mut enc);
    assert_eq!(enc, vec![5, b'h', b'e', b'l', b'l', b'o']);
    let (s, end) = decode_string(&enc, 0).unwrap();
    assert_eq!(s, "hello");
    assert_eq!(end, 6);
}

#[test]
fn string_empty_round_trip() {
    let mut enc = Vec::new();
    encode_string("", &mut enc);
    assert_eq!(enc, vec![0]);
    let (s, end) = decode_string(&enc, 0).unwrap();
    assert_eq!(s, "");
    assert_eq!(end, 1);
}

#[test]
fn string_non_ascii_round_trip() {
    let mut enc = Vec::new();
    encode_string("règle", &mut enc);
    let (s, _) = decode_string(&enc, 0).unwrap();
    assert_eq!(s, "règle");
}

#[test]
fn string_invalid_utf8_refused() {
    assert_eq!(decode_string(&[2, 0xFF, 0xFE], 0), None);
}

#[test]
fn string_truncated_refused() {
    assert_eq!(decode_string(&[9, b'a', b'b'], 0), None);
}
