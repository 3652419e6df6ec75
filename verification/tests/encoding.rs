use anchor::encoding::{encode_vlq_int, parse_vlq_int, Readable, Writable};
use anchor::output_buffer::{OutputBuffer, ScratchOutput};

fn encode(v: u32) -> Vec<u8> {
    let mut out: ScratchOutput<64> = ScratchOutput::new();
    encode_vlq_int(&mut out, v);
    out.result().to_vec()
}

fn decode(bytes: &[u8]) -> (u32, usize) {
    let mut data: &[u8] = bytes;
    let v = parse_vlq_int(&mut data).expect("decode failed");
    (v, bytes.len() - data.len())
}

#[test]
fn vlq_boundary_values() {
    assert_eq!(encode(0), vec![0x00]);
    assert_eq!(encode(63), vec![0x3F]);
    // 64 still fits a single group: the first continuation group starts
    // at 96.
    assert_eq!(encode(64), vec![0x40]);
    assert_eq!(encode(95), vec![0x5F]);
    assert_eq!(encode(96), vec![0x80, 0x60]);
}

#[test]
fn vlq_negative_values() {
    // -1 encodes as a single byte with the sign bits set.
    assert_eq!(encode(-1i32 as u32), vec![0x7F]);
    assert_eq!(encode(-32i32 as u32), vec![0x60]);
    // -33 no longer fits one group.
    assert_eq!(encode(-33i32 as u32), vec![0xFF, 0x5F]);
}

#[test]
fn vlq_round_trip_samples() {
    let samples: Vec<u32> = vec![
        0,
        1,
        63,
        64,
        95,
        96,
        0x1000,
        0x3000 - 1,
        0x3000,
        0x0018_0000 - 1,
        0x0018_0000,
        0x0C00_0000 - 1,
        0x0C00_0000,
        0x7FFF_FFFF,
        0x8000_0000,
        0xFFFF_FFFF,
        0xFFFF_FFE0,
        0xFFFF_FFDF,
        (-1i32) as u32,
        i32::MIN as u32,
    ];
    for v in samples {
        let e = encode(v);
        assert!(e.len() >= 1 && e.len() <= 5);
        let (d, used) = decode(&e);
        assert_eq!(d, v, "value {v:#x} did not round-trip");
        assert_eq!(used, e.len());
    }
}

#[test]
fn vlq_decode_leaves_following_bytes() {
    let mut bytes = encode(123456);
    bytes.extend_from_slice(&[0xAA, 0xBB]);
    let mut data: &[u8] = &bytes;
    let v = parse_vlq_int(&mut data).unwrap();
    assert_eq!(v, 123456);
    assert_eq!(data, &[0xAA, 0xBB]);
}

#[test]
fn vlq_decode_truncated_fails() {
    // A lone continuation byte has no final group.
    let mut data: &[u8] = &[0x80];
    assert!(parse_vlq_int(&mut data).is_err());
    let mut empty: &[u8] = &[];
    assert!(parse_vlq_int(&mut empty).is_err());
}

#[test]
fn readable_integer_truncation() {
    // Reading a wide value as a narrower type truncates.
    let e = encode(0x1_0042 & 0xFFFF_FFFF);
    let mut data: &[u8] = &e;
    let v = <u16 as Readable>::read(&mut data).unwrap();
    assert_eq!(v, 0x0042);
}

#[test]
fn readable_bool() {
    let mut t: &[u8] = &[0x01];
    assert!(<bool as Readable>::read(&mut t).unwrap());
    let mut f: &[u8] = &[0x00];
    assert!(!<bool as Readable>::read(&mut f).unwrap());
}

#[test]
fn byte_array_round_trip() {
    let payload: &[u8] = &[9, 8, 7, 6];
    let mut out: ScratchOutput<64> = ScratchOutput::new();
    Writable::write(&payload, &mut out);
    // Length prefix then the raw bytes.
    assert_eq!(out.result(), &[4, 9, 8, 7, 6]);
    let mut data: &[u8] = out.result();
    let read = <&[u8] as Readable>::read(&mut data).unwrap();
    assert_eq!(read, payload);
    assert_eq!(data.len(), 0);
}

#[test]
fn str_write_is_length_prefixed() {
    let s: &str = "hi";
    let mut out: ScratchOutput<64> = ScratchOutput::new();
    Writable::write(&s, &mut out);
    assert_eq!(out.result(), &[2, 104, 105]);
}

#[test]
fn byte_array_read_fails_when_short() {
    // Length prefix of four but only two bytes follow.
    let mut data: &[u8] = &[4, 1, 2];
    assert!(<&[u8] as Readable>::read(&mut data).is_err());
}

#[test]
fn scratch_output_truncates_silently() {
    let mut out: ScratchOutput<4> = ScratchOutput::new();
    out.output(&[1, 2, 3]);
    out.output(&[4, 5, 6]);
    assert_eq!(out.result(), &[1, 2, 3, 4]);
    out.reset();
    assert_eq!(out.result().len(), 0);
}

#[test]
fn scratch_output_cursor_update() {
    let mut out: ScratchOutput<16> = ScratchOutput::new();
    out.output(&[0, 10]);
    let cursor = out.cur_position();
    out.output(&[20, 30]);
    out.update(0, 99);
    assert_eq!(out.result(), &[99, 10, 20, 30]);
    assert_eq!(out.data_since(cursor), &[20, 30]);
}
