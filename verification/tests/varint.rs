use avromatic::varint::{
    decode_int, decode_len, decode_long, read_varint, write_long, write_varint, zigzag_decode,
    zigzag_encode, DecodeError, MAX_ALLOCATION_BYTES,
};

fn long_bytes(n: i64) -> Vec<u8> {
    let mut buf = Vec::new();
    write_long(n, &mut buf);
    buf
}

#[test]
fn zigzag_of_minus_one_is_one() {
    assert_eq!(zigzag_encode(-1), 1);
    assert_eq!(zigzag_encode(0), 0);
    assert_eq!(zigzag_encode(1), 2);
    assert_eq!(zigzag_encode(-2), 3);
    assert_eq!(zigzag_encode(i64::MAX), u64::MAX - 1);
    assert_eq!(zigzag_encode(i64::MIN), u64::MAX);
}

#[test]
fn zigzag_matches_shift_and_xor() {
    for n in [0i64, 1, -1, 2, -2, 63, -64, 64, 1 << 40, -(1 << 40), i64::MAX, i64::MIN] {
        assert_eq!(zigzag_encode(n), ((n << 1) ^ (n >> 63)) as u64);
        assert_eq!(zigzag_decode(zigzag_encode(n)), n);
    }
}

#[test]
fn three_longs_in_a_row_read_back() {
    let mut buf = Vec::new();
    write_long(-1, &mut buf);
    write_long(0, &mut buf);
    write_long(i64::MAX, &mut buf);
    let (a, first) = decode_long(&buf, 0).unwrap();
    let (b, second) = decode_long(&buf, first).unwrap();
    let (c, third) = decode_long(&buf, second).unwrap();
    assert_eq!((a, b, c), (-1, 0, i64::MAX));
    assert_eq!(third, buf.len());
}

#[test]
fn known_encodings() {
    assert_eq!(long_bytes(0), vec![0x00]);
    assert_eq!(long_bytes(-1), vec![0x01]);
    assert_eq!(long_bytes(1), vec![0x02]);
    assert_eq!(long_bytes(5), vec![0x0a]);
    assert_eq!(long_bytes(63), vec![0x7e]);
    assert_eq!(long_bytes(64), vec![0x80, 0x01]);
    assert_eq!(long_bytes(-64), vec![0x7f]);
    assert_eq!(long_bytes(-65), vec![0x81, 0x01]);
    assert_eq!(
        long_bytes(i64::MAX),
        vec![0xfe, 0xff, 0xff, 0xff, 0xff, 0xff, 0xff, 0xff, 0xff, 0x01]
    );
    assert_eq!(
        long_bytes(i64::MIN),
        vec![0xff, 0xff, 0xff, 0xff, 0xff, 0xff, 0xff, 0xff, 0xff, 0x01]
    );
}

#[test]
fn unsigned_varints() {
    let mut buf = Vec::new();
    write_varint(300, &mut buf);
    assert_eq!(buf, vec![0xac, 0x02]);
    assert_eq!(read_varint(&buf, 0), Ok((300, 2)));
    let mut big = Vec::new();
    write_varint(u64::MAX, &mut big);
    assert_eq!(big.len(), 10);
    assert_eq!(read_varint(&big, 0), Ok((u64::MAX, 10)));
}

#[test]
fn truncated_varint_is_an_error() {
    assert_eq!(decode_long(&[], 0), Err(DecodeError::UnexpectedEnd));
    assert_eq!(decode_long(&[0x80], 0), Err(DecodeError::UnexpectedEnd));
    assert_eq!(decode_long(&[0x00], 1), Err(DecodeError::UnexpectedEnd));
    assert_eq!(decode_long(&[0x00], 7), Err(DecodeError::UnexpectedEnd));
}

#[test]
fn eleven_bytes_overflow() {
    let bytes = [0x80u8; 11];
    assert_eq!(decode_long(&bytes, 0), Err(DecodeError::IntegerOverflow));
    let ten = [0x80u8, 0x80, 0x80, 0x80, 0x80, 0x80, 0x80, 0x80, 0x80, 0x80];
    assert_eq!(decode_long(&ten, 0), Err(DecodeError::IntegerOverflow));
}

#[test]
fn bits_above_the_sixty_fourth_are_dropped() {
    let bytes = [0x80u8, 0x80, 0x80, 0x80, 0x80, 0x80, 0x80, 0x80, 0x80, 0x7e];
    assert_eq!(read_varint(&bytes, 0), Ok((0, 10)));
    let bytes = [0x80u8, 0x80, 0x80, 0x80, 0x80, 0x80, 0x80, 0x80, 0x80, 0x03];
    assert_eq!(read_varint(&bytes, 0), Ok((1u64 << 63, 10)));
}

#[test]
fn ints_must_fit_thirty_two_bits() {
    let buf = long_bytes(i32::MAX as i64);
    assert_eq!(decode_int(&buf, 0), Ok((i32::MAX, buf.len())));
    let buf = long_bytes(i32::MIN as i64);
    assert_eq!(decode_int(&buf, 0), Ok((i32::MIN, buf.len())));
    let buf = long_bytes(i32::MAX as i64 + 1);
    assert_eq!(decode_int(&buf, 0), Err(DecodeError::IntOutOfRange));
    let buf = long_bytes(i32::MIN as i64 - 1);
    assert_eq!(decode_int(&buf, 0), Err(DecodeError::IntOutOfRange));
}

#[test]
fn lengths_are_bounded() {
    let buf = long_bytes(0);
    assert_eq!(decode_len(&buf, 0), Ok((0, 1)));
    let buf = long_bytes(MAX_ALLOCATION_BYTES as i64);
    assert_eq!(decode_len(&buf, 0), Ok((MAX_ALLOCATION_BYTES, buf.len())));
    let buf = long_bytes(MAX_ALLOCATION_BYTES as i64 + 1);
    assert_eq!(decode_len(&buf, 0), Err(DecodeError::LengthOutOfRange));
    let buf = long_bytes(-1);
    assert_eq!(decode_len(&buf, 0), Err(DecodeError::LengthOutOfRange));
}

#[test]
fn decoding_starts_at_the_position_given() {
    let mut buf = vec![0xffu8, 0xff];
    write_long(-3, &mut buf);
    buf.push(0x55);
    assert_eq!(decode_long(&buf, 2), Ok((-3, 3)));
}
