//! The frame around an encoded message: a zero byte, the id of the
//! writer's schema as four bytes, most significant first, then the
//! payload.

use vstd::prelude::*;

verus! {

/// The length of the frame's head: the magic byte and the schema id.
pub const HEADER_LEN: usize = 5;

/// The four bytes of `n`, most significant first.
pub open spec fn be_bytes(n: i32) -> Seq<u8> {
    let u = n as u32;
    seq![(u >> 24) as u8, ((u >> 16) & 0xff) as u8, ((u >> 8) & 0xff) as u8, (u & 0xff) as u8]
}

/// The number that four bytes spell, most significant first.
pub open spec fn be_value(bytes: Seq<u8>) -> i32 {
    (((bytes[0] as u32) << 24) | ((bytes[1] as u32) << 16) | ((bytes[2] as u32) << 8) | (
    bytes[3] as u32)) as i32
}

/// A framed message: the magic byte, the schema id, the payload.
pub open spec fn framed(id: i32, payload: Seq<u8>) -> Seq<u8> {
    seq![0u8] + be_bytes(id) + payload
}

/// `BigEndian::write_i32` of the `byteorder` crate, on four bytes that
/// are then appended: the two's complement of the number, most
/// significant byte first.
#[verifier::external_body]
pub(crate) fn write_i32_be(buf: &mut Vec<u8>, n: i32)
    ensures
        final(buf)@ == old(buf)@ + be_bytes(n),
{
    let mut raw = [0u8; 4];
    <byteorder::BigEndian as byteorder::ByteOrder>::write_i32(&mut raw, n);
    buf.extend_from_slice(&raw);
}

/// `BigEndian::read_i32` of the `byteorder` crate, on the four bytes from
/// `pos` on: the number whose two's complement they are, most significant
/// byte first.
#[verifier::external_body]
pub(crate) fn read_i32_be(bytes: &[u8], pos: usize) -> (r: i32)
    requires
        pos + 4 <= bytes.len(),
    ensures
        r == be_value(bytes@.subrange(pos as int, pos + 4)),
{
    <byteorder::BigEndian as byteorder::ByteOrder>::read_i32(&bytes[pos..pos + 4])
}

/// The four bytes of a number spell the number.
pub proof fn be_round_trip(n: i32)
    ensures
        be_bytes(n).len() == 4,
        be_value(be_bytes(n)) == n,
{
    let u = n as u32;
    let b0 = (u >> 24) as u8;
    let b1 = ((u >> 16) & 0xff) as u8;
    let b2 = ((u >> 8) & 0xff) as u8;
    let b3 = (u & 0xff) as u8;
    assert((((((u >> 24) as u8) as u32) << 24) | (((((u >> 16) & 0xff) as u8) as u32) << 16) | (((((
    u >> 8) & 0xff) as u8) as u32) << 8) | (((u & 0xff) as u8) as u32)) == u) by (bit_vector);
    assert((n as u32) as i32 == n) by (bit_vector);
}

/// Frames a payload under a schema id. The id is cut to 32 bits.
pub fn frame(schema_id: i64, payload: &[u8]) -> (r: Vec<u8>)
    ensures
        r@ == framed(schema_id as i32, payload@),
{
    let mut out: Vec<u8> = Vec::new();
    out.push(0u8);
    write_i32_be(&mut out, #[verifier::truncate] (schema_id as i32));
    out.extend_from_slice(payload);
    assert(out@ =~= framed(schema_id as i32, payload@));
    out
}

/// The schema id of a framed message and the position of its payload;
/// `None` where the message is shorter than its head. The magic byte is
/// not looked at.
pub fn unframe(bytes: &[u8]) -> (r: Option<(i32, usize)>)
    ensures
        match r {
            Some((id, start)) => bytes.len() >= HEADER_LEN && start == HEADER_LEN && id
                == be_value(bytes@.subrange(1, 5)),
            None => bytes.len() < HEADER_LEN,
        },
{
    if bytes.len() < 5 {
        None
    } else {
        Some((read_i32_be(bytes, 1), 5))
    }
}

/// What `frame` wraps, `unframe` finds again.
pub proof fn frame_round_trip(id: i32, payload: Seq<u8>)
    ensures
        framed(id, payload).len() == HEADER_LEN + payload.len(),
        be_value(framed(id, payload).subrange(1, 5)) == id,
        framed(id, payload).subrange(HEADER_LEN as int, framed(id, payload).len() as int)
            == payload,
{
    be_round_trip(id);
    let whole = framed(id, payload);
    assert(whole.subrange(1, 5) =~= be_bytes(id));
    assert(whole.subrange(5, whole.len() as int) =~= payload);
}

} // verus!
