//! Zigzag variable-length integers, the leaf of the binary codec.
//!
//! A signed 64-bit integer is first folded onto the unsigned integers
//! (`0, -1, 1, -2, ...` become `0, 1, 2, 3, ...`) and then written in base
//! 128, least significant group first, seven bits to a byte, with the top
//! bit of a byte set on all but the last one.

use vstd::prelude::*;

verus! {

/// The largest length or item count a decoder accepts.
pub const MAX_ALLOCATION_BYTES: usize = 536870912;

/// Why a byte buffer could not be decoded.
#[derive(Clone, Copy, Debug, PartialEq, Eq, Structural)]
pub enum DecodeError {
    /// The buffer ended inside a value.
    UnexpectedEnd,
    /// A variable-length integer ran over ten bytes.
    IntegerOverflow,
    /// A 32-bit integer was expected and the value read does not fit.
    IntOutOfRange,
    /// A length or count is negative or above `MAX_ALLOCATION_BYTES`.
    LengthOutOfRange,
    /// A boolean byte is neither 0 nor 1.
    NotABool,
    /// A string holds bytes that are not UTF-8.
    InvalidUtf8,
    /// A map key could not be read as a string.
    MapKeyNotString,
    /// A union branch index names no variant.
    UnionIndexOutOfBounds,
    /// An enum index names no symbol.
    EnumIndexOutOfBounds,
    /// A record descriptor names a model that the registry does not hold.
    UnknownModel,
    /// A custom type's hook failed.
    CustomTypeFailed,
    /// A key was given to a model that has no key schema.
    NoKeySchema,
    /// A framed message is shorter than its head.
    TruncatedFrame,
    /// What was read under the writer's schema does not resolve to the
    /// reader's, or the writer's schema does not compile.
    Unresolvable,
}

/// The zigzag image of `n`: `2n` for `n >= 0`, `-2n - 1` below zero.
pub open spec fn zigzag(n: i64) -> u64 {
    if n >= 0 {
        (2 * n) as u64
    } else {
        (-2 * n - 1) as u64
    }
}

/// The inverse of `zigzag`.
pub open spec fn unzigzag(z: u64) -> i64 {
    if z % 2 == 0 {
        (z / 2) as i64
    } else {
        (-(z / 2) - 1) as i64
    }
}

/// The base-128 bytes of `z`, least significant group first.
pub open spec fn varint_bytes(z: u64) -> Seq<u8>
    decreases z,
{
    if z < 128 {
        seq![z as u8]
    } else {
        seq![(128 + z % 128) as u8] + varint_bytes(z / 128)
    }
}

/// The wire form of a signed integer.
pub open spec fn long_bytes(n: i64) -> Seq<u8> {
    varint_bytes(zigzag(n))
}

/// Reads groups from `pos` on, `index` groups having been read before.
/// Gives the number the groups spell, not yet cut to 64 bits, and the
/// position behind the last group; `None` where the buffer ends first or
/// an eleventh group would be needed.
pub open spec fn groups_at(bytes: Seq<u8>, pos: int, index: nat) -> Option<(int, int)>
    decreases 10 - index,
{
    if index >= 10 || pos < 0 || pos >= bytes.len() {
        None
    } else if bytes[pos] < 128 {
        Some((bytes[pos] as int, pos + 1))
    } else {
        match groups_at(bytes, pos + 1, index + 1) {
            None => None,
            Some((rest, end)) => Some(((bytes[pos] - 128) + 128 * rest, end)),
        }
    }
}

/// Whether the varint that starts at `pos` breaks off at the buffer's end
/// (as opposed to running over ten bytes).
pub open spec fn groups_truncated(bytes: Seq<u8>, pos: int, index: nat) -> bool
    decreases 10 - index,
{
    if index >= 10 {
        false
    } else if pos < 0 || pos >= bytes.len() {
        true
    } else if bytes[pos] < 128 {
        false
    } else {
        groups_truncated(bytes, pos + 1, index + 1)
    }
}

/// The unsigned varint at `pos` and the position behind it. Bits above
/// the 64th are dropped.
pub open spec fn varint_at(bytes: Seq<u8>, pos: int) -> Result<(u64, int), DecodeError> {
    match groups_at(bytes, pos, 0) {
        Some((value, end)) => Ok(((value % 0x1_0000_0000_0000_0000) as u64, end)),
        None => if groups_truncated(bytes, pos, 0) {
            Err(DecodeError::UnexpectedEnd)
        } else {
            Err(DecodeError::IntegerOverflow)
        },
    }
}

/// The signed integer at `pos` and the position behind it.
pub open spec fn long_at(bytes: Seq<u8>, pos: int) -> Result<(i64, int), DecodeError> {
    match varint_at(bytes, pos) {
        Ok((z, end)) => Ok((unzigzag(z), end)),
        Err(e) => Err(e),
    }
}

/// Whether a number fits a signed integer of 32 bits.
pub open spec fn fits_int(n: i64) -> bool {
    -0x8000_0000 <= n <= 0x7fff_ffff
}

/// The 32-bit signed integer at `pos`: a long that fits.
pub open spec fn int_at(bytes: Seq<u8>, pos: int) -> Result<(i32, int), DecodeError> {
    match long_at(bytes, pos) {
        Ok((n, end)) => if fits_int(n) {
            Ok((n as i32, end))
        } else {
            Err(DecodeError::IntOutOfRange)
        },
        Err(e) => Err(e),
    }
}

/// The length or item count at `pos`: a long between 0 and
/// `MAX_ALLOCATION_BYTES`.
pub open spec fn len_at(bytes: Seq<u8>, pos: int) -> Result<(usize, int), DecodeError> {
    match long_at(bytes, pos) {
        Ok((n, end)) => if 0 <= n <= MAX_ALLOCATION_BYTES {
            Ok((n as usize, end))
        } else {
            Err(DecodeError::LengthOutOfRange)
        },
        Err(e) => Err(e),
    }
}

/// 128 to the power `index`, for the ten groups a varint may have.
pub open spec fn group_weight(index: nat) -> int
    decreases index,
{
    if index == 0 {
        1
    } else {
        128 * group_weight((index - 1) as nat)
    }
}

/// Whether a number fits a signed integer of 32 bits.
pub fn is_int(n: i64) -> (r: bool)
    ensures
        r == fits_int(n),
{
    -0x8000_0000 <= n && n <= 0x7fff_ffff
}

/// Folds a signed integer onto the unsigned ones.
pub fn zigzag_encode(n: i64) -> (z: u64)
    ensures
        z == zigzag(n),
{
    if n >= 0 {
        (n as u64) * 2
    } else {
        let m: u64 = (-(n + 1)) as u64;
        m * 2 + 1
    }
}

/// Unfolds what `zigzag_encode` folded.
pub fn zigzag_decode(z: u64) -> (n: i64)
    ensures
        n == unzigzag(z),
{
    if z % 2 == 0 {
        (z / 2) as i64
    } else {
        -((z / 2) as i64) - 1
    }
}

/// Zigzag is undone by its inverse, from either side.
pub proof fn zigzag_round_trip(n: i64, z: u64)
    ensures
        unzigzag(zigzag(n)) == n,
        zigzag(unzigzag(z)) == z,
{
}

/// The arithmetic definition of zigzag is the familiar shift-and-xor.
pub proof fn zigzag_is_shift_xor(n: i64)
    ensures
        zigzag(n) == ((n << 1) ^ (n >> 63)) as u64,
{
    let folded: u64 = ((n << 1) ^ (n >> 63)) as u64;
    if n >= 0 {
        assert(n >= 0 ==> ((n << 1i64) ^ (n >> 63i64)) as u64 == (2 * (n as u64)) as u64) by (bit_vector);
    } else {
        assert(n < 0 ==> ((n << 1i64) ^ (n >> 63i64)) as u64 == (2 * ((-(n + 1)) as u64) + 1) as u64)
            by (bit_vector);
    }
}

/// Appends the base-128 bytes of `z` to `buf`.
pub fn write_varint(z: u64, buf: &mut Vec<u8>)
    ensures
        final(buf)@ == old(buf)@ + varint_bytes(z),
{
    let mut rest: u64 = z;
    let ghost start = buf@;
    while rest >= 128
        invariant
            start + varint_bytes(z) == buf@ + varint_bytes(rest),
        decreases rest,
    {
        let byte: u8 = (128 + rest % 128) as u8;
        proof {
            assert(varint_bytes(rest) == seq![byte] + varint_bytes(rest / 128));
            assert(buf@ + (seq![byte] + varint_bytes(rest / 128)) =~= buf@.push(byte) + varint_bytes(
                rest / 128,
            ));
        }
        buf.push(byte);
        rest = rest / 128;
    }
    proof {
        assert(varint_bytes(rest) == seq![rest as u8]);
        assert(buf@ + seq![rest as u8] =~= buf@.push(rest as u8));
    }
    buf.push(rest as u8);
}

/// Appends the wire form of a signed integer to `buf`.
pub fn write_long(n: i64, buf: &mut Vec<u8>)
    ensures
        final(buf)@ == old(buf)@ + long_bytes(n),
{
    write_varint(zigzag_encode(n), buf)
}

/// Reads the unsigned varint that starts at `pos`.
pub fn read_varint(bytes: &[u8], pos: usize) -> (r: Result<(u64, usize), DecodeError>)
    ensures
        match r {
            Ok((z, end)) => varint_at(bytes@, pos as int) == Ok::<(u64, int), DecodeError>(
                (z, end as int),
            ) && pos < end <= bytes.len(),
            Err(e) => varint_at(bytes@, pos as int) == Err::<(u64, int), DecodeError>(e),
        },
{
    let mut acc: u64 = 0;
    let mut weight: u64 = 1;
    let mut index: usize = 0;
    let mut at: usize = pos;
    loop
        invariant
            index <= 9,
            pos <= at,
            at == pos + index,
            weight == group_weight(index as nat),
            acc < weight,
            weight <= 0x8000_0000_0000_0000,
            groups_truncated(bytes@, pos as int, 0) == groups_truncated(
                bytes@,
                at as int,
                index as nat,
            ),
            match groups_at(bytes@, at as int, index as nat) {
                Some((rest, end)) => groups_at(bytes@, pos as int, 0) == Some(
                    (acc + weight * rest, end),
                ),
                None => groups_at(bytes@, pos as int, 0) is None,
            },
        decreases 10 - index,
    {
        if at >= bytes.len() {
            return Err(DecodeError::UnexpectedEnd);
        }
        let byte = bytes[at];
        proof {
            group_weight_values();
        }
        if byte < 128 {
            if index == 9 {
                let low: u64 = (byte % 2) as u64;
                assert(weight == 0x8000_0000_0000_0000);
                assert((acc + weight * byte) % 0x1_0000_0000_0000_0000 == acc + weight * low) by {
                    let w = 0x8000_0000_0000_0000int;
                    let b = byte as int;
                    let l = low as int;
                    assert(b == 2 * (b / 2) + l);
                    assert(w * b == (2 * w) * (b / 2) + w * l) by (nonlinear_arith)
                        requires
                            b == 2 * (b / 2) + l,
                    ;
                    vstd::arithmetic::div_mod::lemma_fundamental_div_mod_converse(
                        acc + w * b,
                        0x1_0000_0000_0000_0000,
                        b / 2,
                        acc + w * l,
                    );
                }
                return Ok((acc + weight * low, at + 1));
            }
            proof {
                assert(weight * byte <= weight * 127) by (nonlinear_arith)
                    requires
                        byte <= 127,
                        weight >= 0,
                ;
                assert(acc + weight * byte < 0x1_0000_0000_0000_0000);
                vstd::arithmetic::div_mod::lemma_small_mod(
                    (acc + weight * byte) as nat,
                    0x1_0000_0000_0000_0000,
                );
            }
            return Ok((acc + weight * (byte as u64), at + 1));
        }
        if index == 9 {
            assert(groups_at(bytes@, at + 1, 10) is None);
            assert(!groups_truncated(bytes@, at + 1, 10));
            return Err(DecodeError::IntegerOverflow);
        }
        let group: u64 = (byte - 128) as u64;
        proof {
            assert(weight * group <= weight * 127) by (nonlinear_arith)
                requires
                    group <= 127,
                    weight >= 0,
            ;
            assert(weight <= 0x0100_0000_0000_0000);
            match groups_at(bytes@, at + 1, (index + 1) as nat) {
                Some((rest, end)) => {
                    assert(acc + weight * (group + 128 * rest) == (acc + weight * group) + (weight
                        * 128) * rest) by (nonlinear_arith);
                },
                None => {},
            }
        }
        acc = acc + weight * group;
        weight = weight * 128;
        index = index + 1;
        at = at + 1;
    }
}

/// The weights of the ten groups, spelled out.
proof fn group_weight_values()
    ensures
        group_weight(0) == 1,
        group_weight(1) == 0x80,
        group_weight(2) == 0x4000,
        group_weight(3) == 0x20_0000,
        group_weight(4) == 0x1000_0000,
        group_weight(5) == 0x08_0000_0000,
        group_weight(6) == 0x0400_0000_0000,
        group_weight(7) == 0x02_0000_0000_0000,
        group_weight(8) == 0x0100_0000_0000_0000,
        group_weight(9) == 0x8000_0000_0000_0000,
{
    reveal_with_fuel(group_weight, 11);
}

/// Whether `bytes` holds `part` from `pos` on.
pub open spec fn holds_at(bytes: Seq<u8>, pos: int, part: Seq<u8>) -> bool {
    &&& 0 <= pos
    &&& pos + part.len() <= bytes.len()
    &&& bytes.subrange(pos, pos + part.len()) == part
}

/// A buffer holds the parts of what it holds.
pub proof fn holds_at_split(bytes: Seq<u8>, pos: int, first: Seq<u8>, second: Seq<u8>)
    requires
        holds_at(bytes, pos, first + second),
    ensures
        holds_at(bytes, pos, first),
        holds_at(bytes, pos + first.len(), second),
{
    let whole = first + second;
    assert(bytes.subrange(pos, pos + first.len()) =~= whole.subrange(0, first.len() as int));
    assert(whole.subrange(0, first.len() as int) =~= first);
    assert(bytes.subrange(pos + first.len(), pos + first.len() + second.len()) =~= whole.subrange(
        first.len() as int,
        whole.len() as int,
    ));
    assert(whole.subrange(first.len() as int, whole.len() as int) =~= second);
}

proof fn groups_of_varint(z: u64, bytes: Seq<u8>, pos: int, index: nat)
    requires
        index <= 9,
        z * group_weight(index) < 0x1_0000_0000_0000_0000,
        holds_at(bytes, pos, varint_bytes(z)),
    ensures
        groups_at(bytes, pos, index) == Some((z as int, pos + varint_bytes(z).len())),
    decreases z,
{
    group_weight_values();
    let part = varint_bytes(z);
    assert(bytes[pos] == bytes.subrange(pos, pos + part.len())[0]);
    if z >= 128 {
        let head = seq![(128 + z % 128) as u8];
        let tail = varint_bytes(z / 128);
        assert(part == head + tail);
        holds_at_split(bytes, pos, head, tail);
        let w = group_weight(index);
        assert(w < 0x0200_0000_0000_0000) by (nonlinear_arith)
            requires
                z >= 128,
                z * w < 0x1_0000_0000_0000_0000,
                w >= 1,
        ;
        assert(index <= 8);
        assert((z / 128) * (128 * w) <= z * w) by (nonlinear_arith)
            requires
                w >= 1,
                z >= 0,
        ;
        groups_of_varint(z / 128, bytes, pos + 1, index + 1);
    }
}

/// What `write_varint` wrote, `read_varint` reads back.
pub proof fn varint_round_trip(z: u64, bytes: Seq<u8>, pos: int)
    requires
        holds_at(bytes, pos, varint_bytes(z)),
    ensures
        varint_at(bytes, pos) == Ok::<(u64, int), DecodeError>(
            (z, pos + varint_bytes(z).len()),
        ),
{
    group_weight_values();
    groups_of_varint(z, bytes, pos, 0);
}

/// What `write_long` wrote, `decode_long` reads back.
pub proof fn long_round_trip(n: i64, bytes: Seq<u8>, pos: int)
    requires
        holds_at(bytes, pos, long_bytes(n)),
    ensures
        long_at(bytes, pos) == Ok::<(i64, int), DecodeError>((n, pos + long_bytes(n).len())),
{
    varint_round_trip(zigzag(n), bytes, pos);
}

/// A varint takes at least one byte and at most ten.
pub proof fn varint_bytes_len(z: u64)
    ensures
        1 <= varint_bytes(z).len() <= 10,
{
    reveal_with_fuel(varint_bytes, 11);
    assert(z / 128 / 128 / 128 / 128 / 128 / 128 / 128 / 128 / 128 < 128);
}

/// Reads the signed integer that starts at `pos`.
pub fn decode_long(bytes: &[u8], pos: usize) -> (r: Result<(i64, usize), DecodeError>)
    ensures
        match r {
            Ok((n, end)) => long_at(bytes@, pos as int) == Ok::<(i64, int), DecodeError>(
                (n, end as int),
            ) && pos < end <= bytes.len(),
            Err(e) => long_at(bytes@, pos as int) == Err::<(i64, int), DecodeError>(e),
        },
{
    match read_varint(bytes, pos) {
        Ok((z, end)) => Ok((zigzag_decode(z), end)),
        Err(e) => Err(e),
    }
}

/// Reads the 32-bit signed integer that starts at `pos`.
pub fn decode_int(bytes: &[u8], pos: usize) -> (r: Result<(i32, usize), DecodeError>)
    ensures
        match r {
            Ok((n, end)) => int_at(bytes@, pos as int) == Ok::<(i32, int), DecodeError>(
                (n, end as int),
            ) && pos < end <= bytes.len(),
            Err(e) => int_at(bytes@, pos as int) == Err::<(i32, int), DecodeError>(e),
        },
{
    match decode_long(bytes, pos) {
        Ok((n, end)) => {
            if -0x8000_0000 <= n && n <= 0x7fff_ffff {
                Ok((n as i32, end))
            } else {
                Err(DecodeError::IntOutOfRange)
            }
        },
        Err(e) => Err(e),
    }
}

/// Reads the length or item count that starts at `pos`.
pub fn decode_len(bytes: &[u8], pos: usize) -> (r: Result<(usize, usize), DecodeError>)
    ensures
        match r {
            Ok((n, end)) => len_at(bytes@, pos as int) == Ok::<(usize, int), DecodeError>(
                (n, end as int),
            ) && pos < end <= bytes.len() && n <= MAX_ALLOCATION_BYTES,
            Err(e) => len_at(bytes@, pos as int) == Err::<(usize, int), DecodeError>(e),
        },
{
    match decode_long(bytes, pos) {
        Ok((n, end)) => {
            if 0 <= n && n <= 536870912 {
                Ok((n as usize, end))
            } else {
                Err(DecodeError::LengthOutOfRange)
            }
        },
        Err(e) => Err(e),
    }
}

} // verus!
