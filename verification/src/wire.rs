//! Wire codec: fixed-width fields in either byte order, skipped padding,
//! and the 4-byte alignment rule.

use vstd::prelude::*;
use vstd::slice::slice_subrange;

verus! {

/// The byte order that a connection has negotiated with its server.
#[derive(Clone, Copy, Debug, PartialEq, Eq, Structural)]
pub enum ByteOrder {
    LittleEndian,
    BigEndian,
}

/// A byte layout was malformed or shorter than the value it should hold.
#[derive(Clone, Copy, Debug, PartialEq, Eq, Structural)]
pub enum ParseError {
    ParseError,
}

/// The two bytes of `x` in the given order.
pub open spec fn u16_bytes(order: ByteOrder, x: u16) -> Seq<u8> {
    let lo = (x % 256) as u8;
    let hi = (x / 256) as u8;
    match order {
        ByteOrder::LittleEndian => seq![lo, hi],
        ByteOrder::BigEndian => seq![hi, lo],
    }
}

/// The 16-bit value that the first two bytes of `b` hold in the given order.
pub open spec fn u16_value(order: ByteOrder, b: Seq<u8>) -> u16
    recommends
        b.len() >= 2,
{
    match order {
        ByteOrder::LittleEndian => (b[0] + b[1] * 256) as u16,
        ByteOrder::BigEndian => (b[1] + b[0] * 256) as u16,
    }
}

/// The four bytes of `x` in the given order.
pub open spec fn u32_bytes(order: ByteOrder, x: u32) -> Seq<u8> {
    let b0 = (x % 256) as u8;
    let b1 = (x / 256 % 256) as u8;
    let b2 = (x / 65536 % 256) as u8;
    let b3 = (x / 16777216) as u8;
    match order {
        ByteOrder::LittleEndian => seq![b0, b1, b2, b3],
        ByteOrder::BigEndian => seq![b3, b2, b1, b0],
    }
}

/// The 32-bit value that the first four bytes of `b` hold in the given order.
pub open spec fn u32_value(order: ByteOrder, b: Seq<u8>) -> u32
    recommends
        b.len() >= 4,
{
    match order {
        ByteOrder::LittleEndian => (b[0] + b[1] * 256 + b[2] * 65536 + b[3] * 16777216) as u32,
        ByteOrder::BigEndian => (b[3] + b[2] * 256 + b[1] * 65536 + b[0] * 16777216) as u32,
    }
}

/// A signed 16-bit value as the unsigned value with the same bits.
pub open spec fn i16_bits(x: i16) -> u16 {
    if x < 0 {
        (x + 65536) as u16
    } else {
        x as u16
    }
}

/// The signed 16-bit value with the bits of `x`.
pub open spec fn i16_of_bits(x: u16) -> i16 {
    if x >= 32768 {
        (x - 65536) as i16
    } else {
        x as i16
    }
}

/// The two bytes of a signed 16-bit value in the given order.
pub open spec fn i16_bytes(order: ByteOrder, x: i16) -> Seq<u8> {
    u16_bytes(order, i16_bits(x))
}

/// The signed 16-bit value that the first two bytes of `b` hold.
pub open spec fn i16_value(order: ByteOrder, b: Seq<u8>) -> i16
    recommends
        b.len() >= 2,
{
    i16_of_bits(u16_value(order, b))
}

/// The single byte of a boolean: 1 for true, 0 for false.
pub open spec fn bool_bytes(x: bool) -> Seq<u8> {
    seq![if x { 1u8 } else { 0u8 }]
}

/// The boolean that a byte stands for: anything but 0 is true.
pub open spec fn bool_value(b: u8) -> bool {
    b != 0
}

/// Drops the first `n` bytes of `remaining`; fails when there are fewer.
pub fn skip(remaining: &[u8], n: usize) -> (r: Result<&[u8], ParseError>)
    ensures
        r.is_ok() <==> n <= remaining@.len(),
        r.is_ok() ==> r.unwrap()@ == remaining@.skip(n as int),
{
    if n <= remaining.len() {
        let rest = slice_subrange(remaining, n, remaining.len());
        assert(rest@ =~= remaining@.skip(n as int));
        Ok(rest)
    } else {
        Err(ParseError::ParseError)
    }
}

/// Reads one byte from the front of `remaining`.
pub fn parse_u8(remaining: &[u8]) -> (r: Result<(u8, &[u8]), ParseError>)
    ensures
        r.is_ok() <==> remaining@.len() >= 1,
        r.is_ok() ==> r.unwrap().0 == remaining@[0] && r.unwrap().1@ == remaining@.skip(1),
{
    if remaining.len() < 1 {
        return Err(ParseError::ParseError);
    }
    let value = remaining[0];
    let rest = slice_subrange(remaining, 1, remaining.len());
    assert(rest@ =~= remaining@.skip(1));
    Ok((value, rest))
}

/// Reads a boolean from the front of `remaining`.
pub fn parse_bool(remaining: &[u8]) -> (r: Result<(bool, &[u8]), ParseError>)
    ensures
        r.is_ok() <==> remaining@.len() >= 1,
        r.is_ok() ==> r.unwrap().0 == bool_value(remaining@[0]) && r.unwrap().1@
            == remaining@.skip(1),
{
    if remaining.len() < 1 {
        return Err(ParseError::ParseError);
    }
    let value = remaining[0] != 0;
    let rest = slice_subrange(remaining, 1, remaining.len());
    assert(rest@ =~= remaining@.skip(1));
    Ok((value, rest))
}

/// Reads a 16-bit value from the front of `remaining`.
pub fn parse_u16(order: ByteOrder, remaining: &[u8]) -> (r: Result<(u16, &[u8]), ParseError>)
    ensures
        r.is_ok() <==> remaining@.len() >= 2,
        r.is_ok() ==> r.unwrap().0 == u16_value(order, remaining@) && r.unwrap().1@
            == remaining@.skip(2),
{
    if remaining.len() < 2 {
        return Err(ParseError::ParseError);
    }
    let first: u16 = remaining[0] as u16;
    let second: u16 = remaining[1] as u16;
    let value: u16 = match order {
        ByteOrder::LittleEndian => first + second * 256,
        ByteOrder::BigEndian => second + first * 256,
    };
    let rest = slice_subrange(remaining, 2, remaining.len());
    assert(rest@ =~= remaining@.skip(2));
    Ok((value, rest))
}

/// Reads a signed 16-bit value from the front of `remaining`.
pub fn parse_i16(order: ByteOrder, remaining: &[u8]) -> (r: Result<(i16, &[u8]), ParseError>)
    ensures
        r.is_ok() <==> remaining@.len() >= 2,
        r.is_ok() ==> r.unwrap().0 == i16_value(order, remaining@) && r.unwrap().1@
            == remaining@.skip(2),
{
    match parse_u16(order, remaining) {
        Ok((bits, rest)) => {
            let value: i16 = if bits >= 32768 {
                ((bits - 32768) as i16) - 32767 - 1
            } else {
                bits as i16
            };
            Ok((value, rest))
        },
        Err(e) => Err(e),
    }
}

/// Reads a 32-bit value from the front of `remaining`.
pub fn parse_u32(order: ByteOrder, remaining: &[u8]) -> (r: Result<(u32, &[u8]), ParseError>)
    ensures
        r.is_ok() <==> remaining@.len() >= 4,
        r.is_ok() ==> r.unwrap().0 == u32_value(order, remaining@) && r.unwrap().1@
            == remaining@.skip(4),
{
    if remaining.len() < 4 {
        return Err(ParseError::ParseError);
    }
    let b0: u32 = remaining[0] as u32;
    let b1: u32 = remaining[1] as u32;
    let b2: u32 = remaining[2] as u32;
    let b3: u32 = remaining[3] as u32;
    let value: u32 = match order {
        ByteOrder::LittleEndian => b0 + b1 * 256 + b2 * 65536 + b3 * 16777216,
        ByteOrder::BigEndian => b3 + b2 * 256 + b1 * 65536 + b0 * 16777216,
    };
    let rest = slice_subrange(remaining, 4, remaining.len());
    assert(rest@ =~= remaining@.skip(4));
    Ok((value, rest))
}

/// The one byte of `x`.
pub fn serialize_u8(x: u8) -> (r: [u8; 1])
    ensures
        r@ == seq![x],
{
    let r = [x];
    assert(r@ =~= seq![x]);
    r
}

/// The one byte of a boolean.
pub fn serialize_bool(x: bool) -> (r: [u8; 1])
    ensures
        r@ == bool_bytes(x),
{
    let byte: u8 = if x { 1 } else { 0 };
    let r = [byte];
    assert(r@ =~= bool_bytes(x));
    r
}

/// The two bytes of `x` in the given order.
pub fn serialize_u16(order: ByteOrder, x: u16) -> (r: [u8; 2])
    ensures
        r@ == u16_bytes(order, x),
{
    let lo: u8 = (x % 256) as u8;
    let hi: u8 = (x / 256) as u8;
    let r = match order {
        ByteOrder::LittleEndian => [lo, hi],
        ByteOrder::BigEndian => [hi, lo],
    };
    assert(r@ =~= u16_bytes(order, x));
    r
}

/// The two bytes of a signed `x` in the given order.
pub fn serialize_i16(order: ByteOrder, x: i16) -> (r: [u8; 2])
    ensures
        r@ == i16_bytes(order, x),
{
    let bits: u16 = if x < 0 {
        ((x + 32767 + 1) as u16) + 32768
    } else {
        x as u16
    };
    serialize_u16(order, bits)
}

/// The four bytes of `x` in the given order.
pub fn serialize_u32(order: ByteOrder, x: u32) -> (r: [u8; 4])
    ensures
        r@ == u32_bytes(order, x),
{
    let b0: u8 = (x % 256) as u8;
    let b1: u8 = (x / 256 % 256) as u8;
    let b2: u8 = (x / 65536 % 256) as u8;
    let b3: u8 = (x / 16777216) as u8;
    let r = match order {
        ByteOrder::LittleEndian => [b0, b1, b2, b3],
        ByteOrder::BigEndian => [b3, b2, b1, b0],
    };
    assert(r@ =~= u32_bytes(order, x));
    r
}

/// Decoding the encoding of a 16-bit value gives the value back, whatever
/// bytes follow it.
pub proof fn lemma_u16_roundtrip(order: ByteOrder, x: u16, tail: Seq<u8>)
    ensures
        u16_bytes(order, x).len() == 2,
        u16_value(order, u16_bytes(order, x) + tail) == x,
{
}

/// Decoding the encoding of a signed 16-bit value gives the value back.
pub proof fn lemma_i16_roundtrip(order: ByteOrder, x: i16, tail: Seq<u8>)
    ensures
        i16_bytes(order, x).len() == 2,
        i16_value(order, i16_bytes(order, x) + tail) == x,
{
    lemma_u16_roundtrip(order, i16_bits(x), tail);
}

/// Decoding the encoding of a 32-bit value gives the value back, whatever
/// bytes follow it.
pub proof fn lemma_u32_roundtrip(order: ByteOrder, x: u32, tail: Seq<u8>)
    ensures
        u32_bytes(order, x).len() == 4,
        u32_value(order, u32_bytes(order, x) + tail) == x,
{
}

/// Decoding the encoding of a boolean gives the boolean back.
pub proof fn lemma_bool_roundtrip(x: bool)
    ensures
        bool_bytes(x).len() == 1,
        bool_value(bool_bytes(x)[0]) == x,
{
}

/// Encoding the value that two bytes hold gives the two bytes back.
pub proof fn lemma_u16_bytes_of_value(order: ByteOrder, b: Seq<u8>)
    requires
        b.len() == 2,
    ensures
        u16_bytes(order, u16_value(order, b)) == b,
{
    assert(u16_bytes(order, u16_value(order, b)) =~= b);
}

/// Encoding the value that four bytes hold gives the four bytes back.
pub proof fn lemma_u32_bytes_of_value(order: ByteOrder, b: Seq<u8>)
    requires
        b.len() == 4,
    ensures
        u32_bytes(order, u32_value(order, b)) == b,
{
    let (d0, d1, d2, d3) = match order {
        ByteOrder::LittleEndian => (b[0] as int, b[1] as int, b[2] as int, b[3] as int),
        ByteOrder::BigEndian => (b[3] as int, b[2] as int, b[1] as int, b[0] as int),
    };
    lemma_base256_digits(d0, d1, d2, d3);
    assert(u32_bytes(order, u32_value(order, b)) =~= b);
}

/// The base-256 digits of a number written with four such digits.
proof fn lemma_base256_digits(d0: int, d1: int, d2: int, d3: int)
    requires
        0 <= d0 < 256,
        0 <= d1 < 256,
        0 <= d2 < 256,
        0 <= d3 < 256,
    ensures
        ({
            let v = d0 + d1 * 256 + d2 * 65536 + d3 * 16777216;
            &&& 0 <= v < 4294967296
            &&& v % 256 == d0
            &&& v / 256 % 256 == d1
            &&& v / 65536 % 256 == d2
            &&& v / 16777216 == d3
        }),
{
    let v = d0 + d1 * 256 + d2 * 65536 + d3 * 16777216;
    assert(v / 256 == d1 + d2 * 256 + d3 * 65536);
    assert(v / 65536 == d2 + d3 * 256);
    assert(v / 16777216 == d3);
}

} // verus!
