//! Request builder: the four-byte header with its back-patched length,
//! padded byte lists, word lists and the optional-fields convention.

use vstd::prelude::*;
use vstd::arithmetic::power2::pow2;
use vstd::arithmetic::power2::lemma_pow2_unfold;
use vstd::arithmetic::power2::lemma2_to64;
use vstd::arithmetic::power2::lemma_pow2_strictly_increases;
use crate::wire::ByteOrder;
use crate::wire::ParseError;
use crate::wire::u16_bytes;
use crate::wire::u16_value;
use crate::wire::u32_bytes;
use crate::wire::u32_value;
use crate::wire::serialize_u16;
use crate::wire::serialize_u32;
use crate::wire::parse_u32;
use crate::wire::skip;
use crate::wire::lemma_u16_roundtrip;
use crate::wire::lemma_u32_roundtrip;

verus! {

/// The number of bytes that bring a length to the next multiple of four.
pub open spec fn pad_len(len: nat) -> nat {
    ((4 - len % 4) % 4) as nat
}

/// `count` zero bytes.
pub open spec fn zeros(count: nat) -> Seq<u8> {
    Seq::new(count, |i: int| 0u8)
}

/// The number of pad bytes after `len` bytes.
pub fn padding_for(len: usize) -> (r: usize)
    ensures
        r == pad_len(len as nat),
        r < 4,
        (len + r) % 4 == 0,
{
    (4 - len % 4) % 4
}

/// Appends `bytes` to `out`.
pub fn append(out: &mut Vec<u8>, bytes: &[u8])
    ensures
        final(out)@ == old(out)@ + bytes@,
{
    let mut i: usize = 0;
    while i < bytes.len()
        invariant
            i <= bytes@.len(),
            out@ == old(out)@ + bytes@.take(i as int),
        decreases bytes@.len() - i,
    {
        out.push(bytes[i]);
        i += 1;
        assert(out@ =~= old(out)@ + bytes@.take(i as int));
    }
    assert(bytes@.take(i as int) =~= bytes@);
}

/// Appends `count` zero bytes to `out`.
pub fn append_zeros(out: &mut Vec<u8>, count: usize)
    ensures
        final(out)@ == old(out)@ + zeros(count as nat),
{
    let mut i: usize = 0;
    while i < count
        invariant
            i <= count,
            out@ == old(out)@ + zeros(i as nat),
        decreases count - i,
    {
        out.push(0);
        i += 1;
        assert(out@ =~= old(out)@ + zeros(i as nat));
    }
}

/// The length field of a request of `total` bytes: the count of four-byte
/// units, or 0 where that count does not fit in sixteen bits.
pub open spec fn length_field(total: nat) -> u16 {
    if total / 4 <= 0xffff {
        (total / 4) as u16
    } else {
        0
    }
}

/// A whole request: major opcode, minor opcode or inline data, the length
/// in four-byte units, then the body.
pub open spec fn request_bytes(order: ByteOrder, major: u8, minor: u8, body: Seq<u8>) -> Seq<u8> {
    seq![major, minor] + u16_bytes(order, length_field(body.len() + 4)) + body
}

/// Assembles a request from its opcodes and its encoded body, and patches
/// the length into bytes 2 and 3.
pub fn build_request(order: ByteOrder, major: u8, minor: u8, body: &[u8]) -> (r: Vec<u8>)
    requires
        body@.len() % 4 == 0,
    ensures
        r@ == request_bytes(order, major, minor, body@),
        r@.len() == body@.len() + 4,
        r@.len() % 4 == 0,
{
    let units: usize = body.len() / 4 + 1;
    let length: u16 = if units <= 0xffff { units as u16 } else { 0 };
    let mut r: Vec<u8> = Vec::new();
    r.push(major);
    r.push(minor);
    assert(r@ =~= seq![major, minor]);
    let length_bytes = serialize_u16(order, length);
    append(&mut r, length_bytes.as_slice());
    append(&mut r, body);
    r
}

/// Whether `bytes` is a whole number of four-byte units and says in its
/// length field how many.
pub open spec fn is_whole_request(order: ByteOrder, bytes: Seq<u8>) -> bool {
    &&& bytes.len() >= 4
    &&& bytes.len() % 4 == 0
    &&& u16_value(order, bytes.skip(2)) * 4 == bytes.len()
}

/// A request of whole units, and no longer than 262140 bytes, says in its
/// length field how many units it has.
pub proof fn lemma_request_length(order: ByteOrder, major: u8, minor: u8, body: Seq<u8>)
    requires
        body.len() % 4 == 0,
        body.len() + 4 <= 4 * 0xffff,
    ensures
        is_whole_request(order, request_bytes(order, major, minor, body)),
        request_bytes(order, major, minor, body).len() == body.len() + 4,
{
    let r = request_bytes(order, major, minor, body);
    let field = length_field(body.len() + 4);
    lemma_u16_roundtrip(order, field, body);
    assert(r.skip(2) =~= u16_bytes(order, field) + body);
}

/// A byte list on the wire: its count as a 32-bit field, the bytes, then
/// zero bytes up to the next multiple of four.
pub open spec fn byte_list_bytes(order: ByteOrder, data: Seq<u8>) -> Seq<u8> {
    u32_bytes(order, data.len() as u32) + data + zeros(pad_len(data.len()))
}

/// Whether `b` starts with a whole byte list: the count field, as many
/// bytes as it announces, and their padding.
pub open spec fn byte_list_fits(order: ByteOrder, b: Seq<u8>) -> bool {
    &&& b.len() >= 4
    &&& 4 + u32_value(order, b) + pad_len(u32_value(order, b) as nat) <= b.len()
}

/// The bytes of the byte list at the front of `b`.
pub open spec fn byte_list_data(order: ByteOrder, b: Seq<u8>) -> Seq<u8> {
    b.subrange(4, 4 + u32_value(order, b))
}

/// What follows the byte list at the front of `b`.
pub open spec fn byte_list_rest(order: ByteOrder, b: Seq<u8>) -> Seq<u8> {
    b.skip(4 + u32_value(order, b) + pad_len(u32_value(order, b) as nat))
}

/// Encodes a byte list; `None` where its count does not fit in 32 bits.
pub fn serialize_byte_list(order: ByteOrder, data: &[u8]) -> (r: Option<Vec<u8>>)
    ensures
        r.is_some() <==> data@.len() <= u32::MAX,
        r.is_some() ==> r.unwrap()@ == byte_list_bytes(order, data@),
        r.is_some() ==> r.unwrap()@.len() % 4 == 0,
{
    if data.len() > 0xffff_ffff {
        return None;
    }
    let count: u32 = data.len() as u32;
    let mut out: Vec<u8> = Vec::new();
    let count_bytes = serialize_u32(order, count);
    append(&mut out, count_bytes.as_slice());
    append(&mut out, data);
    append_zeros(&mut out, padding_for(data.len()));
    assert(out@ =~= byte_list_bytes(order, data@));
    Some(out)
}

/// Reads a byte list from the front of `remaining`. A list cut short, or
/// one whose padding is missing, is a parse failure.
pub fn parse_byte_list(order: ByteOrder, remaining: &[u8]) -> (r: Result<
    (Vec<u8>, &[u8]),
    ParseError,
>)
    ensures
        r.is_ok() <==> byte_list_fits(order, remaining@),
        r.is_ok() ==> r.unwrap().0@ == byte_list_data(order, remaining@) && r.unwrap().1@
            == byte_list_rest(order, remaining@),
{
    let (count, rest) = match parse_u32(order, remaining) {
        Ok(pair) => pair,
        Err(e) => { return Err(e); },
    };
    if count as u64 > rest.len() as u64 {
        return Err(ParseError::ParseError);
    }
    let n: usize = count as usize;
    let pad: usize = padding_for(n);
    if pad > rest.len() - n {
        return Err(ParseError::ParseError);
    }
    let mut data: Vec<u8> = Vec::new();
    let mut i: usize = 0;
    while i < n
        invariant
            i <= n <= rest@.len(),
            data@ == rest@.take(i as int),
        decreases n - i,
    {
        data.push(rest[i]);
        i += 1;
        assert(data@ =~= rest@.take(i as int));
    }
    assert(data@ =~= byte_list_data(order, remaining@));
    match skip(rest, n + pad) {
        Ok(tail) => {
            assert(tail@ =~= byte_list_rest(order, remaining@));
            Ok((data, tail))
        },
        Err(e) => Err(e),
    }
}

/// Decoding an encoded byte list gives the bytes back and leaves what
/// followed it.
pub proof fn lemma_byte_list_roundtrip(order: ByteOrder, data: Seq<u8>, tail: Seq<u8>)
    requires
        data.len() <= u32::MAX,
    ensures
        byte_list_bytes(order, data).len() % 4 == 0,
        byte_list_fits(order, byte_list_bytes(order, data) + tail),
        byte_list_data(order, byte_list_bytes(order, data) + tail) == data,
        byte_list_rest(order, byte_list_bytes(order, data) + tail) == tail,
{
    let b = byte_list_bytes(order, data) + tail;
    let after = data + zeros(pad_len(data.len())) + tail;
    lemma_u32_roundtrip(order, data.len() as u32, after);
    assert(b =~= u32_bytes(order, data.len() as u32) + after);
    assert(byte_list_data(order, b) =~= data);
    assert(byte_list_rest(order, b) =~= tail);
}

/// The four-byte fields of `items`, one after another.
pub open spec fn words_bytes(order: ByteOrder, items: Seq<u32>) -> Seq<u8> {
    Seq::new(4 * items.len(), |i: int| u32_bytes(order, items[i / 4])[i % 4])
}

/// A list of 32-bit fields on the wire: its count, then the fields.
pub open spec fn word_list_bytes(order: ByteOrder, items: Seq<u32>) -> Seq<u8> {
    u32_bytes(order, items.len() as u32) + words_bytes(order, items)
}

/// Whether `b` starts with a whole list of 32-bit fields.
pub open spec fn word_list_fits(order: ByteOrder, b: Seq<u8>) -> bool {
    &&& b.len() >= 4
    &&& 4 + 4 * u32_value(order, b) <= b.len()
}

/// The fields of the word list at the front of `b`.
pub open spec fn word_list_items(order: ByteOrder, b: Seq<u8>) -> Seq<u32> {
    Seq::new(u32_value(order, b) as nat, |i: int| u32_value(order, b.skip(4 + 4 * i)))
}

/// What follows the word list at the front of `b`.
pub open spec fn word_list_rest(order: ByteOrder, b: Seq<u8>) -> Seq<u8> {
    b.skip(4 + 4 * u32_value(order, b))
}

/// Encodes a list of 32-bit fields; `None` where its count does not fit
/// in 32 bits.
pub fn serialize_word_list(order: ByteOrder, items: &[u32]) -> (r: Option<Vec<u8>>)
    ensures
        r.is_some() <==> items@.len() <= u32::MAX,
        r.is_some() ==> r.unwrap()@ == word_list_bytes(order, items@),
        r.is_some() ==> r.unwrap()@.len() % 4 == 0,
{
    if items.len() > 0xffff_ffff {
        return None;
    }
    let count: u32 = items.len() as u32;
    let mut out: Vec<u8> = Vec::new();
    let count_bytes = serialize_u32(order, count);
    append(&mut out, count_bytes.as_slice());
    let mut i: usize = 0;
    while i < items.len()
        invariant
            i <= items@.len(),
            out@ == u32_bytes(order, count) + words_bytes(order, items@.take(i as int)),
        decreases items@.len() - i,
    {
        let field = serialize_u32(order, items[i]);
        append(&mut out, field.as_slice());
        i += 1;
        assert(words_bytes(order, items@.take(i as int)) =~= words_bytes(
            order,
            items@.take(i - 1),
        ) + u32_bytes(order, items@[i - 1]));
    }
    assert(items@.take(i as int) =~= items@);
    Some(out)
}

/// Reads a list of 32-bit fields from the front of `remaining`.
pub fn parse_word_list(order: ByteOrder, remaining: &[u8]) -> (r: Result<
    (Vec<u32>, &[u8]),
    ParseError,
>)
    ensures
        r.is_ok() <==> word_list_fits(order, remaining@),
        r.is_ok() ==> r.unwrap().0@ == word_list_items(order, remaining@) && r.unwrap().1@
            == word_list_rest(order, remaining@),
{
    let (count, rest) = match parse_u32(order, remaining) {
        Ok(pair) => pair,
        Err(e) => { return Err(e); },
    };
    if count as u64 > (rest.len() / 4) as u64 {
        return Err(ParseError::ParseError);
    }
    let n: usize = count as usize;
    let mut items: Vec<u32> = Vec::new();
    let mut cursor: &[u8] = rest;
    let mut i: usize = 0;
    while i < n
        invariant
            i <= n,
            remaining@.len() >= 4,
            4 * n <= rest@.len(),
            rest@ == remaining@.skip(4),
            cursor@ == remaining@.skip(4 + 4 * i),
            items@ == word_list_items(order, remaining@).take(i as int),
            n == u32_value(order, remaining@),
        decreases n - i,
    {
        match parse_u32(order, cursor) {
            Ok((value, next)) => {
                items.push(value);
                assert(remaining@.skip(4 + 4 * i).skip(4) =~= remaining@.skip(4 + 4 * (i + 1)));
                cursor = next;
            },
            Err(e) => { return Err(e); },
        }
        i += 1;
        assert(items@ =~= word_list_items(order, remaining@).take(i as int));
    }
    assert(items@ =~= word_list_items(order, remaining@));
    Ok((items, cursor))
}

/// Decoding an encoded list of 32-bit fields gives the fields back and
/// leaves what followed them.
pub proof fn lemma_word_list_roundtrip(order: ByteOrder, items: Seq<u32>, tail: Seq<u8>)
    requires
        items.len() <= u32::MAX,
    ensures
        word_list_bytes(order, items).len() % 4 == 0,
        word_list_fits(order, word_list_bytes(order, items) + tail),
        word_list_items(order, word_list_bytes(order, items) + tail) == items,
        word_list_rest(order, word_list_bytes(order, items) + tail) == tail,
{
    let b = word_list_bytes(order, items) + tail;
    let after = words_bytes(order, items) + tail;
    lemma_u32_roundtrip(order, items.len() as u32, after);
    assert(b =~= u32_bytes(order, items.len() as u32) + after);
    assert forall|i: int| 0 <= i < items.len() implies #[trigger] word_list_items(order, b)[i]
        == items[i] by {
        let at = b.skip(4 + 4 * i);
        let field = u32_bytes(order, items[i]);
        lemma_u32_roundtrip(order, items[i], at.skip(4));
        assert forall|k: int| 0 <= k < 4 implies at[k] == field[k] by {
            assert(at[k] == words_bytes(order, items)[4 * i + k]);
            assert((4 * i + k) / 4 == i);
            assert((4 * i + k) % 4 == k);
        }
        assert(at =~= field + at.skip(4));
    }
    assert(word_list_items(order, b) =~= items);
    assert(word_list_rest(order, b) =~= tail);
}

/// The bitmask of a run of optional fields: bit `i` is set where field `i`
/// was supplied.
pub open spec fn field_mask(fields: Seq<Option<u32>>) -> nat
    decreases fields.len(),
{
    if fields.len() == 0 {
        0
    } else {
        field_mask(fields.drop_last()) + if fields.last().is_some() {
            pow2((fields.len() - 1) as nat)
        } else {
            0
        }
    }
}

/// The value words of the supplied fields, in ascending bit order.
pub open spec fn field_values(order: ByteOrder, fields: Seq<Option<u32>>) -> Seq<u8>
    decreases fields.len(),
{
    if fields.len() == 0 {
        Seq::empty()
    } else {
        field_values(order, fields.drop_last()) + match fields.last() {
            Some(value) => u32_bytes(order, value),
            None => Seq::empty(),
        }
    }
}

/// Optional fields on the wire: the bitmask word, then the value words of
/// the fields whose bit is set.
pub open spec fn optional_fields_bytes(order: ByteOrder, fields: Seq<Option<u32>>) -> Seq<u8> {
    u32_bytes(order, field_mask(fields) as u32) + field_values(order, fields)
}

/// The bitmask of `n` fields is below two to the `n`, so that of at most
/// 32 fields fits the 32-bit mask word.
pub proof fn lemma_field_mask_bound(fields: Seq<Option<u32>>)
    ensures
        field_mask(fields) < pow2(fields.len()),
        fields.len() <= 32 ==> field_mask(fields) <= u32::MAX,
    decreases fields.len(),
{
    lemma2_to64();
    if fields.len() > 0 {
        lemma_field_mask_bound(fields.drop_last());
        lemma_pow2_unfold(fields.len());
    }
    if fields.len() < 32 {
        lemma_pow2_strictly_increases(fields.len(), 32);
    }
}

/// Encodes up to 32 optional fields, computing the bitmask from which of
/// them were supplied; `None` where there are more than 32.
pub fn serialize_optional_fields(order: ByteOrder, fields: &[Option<u32>]) -> (r: Option<Vec<u8>>)
    ensures
        r.is_some() <==> fields@.len() <= 32,
        r.is_some() ==> r.unwrap()@ == optional_fields_bytes(order, fields@),
        r.is_some() ==> r.unwrap()@.len() % 4 == 0,
{
    if fields.len() > 32 {
        return None;
    }
    let mut mask: u64 = 0;
    let mut bit: u64 = 1;
    let mut values: Vec<u8> = Vec::new();
    let mut i: usize = 0;
    proof {
        lemma2_to64();
    }
    while i < fields.len()
        invariant
            i <= fields@.len() <= 32,
            bit == pow2(i as nat),
            mask == field_mask(fields@.take(i as int)),
            mask < bit,
            bit <= 0x1_0000_0000,
            values@ == field_values(order, fields@.take(i as int)),
            values@.len() % 4 == 0,
        decreases fields@.len() - i,
    {
        proof {
            lemma2_to64();
            lemma_pow2_unfold((i + 1) as nat);
            if i + 1 < 32 {
                lemma_pow2_strictly_increases((i + 1) as nat, 32);
            }
            assert(fields@.take(i + 1).drop_last() =~= fields@.take(i as int));
        }
        match fields[i] {
            Some(value) => {
                mask = mask + bit;
                let word = serialize_u32(order, value);
                append(&mut values, word.as_slice());
            },
            None => {},
        }
        bit = bit * 2;
        i += 1;
    }
    assert(fields@.take(i as int) =~= fields@);
    let mut out: Vec<u8> = Vec::new();
    let mask_bytes = serialize_u32(order, mask as u32);
    append(&mut out, mask_bytes.as_slice());
    append(&mut out, values.as_slice());
    Some(out)
}

} // verus!
