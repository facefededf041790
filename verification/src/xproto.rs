//! The part of the core protocol that the engine itself speaks: resource
//! identifiers and the query for an extension by name.

use vstd::prelude::*;
use crate::wire::ByteOrder;
use crate::wire::ParseError;
use crate::wire::bool_value;
use crate::wire::u16_bytes;
use crate::wire::u16_value;
use crate::wire::u32_value;
use crate::wire::parse_bool;
use crate::wire::parse_u16;
use crate::wire::parse_u32;
use crate::wire::parse_u8;
use crate::wire::skip;
use crate::wire::serialize_u16;
use crate::request::append;
use crate::request::append_zeros;
use crate::request::build_request;
use crate::request::pad_len;
use crate::request::padding_for;
use crate::request::request_bytes;
use crate::request::zeros;

verus! {

/// The identifier of a window or a pixmap.
pub type Drawable = u32;

/// The identifier of a graphics context.
pub type Gcontext = u32;

/// The identifier of a pixmap.
pub type Pixmap = u32;

/// The identifier of a visual.
pub type Visualid = u32;

/// Opcode for the QueryExtension request
pub const QUERY_EXTENSION_REQUEST: u8 = 98;

/// The body of a QueryExtension request: the name's length, two unused
/// bytes, the name, and padding to a multiple of four.
pub open spec fn query_extension_body(order: ByteOrder, name: Seq<u8>) -> Seq<u8> {
    u16_bytes(order, name.len() as u16) + zeros(2) + name + zeros(pad_len(name.len()))
}

/// The bytes of a QueryExtension request.
pub open spec fn query_extension_request_bytes(order: ByteOrder, name: Seq<u8>) -> Seq<u8> {
    request_bytes(order, QUERY_EXTENSION_REQUEST, 0, query_extension_body(order, name))
}

/// Encodes a QueryExtension request for `name`; `None` where the name is
/// longer than its 16-bit length field can say.
pub fn query_extension_request(order: ByteOrder, name: &[u8]) -> (r: Option<Vec<u8>>)
    ensures
        r.is_some() <==> name@.len() <= u16::MAX,
        r.is_some() ==> r.unwrap()@ == query_extension_request_bytes(order, name@),
        r.is_some() ==> r.unwrap()@.len() % 4 == 0,
{
    if name.len() > 0xffff {
        return None;
    }
    let name_len: u16 = name.len() as u16;
    let mut body: Vec<u8> = Vec::new();
    append(&mut body, serialize_u16(order, name_len).as_slice());
    append_zeros(&mut body, 2);
    append(&mut body, name);
    append_zeros(&mut body, padding_for(name.len()));
    assert(body@ =~= query_extension_body(order, name@));
    Some(build_request(order, QUERY_EXTENSION_REQUEST, 0, body.as_slice()))
}

/// The reply to a QueryExtension request.
#[derive(Debug, Clone, Copy, PartialEq, Eq, Structural)]
pub struct QueryExtensionReply {
    pub response_type: u8,
    pub sequence: u16,
    pub length: u32,
    pub present: bool,
    pub major_opcode: u8,
    pub first_event: u8,
    pub first_error: u8,
}

/// The QueryExtension reply that the first twelve bytes of `b` hold.
pub open spec fn query_extension_reply_value(order: ByteOrder, b: Seq<u8>) -> QueryExtensionReply
    recommends
        b.len() >= 12,
{
    QueryExtensionReply {
        response_type: b[0],
        sequence: u16_value(order, b.skip(2)),
        length: u32_value(order, b.skip(4)),
        present: bool_value(b[8]),
        major_opcode: b[9],
        first_event: b[10],
        first_error: b[11],
    }
}

impl QueryExtensionReply {
    /// Reads a QueryExtension reply, its twenty unused bytes included,
    /// from the front of `remaining` and returns it with the bytes that
    /// follow the reply's 32.
    pub fn try_parse(order: ByteOrder, remaining: &[u8]) -> (r: Result<(Self, &[u8]), ParseError>)
        ensures
            r.is_ok() <==> remaining@.len() >= 32,
            r.is_ok() ==> r.unwrap().0 == query_extension_reply_value(order, remaining@)
                && r.unwrap().1@ == remaining@.skip(32),
    {
        let input = remaining;
        let (response_type, remaining) = parse_u8(remaining)?;
        let remaining = skip(remaining, 1)?;
        assert(remaining@ =~= input@.skip(2));
        let (sequence, remaining) = parse_u16(order, remaining)?;
        assert(remaining@ =~= input@.skip(4));
        let (length, remaining) = parse_u32(order, remaining)?;
        assert(remaining@ =~= input@.skip(8));
        let (present, remaining) = parse_bool(remaining)?;
        let (major_opcode, remaining) = parse_u8(remaining)?;
        let (first_event, remaining) = parse_u8(remaining)?;
        let (first_error, remaining) = parse_u8(remaining)?;
        assert(remaining@ =~= input@.skip(12));
        let remaining = skip(remaining, 20)?;
        assert(remaining@ =~= input@.skip(32));
        let result = QueryExtensionReply {
            response_type,
            sequence,
            length,
            present,
            major_opcode,
            first_event,
            first_error,
        };
        Ok((result, remaining))
    }
}

/// Opcode for the GetInputFocus request
pub const GET_INPUT_FOCUS_REQUEST: u8 = 43;

/// The bytes of a GetInputFocus request: the header alone.
pub open spec fn get_input_focus_request_bytes(order: ByteOrder) -> Seq<u8> {
    request_bytes(order, GET_INPUT_FOCUS_REQUEST, 0, Seq::empty())
}

/// Encodes a GetInputFocus request. It changes nothing on the server and
/// has a reply, which makes it the request to send for the sake of its
/// reply alone.
pub fn get_input_focus_request(order: ByteOrder) -> (r: Vec<u8>)
    ensures
        r@ == get_input_focus_request_bytes(order),
        r@.len() == 4,
{
    let body: Vec<u8> = Vec::new();
    assert(body@ =~= Seq::<u8>::empty());
    build_request(order, GET_INPUT_FOCUS_REQUEST, 0, body.as_slice())
}

} // verus!
