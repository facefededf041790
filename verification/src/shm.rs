//! The shared-memory extension: its event, its replies and the byte
//! layout of its requests.

use vstd::prelude::*;
use crate::utils::RawFdContainer;
use crate::wire::ByteOrder;
use crate::wire::ParseError;
use crate::wire::bool_bytes;
use crate::wire::bool_value;
use crate::wire::i16_bytes;
use crate::wire::u16_bytes;
use crate::wire::u16_value;
use crate::wire::u32_bytes;
use crate::wire::u32_value;
use crate::wire::parse_bool;
use crate::wire::parse_u16;
use crate::wire::parse_u32;
use crate::wire::parse_u8;
use crate::wire::skip;
use crate::wire::serialize_bool;
use crate::wire::serialize_i16;
use crate::wire::serialize_u16;
use crate::wire::serialize_u32;
use crate::wire::lemma_u16_roundtrip;
use crate::wire::lemma_u32_roundtrip;
use crate::request::append;
use crate::request::append_zeros;
use crate::request::build_request;
use crate::request::is_whole_request;
use crate::request::lemma_request_length;
use crate::request::request_bytes;
use crate::request::zeros;
use crate::connection::cookie_number;
use crate::connection::lemma_unowned_nothing;
use crate::connection::cookie_with_fds_number;
use crate::connection::sent;
use crate::connection::void_cookie_number;
use crate::connection::Connection;
use crate::connection::ConnectionError;
use crate::connection::ConnectionView;
use crate::connection::Cookie;
use crate::connection::CookieWithFds;
use crate::connection::VoidCookie;
use crate::cookie::ReplyShape;
use crate::xproto::Drawable;
use crate::xproto::Gcontext;
use crate::xproto::Pixmap;
use crate::xproto::Visualid;

verus! {

/// The name under which the server announces this extension.
pub const X11_EXTENSION_NAME: &'static str = "MIT-SHM";

/// The version of this extension that these messages follow.
pub const X11_XML_VERSION: (u32, u32) = (1, 2);

/// The identifier of a shared-memory segment.
pub type Seg = u32;

/// Opcode for the Completion event
pub const COMPLETION_EVENT: u8 = 0;

/// The event that tells that the server is done with a PutImage.
#[derive(Debug, Clone, Copy, PartialEq, Eq, Structural)]
pub struct CompletionEvent {
    pub response_type: u8,
    pub sequence: u16,
    pub drawable: Drawable,
    pub minor_event: u16,
    pub major_event: u8,
    pub shmseg: Seg,
    pub offset: u32,
}

/// The Completion event that the first 20 bytes of `b` hold.
pub open spec fn completion_event_value(order: ByteOrder, b: Seq<u8>) -> CompletionEvent
    recommends
        b.len() >= 20,
{
    CompletionEvent {
        response_type: b[0],
        sequence: u16_value(order, b.skip(2)),
        drawable: u32_value(order, b.skip(4)),
        minor_event: u16_value(order, b.skip(8)),
        major_event: b[10],
        shmseg: u32_value(order, b.skip(12)),
        offset: u32_value(order, b.skip(16)),
    }
}

/// The 32 bytes of a Completion event: its fields, each unused byte zero,
/// and twelve bytes of trailing padding.
pub open spec fn completion_event_bytes(order: ByteOrder, e: CompletionEvent) -> Seq<u8> {
    seq![e.response_type, 0u8] + u16_bytes(order, e.sequence) + u32_bytes(order, e.drawable)
        + u16_bytes(order, e.minor_event) + seq![e.major_event, 0u8] + u32_bytes(order, e.shmseg)
        + u32_bytes(order, e.offset) + zeros(12)
}

impl CompletionEvent {
    /// Reads a Completion event, its twelve bytes of padding included,
    /// from the front of `remaining` and returns it with the bytes that
    /// follow the event's 32.
    pub fn try_parse(order: ByteOrder, remaining: &[u8]) -> (r: Result<(Self, &[u8]), ParseError>)
        ensures
            r.is_ok() <==> remaining@.len() >= 32,
            r.is_ok() ==> r.unwrap().0 == completion_event_value(order, remaining@)
                && r.unwrap().1@ == remaining@.skip(32),
    {
        let input = remaining;
        let (response_type, remaining) = parse_u8(remaining)?;
        let remaining = skip(remaining, 1)?;
        assert(remaining@ =~= input@.skip(2));
        let (sequence, remaining) = parse_u16(order, remaining)?;
        assert(remaining@ =~= input@.skip(4));
        let (drawable, remaining) = parse_u32(order, remaining)?;
        assert(remaining@ =~= input@.skip(8));
        let (minor_event, remaining) = parse_u16(order, remaining)?;
        assert(remaining@ =~= input@.skip(10));
        let (major_event, remaining) = parse_u8(remaining)?;
        let remaining = skip(remaining, 1)?;
        assert(remaining@ =~= input@.skip(12));
        let (shmseg, remaining) = parse_u32(order, remaining)?;
        assert(remaining@ =~= input@.skip(16));
        let (offset, remaining) = parse_u32(order, remaining)?;
        assert(remaining@ =~= input@.skip(20));
        let remaining = skip(remaining, 12)?;
        assert(remaining@ =~= input@.skip(32));
        let result = CompletionEvent {
            response_type,
            sequence,
            drawable,
            minor_event,
            major_event,
            shmseg,
            offset,
        };
        Ok((result, remaining))
    }

    /// The event's 32 bytes on the wire.
    pub fn serialize(&self, order: ByteOrder) -> (r: [u8; 32])
        ensures
            r@ == completion_event_bytes(order, *self),
    {
        let sequence_bytes = serialize_u16(order, self.sequence);
        let drawable_bytes = serialize_u32(order, self.drawable);
        let minor_event_bytes = serialize_u16(order, self.minor_event);
        let shmseg_bytes = serialize_u32(order, self.shmseg);
        let offset_bytes = serialize_u32(order, self.offset);
        let r = [
            self.response_type,
            0,
            sequence_bytes[0],
            sequence_bytes[1],
            drawable_bytes[0],
            drawable_bytes[1],
            drawable_bytes[2],
            drawable_bytes[3],
            minor_event_bytes[0],
            minor_event_bytes[1],
            self.major_event,
            0,
            shmseg_bytes[0],
            shmseg_bytes[1],
            shmseg_bytes[2],
            shmseg_bytes[3],
            offset_bytes[0],
            offset_bytes[1],
            offset_bytes[2],
            offset_bytes[3],
            // trailing padding
            0,
            0,
            0,
            0,
            0,
            0,
            0,
            0,
            0,
            0,
            0,
            0,
        ];
        assert(r@ =~= completion_event_bytes(order, *self));
        r
    }

    /// Reads a Completion event from a delimited buffer.
    pub fn try_from(order: ByteOrder, value: &[u8]) -> (r: Result<Self, ParseError>)
        ensures
            r.is_ok() <==> value@.len() >= 32,
            r.is_ok() ==> r.unwrap() == completion_event_value(order, value@),
    {
        Ok(Self::try_parse(order, value)?.0)
    }
}

/// Decoding the 32 bytes of a Completion event gives the event back.
pub proof fn lemma_completion_event_roundtrip(order: ByteOrder, e: CompletionEvent, tail: Seq<u8>)
    ensures
        completion_event_bytes(order, e).len() == 32,
        completion_event_value(order, completion_event_bytes(order, e) + tail) == e,
{
    let b = completion_event_bytes(order, e) + tail;
    lemma_u16_roundtrip(order, e.sequence, b.skip(4));
    assert(b.skip(2) =~= u16_bytes(order, e.sequence) + b.skip(4));
    lemma_u32_roundtrip(order, e.drawable, b.skip(8));
    assert(b.skip(4) =~= u32_bytes(order, e.drawable) + b.skip(8));
    lemma_u16_roundtrip(order, e.minor_event, b.skip(10));
    assert(b.skip(8) =~= u16_bytes(order, e.minor_event) + b.skip(10));
    lemma_u32_roundtrip(order, e.shmseg, b.skip(16));
    assert(b.skip(12) =~= u32_bytes(order, e.shmseg) + b.skip(16));
    lemma_u32_roundtrip(order, e.offset, b.skip(20));
    assert(b.skip(16) =~= u32_bytes(order, e.offset) + b.skip(20));
}

/// Opcode for the BadSeg error
pub const BAD_SEG_ERROR: u8 = 0;

/// Opcode for the QueryVersion request
pub const QUERY_VERSION_REQUEST: u8 = 0;

/// The reply to a QueryVersion request.
#[derive(Debug, Clone, Copy, PartialEq, Eq, Structural)]
pub struct QueryVersionReply {
    pub response_type: u8,
    pub shared_pixmaps: bool,
    pub sequence: u16,
    pub length: u32,
    pub major_version: u16,
    pub minor_version: u16,
    pub uid: u16,
    pub gid: u16,
    pub pixmap_format: u8,
}

/// The QueryVersion reply that the first 17 bytes of `b` hold.
pub open spec fn query_version_reply_value(order: ByteOrder, b: Seq<u8>) -> QueryVersionReply
    recommends
        b.len() >= 17,
{
    QueryVersionReply {
        response_type: b[0],
        shared_pixmaps: bool_value(b[1]),
        sequence: u16_value(order, b.skip(2)),
        length: u32_value(order, b.skip(4)),
        major_version: u16_value(order, b.skip(8)),
        minor_version: u16_value(order, b.skip(10)),
        uid: u16_value(order, b.skip(12)),
        gid: u16_value(order, b.skip(14)),
        pixmap_format: b[16],
    }
}

impl QueryVersionReply {
    /// Reads a QueryVersion reply, fifteen unused bytes included, from the
    /// front of `remaining`.
    pub fn try_parse(order: ByteOrder, remaining: &[u8]) -> (r: Result<(Self, &[u8]), ParseError>)
        ensures
            r.is_ok() <==> remaining@.len() >= 32,
            r.is_ok() ==> r.unwrap().0 == query_version_reply_value(order, remaining@)
                && r.unwrap().1@ == remaining@.skip(32),
    {
        let input = remaining;
        let (response_type, remaining) = parse_u8(remaining)?;
        let (shared_pixmaps, remaining) = parse_bool(remaining)?;
        assert(remaining@ =~= input@.skip(2));
        let (sequence, remaining) = parse_u16(order, remaining)?;
        assert(remaining@ =~= input@.skip(4));
        let (length, remaining) = parse_u32(order, remaining)?;
        assert(remaining@ =~= input@.skip(8));
        let (major_version, remaining) = parse_u16(order, remaining)?;
        assert(remaining@ =~= input@.skip(10));
        let (minor_version, remaining) = parse_u16(order, remaining)?;
        assert(remaining@ =~= input@.skip(12));
        let (uid, remaining) = parse_u16(order, remaining)?;
        assert(remaining@ =~= input@.skip(14));
        let (gid, remaining) = parse_u16(order, remaining)?;
        assert(remaining@ =~= input@.skip(16));
        let (pixmap_format, remaining) = parse_u8(remaining)?;
        let remaining = skip(remaining, 15)?;
        assert(remaining@ =~= input@.skip(32));
        let result = QueryVersionReply {
            response_type,
            shared_pixmaps,
            sequence,
            length,
            major_version,
            minor_version,
            uid,
            gid,
            pixmap_format,
        };
        Ok((result, remaining))
    }

    /// Reads a QueryVersion reply from a delimited buffer.
    pub fn try_from(order: ByteOrder, value: &[u8]) -> (r: Result<Self, ParseError>)
        ensures
            r.is_ok() <==> value@.len() >= 32,
            r.is_ok() ==> r.unwrap() == query_version_reply_value(order, value@),
    {
        Ok(Self::try_parse(order, value)?.0)
    }
}

/// Opcode for the Attach request
pub const ATTACH_REQUEST: u8 = 1;

/// Opcode for the Detach request
pub const DETACH_REQUEST: u8 = 2;

/// Opcode for the PutImage request
pub const PUT_IMAGE_REQUEST: u8 = 3;

/// Opcode for the GetImage request
pub const GET_IMAGE_REQUEST: u8 = 4;

/// The reply to a GetImage request.
#[derive(Debug, Clone, Copy, PartialEq, Eq, Structural)]
pub struct GetImageReply {
    pub response_type: u8,
    pub depth: u8,
    pub sequence: u16,
    pub length: u32,
    pub visual: Visualid,
    pub size: u32,
}

/// The GetImage reply that the first 16 bytes of `b` hold.
pub open spec fn get_image_reply_value(order: ByteOrder, b: Seq<u8>) -> GetImageReply
    recommends
        b.len() >= 16,
{
    GetImageReply {
        response_type: b[0],
        depth: b[1],
        sequence: u16_value(order, b.skip(2)),
        length: u32_value(order, b.skip(4)),
        visual: u32_value(order, b.skip(8)),
        size: u32_value(order, b.skip(12)),
    }
}

impl GetImageReply {
    /// Reads a GetImage reply, its sixteen unused bytes included, from the
    /// front of `remaining` and returns it with the bytes that follow the
    /// reply's 32.
    pub fn try_parse(order: ByteOrder, remaining: &[u8]) -> (r: Result<(Self, &[u8]), ParseError>)
        ensures
            r.is_ok() <==> remaining@.len() >= 32,
            r.is_ok() ==> r.unwrap().0 == get_image_reply_value(order, remaining@)
                && r.unwrap().1@ == remaining@.skip(32),
    {
        let input = remaining;
        let (response_type, remaining) = parse_u8(remaining)?;
        let (depth, remaining) = parse_u8(remaining)?;
        assert(remaining@ =~= input@.skip(2));
        let (sequence, remaining) = parse_u16(order, remaining)?;
        assert(remaining@ =~= input@.skip(4));
        let (length, remaining) = parse_u32(order, remaining)?;
        assert(remaining@ =~= input@.skip(8));
        let (visual, remaining) = parse_u32(order, remaining)?;
        assert(remaining@ =~= input@.skip(12));
        let (size, remaining) = parse_u32(order, remaining)?;
        assert(remaining@ =~= input@.skip(16));
        let remaining = skip(remaining, 16)?;
        assert(remaining@ =~= input@.skip(32));
        let result = GetImageReply { response_type, depth, sequence, length, visual, size };
        Ok((result, remaining))
    }

    /// Reads a GetImage reply from a delimited buffer.
    pub fn try_from(order: ByteOrder, value: &[u8]) -> (r: Result<Self, ParseError>)
        ensures
            r.is_ok() <==> value@.len() >= 32,
            r.is_ok() ==> r.unwrap() == get_image_reply_value(order, value@),
    {
        Ok(Self::try_parse(order, value)?.0)
    }
}

/// Opcode for the CreatePixmap request
pub const CREATE_PIXMAP_REQUEST: u8 = 5;

/// Opcode for the AttachFd request
pub const ATTACH_FD_REQUEST: u8 = 6;

/// Opcode for the CreateSegment request
pub const CREATE_SEGMENT_REQUEST: u8 = 7;

/// The reply to a CreateSegment request, with the segment's descriptor.
#[derive(Debug, PartialEq, Eq)]
pub struct CreateSegmentReply {
    pub response_type: u8,
    pub nfd: u8,
    pub sequence: u16,
    pub length: u32,
    pub shm_fd: RawFdContainer,
}

/// The CreateSegment reply that the first eight bytes of `b` hold, with
/// the descriptor that came with it.
pub open spec fn create_segment_reply_value(
    order: ByteOrder,
    b: Seq<u8>,
    shm_fd: RawFdContainer,
) -> CreateSegmentReply
    recommends
        b.len() >= 8,
{
    CreateSegmentReply {
        response_type: b[0],
        nfd: b[1],
        sequence: u16_value(order, b.skip(2)),
        length: u32_value(order, b.skip(4)),
        shm_fd,
    }
}

impl CreateSegmentReply {
    /// Reads a CreateSegment reply from the front of `remaining` and takes
    /// its descriptor from the front of `fds`. Where the reply cannot be
    /// read, or no descriptor is there, `fds` is left as it was, so that
    /// its owner can still close what it holds.
    pub fn try_parse_fd<'a>(
        order: ByteOrder,
        remaining: &'a [u8],
        fds: &mut Vec<RawFdContainer>,
    ) -> (r: Result<(Self, &'a [u8]), ParseError>)
        ensures
            r.is_ok() <==> remaining@.len() >= 32 && old(fds)@.len() >= 1,
            r.is_ok() ==> r.unwrap().0 == create_segment_reply_value(
                order,
                remaining@,
                old(fds)@[0],
            ) && r.unwrap().1@ == remaining@.skip(32),
            final(fds)@ == if r.is_ok() {
                old(fds)@.skip(1)
            } else {
                old(fds)@
            },
    {
        let input = remaining;
        let (response_type, remaining) = parse_u8(remaining)?;
        let (nfd, remaining) = parse_u8(remaining)?;
        assert(remaining@ =~= input@.skip(2));
        let (sequence, remaining) = parse_u16(order, remaining)?;
        assert(remaining@ =~= input@.skip(4));
        let (length, remaining) = parse_u32(order, remaining)?;
        assert(remaining@ =~= input@.skip(8));
        let remaining = skip(remaining, 24)?;
        assert(remaining@ =~= input@.skip(32));
        if fds.len() == 0 {
            return Err(ParseError::ParseError);
        }
        let shm_fd = fds.remove(0);
        assert(fds@ =~= old(fds)@.skip(1));
        let result = CreateSegmentReply { response_type, nfd, sequence, length, shm_fd };
        Ok((result, remaining))
    }

    /// Reads a CreateSegment reply from a delimited buffer and the
    /// descriptors that arrived with it. The reply's layout declares one
    /// descriptor: any other number is a parse failure. The descriptors
    /// go with the call; who has to close them on a failure reads with
    /// [`CreateSegmentReply::try_parse_fd`], which leaves them in place.
    pub fn try_from(order: ByteOrder, value: &[u8], fds: Vec<RawFdContainer>) -> (r: Result<
        Self,
        ParseError,
    >)
        ensures
            r.is_ok() <==> value@.len() >= 32 && fds@.len() == 1,
            r.is_ok() ==> r.unwrap() == create_segment_reply_value(order, value@, fds@[0]),
    {
        let mut fds = fds;
        if fds.len() != 1 {
            return Err(ParseError::ParseError);
        }
        Ok(Self::try_parse_fd(order, value, &mut fds)?.0)
    }
}

/// The bytes of a QueryVersion request.
pub open spec fn query_version_request_bytes(order: ByteOrder, major_opcode: u8) -> Seq<u8> {
    request_bytes(order, major_opcode, QUERY_VERSION_REQUEST, Seq::empty())
}

/// Encodes a QueryVersion request: the header alone.
pub fn query_version_request(order: ByteOrder, major_opcode: u8) -> (r: Vec<u8>)
    ensures
        r@ == query_version_request_bytes(order, major_opcode),
        r@.len() == 4,
{
    let body: Vec<u8> = Vec::new();
    assert(body@ =~= Seq::<u8>::empty());
    build_request(order, major_opcode, QUERY_VERSION_REQUEST, body.as_slice())
}

/// The body of an Attach request.
pub open spec fn attach_body(order: ByteOrder, shmseg: Seg, shmid: u32, read_only: bool) -> Seq<
    u8,
> {
    u32_bytes(order, shmseg) + u32_bytes(order, shmid) + bool_bytes(read_only) + zeros(3)
}

/// The bytes of an Attach request.
pub open spec fn attach_request_bytes(
    order: ByteOrder,
    major_opcode: u8,
    shmseg: Seg,
    shmid: u32,
    read_only: bool,
) -> Seq<u8> {
    request_bytes(order, major_opcode, ATTACH_REQUEST, attach_body(order, shmseg, shmid, read_only))
}

/// Encodes an Attach request.
pub fn attach_request(
    order: ByteOrder,
    major_opcode: u8,
    shmseg: Seg,
    shmid: u32,
    read_only: bool,
) -> (r: Vec<u8>)
    ensures
        r@ == attach_request_bytes(order, major_opcode, shmseg, shmid, read_only),
        r@.len() == 16,
{
    let mut body: Vec<u8> = Vec::new();
    append(&mut body, serialize_u32(order, shmseg).as_slice());
    append(&mut body, serialize_u32(order, shmid).as_slice());
    append(&mut body, serialize_bool(read_only).as_slice());
    append_zeros(&mut body, 3);
    assert(body@ =~= attach_body(order, shmseg, shmid, read_only));
    build_request(order, major_opcode, ATTACH_REQUEST, body.as_slice())
}

/// The bytes of a Detach request.
pub open spec fn detach_request_bytes(order: ByteOrder, major_opcode: u8, shmseg: Seg) -> Seq<u8> {
    request_bytes(order, major_opcode, DETACH_REQUEST, u32_bytes(order, shmseg))
}

/// Encodes a Detach request.
pub fn detach_request(order: ByteOrder, major_opcode: u8, shmseg: Seg) -> (r: Vec<u8>)
    ensures
        r@ == detach_request_bytes(order, major_opcode, shmseg),
        r@.len() == 8,
{
    let mut body: Vec<u8> = Vec::new();
    append(&mut body, serialize_u32(order, shmseg).as_slice());
    assert(body@ =~= u32_bytes(order, shmseg));
    build_request(order, major_opcode, DETACH_REQUEST, body.as_slice())
}

/// The fields of a PutImage request.
#[derive(Debug, Clone, Copy, PartialEq, Eq)]
pub struct PutImage {
    pub drawable: Drawable,
    pub gc: Gcontext,
    pub total_width: u16,
    pub total_height: u16,
    pub src_x: u16,
    pub src_y: u16,
    pub src_width: u16,
    pub src_height: u16,
    pub dst_x: i16,
    pub dst_y: i16,
    pub depth: u8,
    pub format: u8,
    pub send_event: bool,
    pub shmseg: Seg,
    pub offset: u32,
}

/// The body of a PutImage request.
pub open spec fn put_image_body(order: ByteOrder, p: PutImage) -> Seq<u8> {
    u32_bytes(order, p.drawable) + u32_bytes(order, p.gc) + u16_bytes(order, p.total_width)
        + u16_bytes(order, p.total_height) + u16_bytes(order, p.src_x) + u16_bytes(order, p.src_y)
        + u16_bytes(order, p.src_width) + u16_bytes(order, p.src_height) + i16_bytes(
        order,
        p.dst_x,
    ) + i16_bytes(order, p.dst_y) + seq![p.depth, p.format] + bool_bytes(p.send_event) + zeros(1)
        + u32_bytes(order, p.shmseg) + u32_bytes(order, p.offset)
}

/// The bytes of a PutImage request.
pub open spec fn put_image_request_bytes(order: ByteOrder, major_opcode: u8, p: PutImage) -> Seq<
    u8,
> {
    request_bytes(order, major_opcode, PUT_IMAGE_REQUEST, put_image_body(order, p))
}

/// Encodes a PutImage request.
pub fn put_image_request(order: ByteOrder, major_opcode: u8, p: &PutImage) -> (r: Vec<u8>)
    ensures
        r@ == put_image_request_bytes(order, major_opcode, *p),
        r@.len() == 40,
{
    let mut body: Vec<u8> = Vec::new();
    append(&mut body, serialize_u32(order, p.drawable).as_slice());
    append(&mut body, serialize_u32(order, p.gc).as_slice());
    append(&mut body, serialize_u16(order, p.total_width).as_slice());
    append(&mut body, serialize_u16(order, p.total_height).as_slice());
    append(&mut body, serialize_u16(order, p.src_x).as_slice());
    append(&mut body, serialize_u16(order, p.src_y).as_slice());
    append(&mut body, serialize_u16(order, p.src_width).as_slice());
    append(&mut body, serialize_u16(order, p.src_height).as_slice());
    append(&mut body, serialize_i16(order, p.dst_x).as_slice());
    append(&mut body, serialize_i16(order, p.dst_y).as_slice());
    body.push(p.depth);
    body.push(p.format);
    append(&mut body, serialize_bool(p.send_event).as_slice());
    append_zeros(&mut body, 1);
    append(&mut body, serialize_u32(order, p.shmseg).as_slice());
    append(&mut body, serialize_u32(order, p.offset).as_slice());
    assert(body@ =~= put_image_body(order, *p));
    build_request(order, major_opcode, PUT_IMAGE_REQUEST, body.as_slice())
}

/// The fields of a GetImage request.
#[derive(Debug, Clone, Copy, PartialEq, Eq)]
pub struct GetImage {
    pub drawable: Drawable,
    pub x: i16,
    pub y: i16,
    pub width: u16,
    pub height: u16,
    pub plane_mask: u32,
    pub format: u8,
    pub shmseg: Seg,
    pub offset: u32,
}

/// The body of a GetImage request.
pub open spec fn get_image_body(order: ByteOrder, g: GetImage) -> Seq<u8> {
    u32_bytes(order, g.drawable) + i16_bytes(order, g.x) + i16_bytes(order, g.y) + u16_bytes(
        order,
        g.width,
    ) + u16_bytes(order, g.height) + u32_bytes(order, g.plane_mask) + seq![g.format] + zeros(3)
        + u32_bytes(order, g.shmseg) + u32_bytes(order, g.offset)
}

/// The bytes of a GetImage request.
pub open spec fn get_image_request_bytes(order: ByteOrder, major_opcode: u8, g: GetImage) -> Seq<
    u8,
> {
    request_bytes(order, major_opcode, GET_IMAGE_REQUEST, get_image_body(order, g))
}

/// Encodes a GetImage request.
pub fn get_image_request(order: ByteOrder, major_opcode: u8, g: &GetImage) -> (r: Vec<u8>)
    ensures
        r@ == get_image_request_bytes(order, major_opcode, *g),
        r@.len() == 32,
{
    let mut body: Vec<u8> = Vec::new();
    append(&mut body, serialize_u32(order, g.drawable).as_slice());
    append(&mut body, serialize_i16(order, g.x).as_slice());
    append(&mut body, serialize_i16(order, g.y).as_slice());
    append(&mut body, serialize_u16(order, g.width).as_slice());
    append(&mut body, serialize_u16(order, g.height).as_slice());
    append(&mut body, serialize_u32(order, g.plane_mask).as_slice());
    body.push(g.format);
    append_zeros(&mut body, 3);
    append(&mut body, serialize_u32(order, g.shmseg).as_slice());
    append(&mut body, serialize_u32(order, g.offset).as_slice());
    assert(body@ =~= get_image_body(order, *g));
    build_request(order, major_opcode, GET_IMAGE_REQUEST, body.as_slice())
}

/// The body of a CreatePixmap request.
pub open spec fn create_pixmap_body(
    order: ByteOrder,
    pid: Pixmap,
    drawable: Drawable,
    width: u16,
    height: u16,
    depth: u8,
    shmseg: Seg,
    offset: u32,
) -> Seq<u8> {
    u32_bytes(order, pid) + u32_bytes(order, drawable) + u16_bytes(order, width) + u16_bytes(
        order,
        height,
    ) + seq![depth] + zeros(3) + u32_bytes(order, shmseg) + u32_bytes(order, offset)
}

/// The bytes of a CreatePixmap request.
pub open spec fn create_pixmap_request_bytes(
    order: ByteOrder,
    major_opcode: u8,
    pid: Pixmap,
    drawable: Drawable,
    width: u16,
    height: u16,
    depth: u8,
    shmseg: Seg,
    offset: u32,
) -> Seq<u8> {
    request_bytes(
        order,
        major_opcode,
        CREATE_PIXMAP_REQUEST,
        create_pixmap_body(order, pid, drawable, width, height, depth, shmseg, offset),
    )
}

/// Encodes a CreatePixmap request.
pub fn create_pixmap_request(
    order: ByteOrder,
    major_opcode: u8,
    pid: Pixmap,
    drawable: Drawable,
    width: u16,
    height: u16,
    depth: u8,
    shmseg: Seg,
    offset: u32,
) -> (r: Vec<u8>)
    ensures
        r@ == create_pixmap_request_bytes(
            order,
            major_opcode,
            pid,
            drawable,
            width,
            height,
            depth,
            shmseg,
            offset,
        ),
        r@.len() == 28,
{
    let mut body: Vec<u8> = Vec::new();
    append(&mut body, serialize_u32(order, pid).as_slice());
    append(&mut body, serialize_u32(order, drawable).as_slice());
    append(&mut body, serialize_u16(order, width).as_slice());
    append(&mut body, serialize_u16(order, height).as_slice());
    body.push(depth);
    append_zeros(&mut body, 3);
    append(&mut body, serialize_u32(order, shmseg).as_slice());
    append(&mut body, serialize_u32(order, offset).as_slice());
    assert(body@ =~= create_pixmap_body(order, pid, drawable, width, height, depth, shmseg, offset));
    build_request(order, major_opcode, CREATE_PIXMAP_REQUEST, body.as_slice())
}

/// The body of an AttachFd request.
pub open spec fn attach_fd_body(order: ByteOrder, shmseg: Seg, read_only: bool) -> Seq<u8> {
    u32_bytes(order, shmseg) + bool_bytes(read_only) + zeros(3)
}

/// The bytes of an AttachFd request.
pub open spec fn attach_fd_request_bytes(
    order: ByteOrder,
    major_opcode: u8,
    shmseg: Seg,
    read_only: bool,
) -> Seq<u8> {
    request_bytes(order, major_opcode, ATTACH_FD_REQUEST, attach_fd_body(order, shmseg, read_only))
}

/// Encodes an AttachFd request; its descriptor travels beside the bytes.
pub fn attach_fd_request(order: ByteOrder, major_opcode: u8, shmseg: Seg, read_only: bool) -> (r:
    Vec<u8>)
    ensures
        r@ == attach_fd_request_bytes(order, major_opcode, shmseg, read_only),
        r@.len() == 12,
{
    let mut body: Vec<u8> = Vec::new();
    append(&mut body, serialize_u32(order, shmseg).as_slice());
    append(&mut body, serialize_bool(read_only).as_slice());
    append_zeros(&mut body, 3);
    assert(body@ =~= attach_fd_body(order, shmseg, read_only));
    build_request(order, major_opcode, ATTACH_FD_REQUEST, body.as_slice())
}

/// The body of a CreateSegment request.
pub open spec fn create_segment_body(order: ByteOrder, shmseg: Seg, size: u32, read_only: bool) -> Seq<
    u8,
> {
    u32_bytes(order, shmseg) + u32_bytes(order, size) + bool_bytes(read_only) + zeros(3)
}

/// The bytes of a CreateSegment request.
pub open spec fn create_segment_request_bytes(
    order: ByteOrder,
    major_opcode: u8,
    shmseg: Seg,
    size: u32,
    read_only: bool,
) -> Seq<u8> {
    request_bytes(
        order,
        major_opcode,
        CREATE_SEGMENT_REQUEST,
        create_segment_body(order, shmseg, size, read_only),
    )
}

/// Encodes a CreateSegment request.
pub fn create_segment_request(
    order: ByteOrder,
    major_opcode: u8,
    shmseg: Seg,
    size: u32,
    read_only: bool,
) -> (r: Vec<u8>)
    ensures
        r@ == create_segment_request_bytes(order, major_opcode, shmseg, size, read_only),
        r@.len() == 16,
{
    let mut body: Vec<u8> = Vec::new();
    append(&mut body, serialize_u32(order, shmseg).as_slice());
    append(&mut body, serialize_u32(order, size).as_slice());
    append(&mut body, serialize_bool(read_only).as_slice());
    append_zeros(&mut body, 3);
    assert(body@ =~= create_segment_body(order, shmseg, size, read_only));
    build_request(order, major_opcode, CREATE_SEGMENT_REQUEST, body.as_slice())
}

/// A request of this extension whose body has `length - 4` bytes is a
/// whole number of four-byte units, `length` bytes long.
proof fn lemma_whole(order: ByteOrder, major: u8, minor: u8, body: Seq<u8>, length: nat)
    requires
        body.len() + 4 == length,
        length % 4 == 0,
        length <= 40,
    ensures
        is_whole_request(order, request_bytes(order, major, minor, body)),
        request_bytes(order, major, minor, body).len() == length,
{
    lemma_request_length(order, major, minor, body);
}

/// A QueryVersion request is one unit.
pub proof fn lemma_query_version_request_is_whole(order: ByteOrder, major_opcode: u8)
    ensures
        is_whole_request(order, query_version_request_bytes(order, major_opcode)),
        query_version_request_bytes(order, major_opcode).len() == 4,
{
    lemma_whole(order, major_opcode, QUERY_VERSION_REQUEST, Seq::empty(), 4);
}

/// An Attach request is four units.
pub proof fn lemma_attach_request_is_whole(
    order: ByteOrder,
    major_opcode: u8,
    shmseg: Seg,
    shmid: u32,
    read_only: bool,
)
    ensures
        is_whole_request(order, attach_request_bytes(order, major_opcode, shmseg, shmid, read_only)),
        attach_request_bytes(order, major_opcode, shmseg, shmid, read_only).len() == 16,
{
    let body = attach_body(order, shmseg, shmid, read_only);
    lemma_whole(order, major_opcode, ATTACH_REQUEST, body, 16);
}

/// A Detach request is two units.
pub proof fn lemma_detach_request_is_whole(order: ByteOrder, major_opcode: u8, shmseg: Seg)
    ensures
        is_whole_request(order, detach_request_bytes(order, major_opcode, shmseg)),
        detach_request_bytes(order, major_opcode, shmseg).len() == 8,
{
    lemma_whole(order, major_opcode, DETACH_REQUEST, u32_bytes(order, shmseg), 8);
}

/// A PutImage request is ten units.
pub proof fn lemma_put_image_request_is_whole(order: ByteOrder, major_opcode: u8, p: PutImage)
    ensures
        is_whole_request(order, put_image_request_bytes(order, major_opcode, p)),
        put_image_request_bytes(order, major_opcode, p).len() == 40,
{
    let body = put_image_body(order, p);
    lemma_whole(order, major_opcode, PUT_IMAGE_REQUEST, body, 40);
}

/// A GetImage request is eight units.
pub proof fn lemma_get_image_request_is_whole(order: ByteOrder, major_opcode: u8, g: GetImage)
    ensures
        is_whole_request(order, get_image_request_bytes(order, major_opcode, g)),
        get_image_request_bytes(order, major_opcode, g).len() == 32,
{
    let body = get_image_body(order, g);
    lemma_whole(order, major_opcode, GET_IMAGE_REQUEST, body, 32);
}

/// A CreatePixmap request is seven units.
pub proof fn lemma_create_pixmap_request_is_whole(
    order: ByteOrder,
    major_opcode: u8,
    pid: Pixmap,
    drawable: Drawable,
    width: u16,
    height: u16,
    depth: u8,
    shmseg: Seg,
    offset: u32,
)
    ensures
        is_whole_request(
            order,
            create_pixmap_request_bytes(
                order,
                major_opcode,
                pid,
                drawable,
                width,
                height,
                depth,
                shmseg,
                offset,
            ),
        ),
        create_pixmap_request_bytes(
            order,
            major_opcode,
            pid,
            drawable,
            width,
            height,
            depth,
            shmseg,
            offset,
        ).len() == 28,
{
    let body = create_pixmap_body(order, pid, drawable, width, height, depth, shmseg, offset);
    lemma_whole(order, major_opcode, CREATE_PIXMAP_REQUEST, body, 28);
}

/// An AttachFd request is three units.
pub proof fn lemma_attach_fd_request_is_whole(
    order: ByteOrder,
    major_opcode: u8,
    shmseg: Seg,
    read_only: bool,
)
    ensures
        is_whole_request(order, attach_fd_request_bytes(order, major_opcode, shmseg, read_only)),
        attach_fd_request_bytes(order, major_opcode, shmseg, read_only).len() == 12,
{
    let body = attach_fd_body(order, shmseg, read_only);
    lemma_whole(order, major_opcode, ATTACH_FD_REQUEST, body, 12);
}

/// A CreateSegment request is four units.
pub proof fn lemma_create_segment_request_is_whole(
    order: ByteOrder,
    major_opcode: u8,
    shmseg: Seg,
    size: u32,
    read_only: bool,
)
    ensures
        is_whole_request(
            order,
            create_segment_request_bytes(order, major_opcode, shmseg, size, read_only),
        ),
        create_segment_request_bytes(order, major_opcode, shmseg, size, read_only).len() == 16,
{
    let body = create_segment_body(order, shmseg, size, read_only);
    lemma_whole(order, major_opcode, CREATE_SEGMENT_REQUEST, body, 16);
}

/// Whether `post` and `r` are what sending a request of this extension
/// from `pre` gives. Where the extension was not resolved on the
/// connection, nothing is sent, the request fails as unsupported, and
/// its descriptors wait to be closed.
/// Else the request, with the major opcode that the server gave to the
/// extension, is sent as any request is.
pub open spec fn shm_sent(
    pre: ConnectionView,
    post: ConnectionView,
    r: Result<u64, ConnectionError>,
    minor_opcode: u8,
    body: Seq<u8>,
    fds: Seq<RawFdContainer>,
    shape: ReplyShape,
) -> bool {
    match pre.extension(X11_EXTENSION_NAME@) {
        Some(info) => sent(
            pre,
            post,
            r,
            request_bytes(pre.order, info.major_opcode, minor_opcode, body),
            fds,
            shape,
        ),
        None => r == Err::<u64, ConnectionError>(ConnectionError::UnsupportedExtension) && post
            == pre.unowned(fds),
    }
}

/// Asks the server for the extension's version.
pub fn query_version(conn: &mut Connection) -> (r: Result<Cookie, ConnectionError>)
    ensures
        shm_sent(
            old(conn)@,
            final(conn)@,
            cookie_number(r),
            QUERY_VERSION_REQUEST,
            Seq::empty(),
            Seq::empty(),
            ReplyShape::Reply,
        ),
{
    let extension_information = match conn.extension_information(X11_EXTENSION_NAME) {
        Some(info) => info,
        None => {
            proof {
                lemma_unowned_nothing(conn@);
            }
            return Err(ConnectionError::UnsupportedExtension);
        },
    };
    let request0 = query_version_request(conn.byte_order(), extension_information.major_opcode);
    conn.send_request_with_reply(request0, Vec::new())
}

/// Attaches the shared-memory segment `shmid` under the name `shmseg`.
pub fn attach(conn: &mut Connection, shmseg: Seg, shmid: u32, read_only: bool) -> (r: Result<
    VoidCookie,
    ConnectionError,
>)
    ensures
        shm_sent(
            old(conn)@,
            final(conn)@,
            void_cookie_number(r),
            ATTACH_REQUEST,
            attach_body(old(conn)@.order, shmseg, shmid, read_only),
            Seq::empty(),
            ReplyShape::NoReply,
        ),
{
    let extension_information = match conn.extension_information(X11_EXTENSION_NAME) {
        Some(info) => info,
        None => {
            proof {
                lemma_unowned_nothing(conn@);
            }
            return Err(ConnectionError::UnsupportedExtension);
        },
    };
    let request0 = attach_request(
        conn.byte_order(),
        extension_information.major_opcode,
        shmseg,
        shmid,
        read_only,
    );
    conn.send_request_without_reply(request0, Vec::new())
}

/// Detaches the segment `shmseg`.
pub fn detach(conn: &mut Connection, shmseg: Seg) -> (r: Result<VoidCookie, ConnectionError>)
    ensures
        shm_sent(
            old(conn)@,
            final(conn)@,
            void_cookie_number(r),
            DETACH_REQUEST,
            u32_bytes(old(conn)@.order, shmseg),
            Seq::empty(),
            ReplyShape::NoReply,
        ),
{
    let extension_information = match conn.extension_information(X11_EXTENSION_NAME) {
        Some(info) => info,
        None => {
            proof {
                lemma_unowned_nothing(conn@);
            }
            return Err(ConnectionError::UnsupportedExtension);
        },
    };
    let request0 = detach_request(conn.byte_order(), extension_information.major_opcode, shmseg);
    conn.send_request_without_reply(request0, Vec::new())
}

/// Draws a part of the image in the segment `shmseg` onto `drawable`.
pub fn put_image(
    conn: &mut Connection,
    drawable: Drawable,
    gc: Gcontext,
    total_width: u16,
    total_height: u16,
    src_x: u16,
    src_y: u16,
    src_width: u16,
    src_height: u16,
    dst_x: i16,
    dst_y: i16,
    depth: u8,
    format: u8,
    send_event: bool,
    shmseg: Seg,
    offset: u32,
) -> (r: Result<VoidCookie, ConnectionError>)
    ensures
        shm_sent(
            old(conn)@,
            final(conn)@,
            void_cookie_number(r),
            PUT_IMAGE_REQUEST,
            put_image_body(
                old(conn)@.order,
                (PutImage {
                    drawable,
                    gc,
                    total_width,
                    total_height,
                    src_x,
                    src_y,
                    src_width,
                    src_height,
                    dst_x,
                    dst_y,
                    depth,
                    format,
                    send_event,
                    shmseg,
                    offset,
                }),
            ),
            Seq::empty(),
            ReplyShape::NoReply,
        ),
{
    let extension_information = match conn.extension_information(X11_EXTENSION_NAME) {
        Some(info) => info,
        None => {
            proof {
                lemma_unowned_nothing(conn@);
            }
            return Err(ConnectionError::UnsupportedExtension);
        },
    };
    let fields = PutImage {
        drawable,
        gc,
        total_width,
        total_height,
        src_x,
        src_y,
        src_width,
        src_height,
        dst_x,
        dst_y,
        depth,
        format,
        send_event,
        shmseg,
        offset,
    };
    let request0 = put_image_request(
        conn.byte_order(),
        extension_information.major_opcode,
        &fields,
    );
    conn.send_request_without_reply(request0, Vec::new())
}

/// Reads a part of `drawable` into the segment `shmseg`.
pub fn get_image(
    conn: &mut Connection,
    drawable: Drawable,
    x: i16,
    y: i16,
    width: u16,
    height: u16,
    plane_mask: u32,
    format: u8,
    shmseg: Seg,
    offset: u32,
) -> (r: Result<Cookie, ConnectionError>)
    ensures
        shm_sent(
            old(conn)@,
            final(conn)@,
            cookie_number(r),
            GET_IMAGE_REQUEST,
            get_image_body(
                old(conn)@.order,
                (GetImage { drawable, x, y, width, height, plane_mask, format, shmseg, offset }),
            ),
            Seq::empty(),
            ReplyShape::Reply,
        ),
{
    let extension_information = match conn.extension_information(X11_EXTENSION_NAME) {
        Some(info) => info,
        None => {
            proof {
                lemma_unowned_nothing(conn@);
            }
            return Err(ConnectionError::UnsupportedExtension);
        },
    };
    let fields = GetImage { drawable, x, y, width, height, plane_mask, format, shmseg, offset };
    let request0 = get_image_request(
        conn.byte_order(),
        extension_information.major_opcode,
        &fields,
    );
    conn.send_request_with_reply(request0, Vec::new())
}

/// Makes the pixmap `pid` of the image in the segment `shmseg`.
pub fn create_pixmap(
    conn: &mut Connection,
    pid: Pixmap,
    drawable: Drawable,
    width: u16,
    height: u16,
    depth: u8,
    shmseg: Seg,
    offset: u32,
) -> (r: Result<VoidCookie, ConnectionError>)
    ensures
        shm_sent(
            old(conn)@,
            final(conn)@,
            void_cookie_number(r),
            CREATE_PIXMAP_REQUEST,
            create_pixmap_body(
                old(conn)@.order,
                pid,
                drawable,
                width,
                height,
                depth,
                shmseg,
                offset,
            ),
            Seq::empty(),
            ReplyShape::NoReply,
        ),
{
    let extension_information = match conn.extension_information(X11_EXTENSION_NAME) {
        Some(info) => info,
        None => {
            proof {
                lemma_unowned_nothing(conn@);
            }
            return Err(ConnectionError::UnsupportedExtension);
        },
    };
    let request0 = create_pixmap_request(
        conn.byte_order(),
        extension_information.major_opcode,
        pid,
        drawable,
        width,
        height,
        depth,
        shmseg,
        offset,
    );
    conn.send_request_without_reply(request0, Vec::new())
}

/// Attaches the segment behind the descriptor `shm_fd` under the name
/// `shmseg`. The descriptor travels with the request.
pub fn attach_fd(conn: &mut Connection, shmseg: Seg, shm_fd: RawFdContainer, read_only: bool) -> (r:
    Result<VoidCookie, ConnectionError>)
    ensures
        shm_sent(
            old(conn)@,
            final(conn)@,
            void_cookie_number(r),
            ATTACH_FD_REQUEST,
            attach_fd_body(old(conn)@.order, shmseg, read_only),
            seq![shm_fd],
            ReplyShape::NoReply,
        ),
{
    let extension_information = match conn.extension_information(X11_EXTENSION_NAME) {
        Some(info) => info,
        None => {
            let mut fds: Vec<RawFdContainer> = Vec::new();
            fds.push(shm_fd);
            assert(fds@ =~= seq![shm_fd]);
            conn.drop_fds(fds);
            return Err(ConnectionError::UnsupportedExtension);
        },
    };
    let request0 = attach_fd_request(
        conn.byte_order(),
        extension_information.major_opcode,
        shmseg,
        read_only,
    );
    let mut fds: Vec<RawFdContainer> = Vec::new();
    fds.push(shm_fd);
    assert(fds@ =~= seq![shm_fd]);
    conn.send_request_without_reply(request0, fds)
}

/// Asks the server to make a segment of `size` bytes and to hand back a
/// descriptor for it.
pub fn create_segment(conn: &mut Connection, shmseg: Seg, size: u32, read_only: bool) -> (r: Result<
    CookieWithFds,
    ConnectionError,
>)
    ensures
        shm_sent(
            old(conn)@,
            final(conn)@,
            cookie_with_fds_number(r),
            CREATE_SEGMENT_REQUEST,
            create_segment_body(old(conn)@.order, shmseg, size, read_only),
            Seq::empty(),
            ReplyShape::ReplyWithFds,
        ),
{
    let extension_information = match conn.extension_information(X11_EXTENSION_NAME) {
        Some(info) => info,
        None => {
            proof {
                lemma_unowned_nothing(conn@);
            }
            return Err(ConnectionError::UnsupportedExtension);
        },
    };
    let request0 = create_segment_request(
        conn.byte_order(),
        extension_information.major_opcode,
        shmseg,
        size,
        read_only,
    );
    conn.send_request_with_reply_with_fds(request0, Vec::new())
}

/// Extension trait defining the requests of this extension.
pub trait ConnectionExt: Sized {
    /// The connection's state as a plain value.
    spec fn state(&self) -> ConnectionView;

    fn shm_query_version(&mut self) -> (r: Result<Cookie, ConnectionError>)
        ensures
            shm_sent(
                old(self).state(),
                final(self).state(),
                cookie_number(r),
                QUERY_VERSION_REQUEST,
                Seq::empty(),
                Seq::empty(),
                ReplyShape::Reply,
            ),
    ;

    fn shm_attach(&mut self, shmseg: Seg, shmid: u32, read_only: bool) -> (r: Result<
        VoidCookie,
        ConnectionError,
    >)
        ensures
            shm_sent(
                old(self).state(),
                final(self).state(),
                void_cookie_number(r),
                ATTACH_REQUEST,
                attach_body(old(self).state().order, shmseg, shmid, read_only),
                Seq::empty(),
                ReplyShape::NoReply,
            ),
    ;

    fn shm_detach(&mut self, shmseg: Seg) -> (r: Result<VoidCookie, ConnectionError>)
        ensures
            shm_sent(
                old(self).state(),
                final(self).state(),
                void_cookie_number(r),
                DETACH_REQUEST,
                u32_bytes(old(self).state().order, shmseg),
                Seq::empty(),
                ReplyShape::NoReply,
            ),
    ;

    fn shm_put_image(
        &mut self,
        drawable: Drawable,
        gc: Gcontext,
        total_width: u16,
        total_height: u16,
        src_x: u16,
        src_y: u16,
        src_width: u16,
        src_height: u16,
        dst_x: i16,
        dst_y: i16,
        depth: u8,
        format: u8,
        send_event: bool,
        shmseg: Seg,
        offset: u32,
    ) -> (r: Result<VoidCookie, ConnectionError>)
        ensures
            shm_sent(
                old(self).state(),
                final(self).state(),
                void_cookie_number(r),
                PUT_IMAGE_REQUEST,
                put_image_body(
                    old(self).state().order,
                    (PutImage {
                        drawable,
                        gc,
                        total_width,
                        total_height,
                        src_x,
                        src_y,
                        src_width,
                        src_height,
                        dst_x,
                        dst_y,
                        depth,
                        format,
                        send_event,
                        shmseg,
                        offset,
                    }),
                ),
                Seq::empty(),
                ReplyShape::NoReply,
            ),
    ;

    fn shm_get_image(
        &mut self,
        drawable: Drawable,
        x: i16,
        y: i16,
        width: u16,
        height: u16,
        plane_mask: u32,
        format: u8,
        shmseg: Seg,
        offset: u32,
    ) -> (r: Result<Cookie, ConnectionError>)
        ensures
            shm_sent(
                old(self).state(),
                final(self).state(),
                cookie_number(r),
                GET_IMAGE_REQUEST,
                get_image_body(
                    old(self).state().order,
                    (GetImage { drawable, x, y, width, height, plane_mask, format, shmseg, offset }),
                ),
                Seq::empty(),
                ReplyShape::Reply,
            ),
    ;

    fn shm_create_pixmap(
        &mut self,
        pid: Pixmap,
        drawable: Drawable,
        width: u16,
        height: u16,
        depth: u8,
        shmseg: Seg,
        offset: u32,
    ) -> (r: Result<VoidCookie, ConnectionError>)
        ensures
            shm_sent(
                old(self).state(),
                final(self).state(),
                void_cookie_number(r),
                CREATE_PIXMAP_REQUEST,
                create_pixmap_body(
                    old(self).state().order,
                    pid,
                    drawable,
                    width,
                    height,
                    depth,
                    shmseg,
                    offset,
                ),
                Seq::empty(),
                ReplyShape::NoReply,
            ),
    ;

    fn shm_attach_fd(&mut self, shmseg: Seg, shm_fd: RawFdContainer, read_only: bool) -> (r: Result<
        VoidCookie,
        ConnectionError,
    >)
        ensures
            shm_sent(
                old(self).state(),
                final(self).state(),
                void_cookie_number(r),
                ATTACH_FD_REQUEST,
                attach_fd_body(old(self).state().order, shmseg, read_only),
                seq![shm_fd],
                ReplyShape::NoReply,
            ),
    ;

    fn shm_create_segment(&mut self, shmseg: Seg, size: u32, read_only: bool) -> (r: Result<
        CookieWithFds,
        ConnectionError,
    >)
        ensures
            shm_sent(
                old(self).state(),
                final(self).state(),
                cookie_with_fds_number(r),
                CREATE_SEGMENT_REQUEST,
                create_segment_body(old(self).state().order, shmseg, size, read_only),
                Seq::empty(),
                ReplyShape::ReplyWithFds,
            ),
    ;
}

impl ConnectionExt for Connection {
    open spec fn state(&self) -> ConnectionView {
        self@
    }

    fn shm_query_version(&mut self) -> (r: Result<Cookie, ConnectionError>) {
        query_version(self)
    }

    fn shm_attach(&mut self, shmseg: Seg, shmid: u32, read_only: bool) -> (r: Result<
        VoidCookie,
        ConnectionError,
    >) {
        attach(self, shmseg, shmid, read_only)
    }

    fn shm_detach(&mut self, shmseg: Seg) -> (r: Result<VoidCookie, ConnectionError>) {
        detach(self, shmseg)
    }

    fn shm_put_image(
        &mut self,
        drawable: Drawable,
        gc: Gcontext,
        total_width: u16,
        total_height: u16,
        src_x: u16,
        src_y: u16,
        src_width: u16,
        src_height: u16,
        dst_x: i16,
        dst_y: i16,
        depth: u8,
        format: u8,
        send_event: bool,
        shmseg: Seg,
        offset: u32,
    ) -> (r: Result<VoidCookie, ConnectionError>) {
        put_image(
            self,
            drawable,
            gc,
            total_width,
            total_height,
            src_x,
            src_y,
            src_width,
            src_height,
            dst_x,
            dst_y,
            depth,
            format,
            send_event,
            shmseg,
            offset,
        )
    }

    fn shm_get_image(
        &mut self,
        drawable: Drawable,
        x: i16,
        y: i16,
        width: u16,
        height: u16,
        plane_mask: u32,
        format: u8,
        shmseg: Seg,
        offset: u32,
    ) -> (r: Result<Cookie, ConnectionError>) {
        get_image(self, drawable, x, y, width, height, plane_mask, format, shmseg, offset)
    }

    fn shm_create_pixmap(
        &mut self,
        pid: Pixmap,
        drawable: Drawable,
        width: u16,
        height: u16,
        depth: u8,
        shmseg: Seg,
        offset: u32,
    ) -> (r: Result<VoidCookie, ConnectionError>) {
        create_pixmap(self, pid, drawable, width, height, depth, shmseg, offset)
    }

    fn shm_attach_fd(&mut self, shmseg: Seg, shm_fd: RawFdContainer, read_only: bool) -> (r: Result<
        VoidCookie,
        ConnectionError,
    >) {
        attach_fd(self, shmseg, shm_fd, read_only)
    }

    fn shm_create_segment(&mut self, shmseg: Seg, size: u32, read_only: bool) -> (r: Result<
        CookieWithFds,
        ConnectionError,
    >) {
        create_segment(self, shmseg, size, read_only)
    }
}

} // verus!
