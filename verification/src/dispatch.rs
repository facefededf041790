//! Dispatcher, the part that needs no state: the kind of an inbound
//! unit, its length, and the event that it decodes to.

use vstd::prelude::*;
use crate::extension::ExtensionInformation;
use crate::shm::completion_event_value;
use crate::shm::CompletionEvent;
use crate::shm::COMPLETION_EVENT;
use crate::wire::u32_value;
use crate::wire::parse_u32;
use crate::wire::skip;
use crate::wire::ByteOrder;
use crate::wire::ParseError;

verus! {

/// The leading byte of an error.
pub const ERROR_TAG: u8 = 0;

/// The leading byte of a reply.
pub const REPLY_TAG: u8 = 1;

/// The leading byte of an event that carries its own length.
pub const GENERIC_EVENT_TAG: u8 = 35;

/// The length of an error, of an event and of a reply's fixed part.
pub const UNIT_HEADER_LENGTH: usize = 32;

/// What an inbound unit is, told from its leading byte.
#[derive(Clone, Copy, Debug, PartialEq, Eq, Structural)]
pub enum UnitKind {
    Error,
    Reply,
    GenericEvent,
    Event,
}

/// The kind of the unit that begins with the byte `tag`.
pub open spec fn unit_kind(tag: u8) -> UnitKind {
    if tag == ERROR_TAG {
        UnitKind::Error
    } else if tag == REPLY_TAG {
        UnitKind::Reply
    } else if tag == GENERIC_EVENT_TAG {
        UnitKind::GenericEvent
    } else {
        UnitKind::Event
    }
}

/// Tells the kind of an inbound unit from its leading byte.
pub fn classify(tag: u8) -> (r: UnitKind)
    ensures
        r == unit_kind(tag),
{
    if tag == ERROR_TAG {
        UnitKind::Error
    } else if tag == REPLY_TAG {
        UnitKind::Reply
    } else if tag == GENERIC_EVENT_TAG {
        UnitKind::GenericEvent
    } else {
        UnitKind::Event
    }
}

/// The whole length of the unit whose first 32 bytes are the front of
/// `header`: 32 bytes, and for a reply or a generic event four more for
/// each unit that bytes 4 to 7 announce.
pub open spec fn unit_length(order: ByteOrder, header: Seq<u8>) -> nat
    recommends
        header.len() >= 32,
{
    match unit_kind(header[0]) {
        UnitKind::Reply | UnitKind::GenericEvent => (32 + 4 * u32_value(order, header.skip(4)))
            as nat,
        _ => 32,
    }
}

/// The whole length of the unit whose first 32 bytes are the front of
/// `header`. Fewer than 32 bytes are a parse failure.
pub fn packet_length(order: ByteOrder, header: &[u8]) -> (r: Result<u64, ParseError>)
    ensures
        r.is_ok() <==> header@.len() >= 32,
        r.is_ok() ==> r.unwrap() == unit_length(order, header@),
{
    if header.len() < 32 {
        return Err(ParseError::ParseError);
    }
    match classify(header[0]) {
        UnitKind::Reply | UnitKind::GenericEvent => {
            let rest = skip(header, 4)?;
            let (extra, _) = parse_u32(order, rest)?;
            Ok(32 + 4 * (extra as u64))
        },
        _ => Ok(32),
    }
}

/// A decoded event.
#[derive(Debug, PartialEq, Eq)]
pub enum Event {
    /// The shared-memory extension's Completion event.
    ShmCompletion(CompletionEvent),
    /// An event that no known extension claims, as it came.
    Unknown(Vec<u8>),
}

/// An event as a plain value.
pub enum EventView {
    ShmCompletion(CompletionEvent),
    Unknown(Seq<u8>),
}

impl View for Event {
    type V = EventView;

    open spec fn view(&self) -> EventView {
        match self {
            Event::ShmCompletion(e) => EventView::ShmCompletion(*e),
            Event::Unknown(bytes) => EventView::Unknown(bytes@),
        }
    }
}

/// Whether `unit` is a Completion event of the shared-memory extension
/// that the server has placed at `shm`: an event of at least the fixed 32
/// bytes whose code without the sent-by-a-client bit is the extension's
/// first event code plus the event's own.
pub open spec fn is_shm_completion(shm: Option<ExtensionInformation>, unit: Seq<u8>) -> bool {
    &&& shm.is_some()
    &&& unit.len() >= 32
    &&& unit_kind(unit[0]) == UnitKind::Event
    &&& unit[0] % 128 == shm.unwrap().first_event + COMPLETION_EVENT
}

/// The event that `unit` decodes to.
pub open spec fn event_value(
    order: ByteOrder,
    shm: Option<ExtensionInformation>,
    unit: Seq<u8>,
) -> EventView {
    if is_shm_completion(shm, unit) {
        EventView::ShmCompletion(completion_event_value(order, unit))
    } else {
        EventView::Unknown(unit)
    }
}

/// Decodes an event, picking its typed form by the event codes that the
/// server gave to the shared-memory extension, where that is resolved.
pub fn decode_event(order: ByteOrder, shm: Option<ExtensionInformation>, unit: Vec<u8>) -> (r:
    Event)
    ensures
        r@ == event_value(order, shm, unit@),
{
    match shm {
        Some(info) => {
            if unit.len() >= 32 {
                let tag: u8 = unit[0];
                let code: u16 = info.first_event as u16 + COMPLETION_EVENT as u16;
                let is_event = match classify(tag) {
                    UnitKind::Event => true,
                    _ => false,
                };
                if is_event && (tag % 128) as u16 == code {
                    match CompletionEvent::try_parse(order, unit.as_slice()) {
                        Ok((event, _)) => { return Event::ShmCompletion(event); },
                        Err(_) => {},
                    }
                }
            }
            Event::Unknown(unit)
        },
        None => Event::Unknown(unit),
    }
}

} // verus!
