//! Connection state: the cookie table, the extension registry, the event
//! queue and the descriptor queues of one connection, with the write side
//! (sending requests) and the read side (dispatching inbound units).
//!
//! The connection does no I/O. Sending a request stages a frame, which the
//! transport takes with [`Connection::next_frame`] and writes; what the
//! transport reads it hands to [`Connection::feed`]. Descriptors that no
//! message will take any more are never dropped here: the transport takes
//! them with [`Connection::take_fds_to_close`] and closes them.

use vstd::prelude::*;
use vstd::multiset::Multiset;
use vstd::string::StringSliceAdditionalSpecFns;
use crate::cookie::full_sequence;
use crate::cookie::held;
use crate::cookie::held_fds;
use crate::cookie::CookieTable;
use crate::cookie::IssueError;
use crate::cookie::Outcome;
use crate::cookie::OutcomeView;
use crate::cookie::ReplyShape;
use crate::cookie::TableView;
use crate::dispatch::classify;
use crate::dispatch::decode_event;
use crate::dispatch::event_value;
use crate::dispatch::packet_length;
use crate::dispatch::unit_kind;
use crate::dispatch::unit_length;
use crate::dispatch::Event;
use crate::dispatch::EventView;
use crate::dispatch::UnitKind;
use crate::extension::ExtensionInformation;
use crate::extension::ExtensionRegistry;
use crate::request::append;
use crate::utils::RawFdContainer;
use crate::wire::parse_u16;
use crate::wire::skip;
use crate::wire::u16_value;
use crate::wire::ByteOrder;
use crate::wire::ParseError;
use crate::xproto::get_input_focus_request;
use crate::xproto::get_input_focus_request_bytes;
use crate::xproto::query_extension_reply_value;
use crate::xproto::query_extension_request;
use crate::xproto::query_extension_request_bytes;
use crate::xproto::QueryExtensionReply;

verus! {

/// Why an operation on the connection failed.
#[derive(Clone, Copy, Debug, PartialEq, Eq, Structural)]
pub enum ConnectionError {
    /// The server does not have the extension, or it was not resolved.
    UnsupportedExtension,
    /// The connection was torn down, or an earlier framing error has made
    /// its byte stream useless.
    ConnectionClosed,
    /// A byte layout was malformed or cut short.
    ParseError,
    /// No fresh sequence number is left.
    SequenceExhausted,
    /// A whole wraparound window of requests is in flight: the oldest
    /// request that still waits for its response is that far behind.
    TooManyPending,
}

/// A request staged for the transport: its bytes and the descriptors that
/// travel with them.
#[derive(Debug, PartialEq, Eq)]
pub struct Frame {
    pub bytes: Vec<u8>,
    pub fds: Vec<RawFdContainer>,
}

/// A frame as a plain value.
pub struct FrameView {
    pub bytes: Seq<u8>,
    pub fds: Seq<RawFdContainer>,
}

impl View for Frame {
    type V = FrameView;

    open spec fn view(&self) -> FrameView {
        FrameView { bytes: self.bytes@, fds: self.fds@ }
    }
}

/// The handle of a request that has no reply.
#[derive(Debug, PartialEq, Eq)]
pub struct VoidCookie {
    sequence_number: u64,
}

/// The handle of a request that has one reply.
#[derive(Debug, PartialEq, Eq)]
pub struct Cookie {
    sequence_number: u64,
}

/// The handle of a request that has one reply with descriptors.
#[derive(Debug, PartialEq, Eq)]
pub struct CookieWithFds {
    sequence_number: u64,
}

impl View for VoidCookie {
    type V = u64;

    closed spec fn view(&self) -> u64 {
        self.sequence_number
    }
}

impl View for Cookie {
    type V = u64;

    closed spec fn view(&self) -> u64 {
        self.sequence_number
    }
}

impl View for CookieWithFds {
    type V = u64;

    closed spec fn view(&self) -> u64 {
        self.sequence_number
    }
}

impl VoidCookie {
    /// The sequence number of the cookie's request.
    pub fn sequence_number(&self) -> (r: u64)
        ensures
            r == self@,
    {
        self.sequence_number
    }
}

impl Cookie {
    /// The sequence number of the cookie's request.
    pub fn sequence_number(&self) -> (r: u64)
        ensures
            r == self@,
    {
        self.sequence_number
    }
}

impl CookieWithFds {
    /// The sequence number of the cookie's request.
    pub fn sequence_number(&self) -> (r: u64)
        ensures
            r == self@,
    {
        self.sequence_number
    }
}

/// The state of one connection.
pub struct Connection {
    order: ByteOrder,
    closed: bool,
    table: CookieTable,
    extensions: ExtensionRegistry,
    events: Vec<Event>,
    frames: Vec<Frame>,
    in_fds: Vec<RawFdContainer>,
    inbound: Vec<u8>,
    to_close: Vec<RawFdContainer>,
}

/// A connection as a plain value.
pub struct ConnectionView {
    pub order: ByteOrder,
    /// Whether the connection was torn down or poisoned.
    pub closed: bool,
    pub table: TableView,
    /// The resolved extensions, by name.
    pub extensions: Map<Seq<char>, ExtensionInformation>,
    /// The events not yet taken, oldest first.
    pub events: Seq<EventView>,
    /// The requests staged for the transport, oldest first.
    pub frames: Seq<FrameView>,
    /// The descriptors received and not yet given to a reply.
    pub in_fds: Seq<RawFdContainer>,
    /// The bytes received that do not yet make a whole unit.
    pub inbound: Seq<u8>,
    /// The descriptors that no message will take any more, for the
    /// transport to close.
    pub to_close: Seq<RawFdContainer>,
}

impl View for Connection {
    type V = ConnectionView;

    closed spec fn view(&self) -> ConnectionView {
        ConnectionView {
            order: self.order,
            closed: self.closed,
            table: self.table@,
            extensions: self.extensions@,
            events: self.events@.map_values(|e: Event| e@),
            frames: self.frames@.map_values(|f: Frame| f@),
            in_fds: self.in_fds@,
            inbound: self.inbound@,
            to_close: self.to_close@,
        }
    }
}

/// The connection error that stands for a refusal of the cookie table.
pub open spec fn issue_error_value(e: IssueError) -> ConnectionError {
    match e {
        IssueError::SequenceExhausted => ConnectionError::SequenceExhausted,
        IssueError::TooManyPending => ConnectionError::TooManyPending,
    }
}

impl ConnectionView {
    /// A fresh connection in the given byte order.
    pub open spec fn fresh(order: ByteOrder) -> ConnectionView {
        ConnectionView {
            order,
            closed: false,
            table: TableView { next_sequence: 1, entries: Seq::empty() },
            extensions: Map::empty(),
            events: Seq::empty(),
            frames: Seq::empty(),
            in_fds: Seq::empty(),
            inbound: Seq::empty(),
            to_close: Seq::empty(),
        }
    }

    /// The connection after descriptors were left without a message to
    /// travel with: they wait for the transport to close them.
    pub open spec fn unowned(self, fds: Seq<RawFdContainer>) -> ConnectionView {
        ConnectionView { to_close: self.to_close + fds, ..self }
    }

    /// Why no request can be sent now, if none can.
    pub open spec fn send_error(self) -> Option<ConnectionError> {
        if self.closed {
            Some(ConnectionError::ConnectionClosed)
        } else {
            match self.table.issue_error() {
                Some(e) => Some(issue_error_value(e)),
                None => None,
            }
        }
    }

    /// The connection after a request was sent: the request has the next
    /// sequence number and a pending entry, and its frame is staged behind
    /// those staged before.
    pub open spec fn send(
        self,
        bytes: Seq<u8>,
        fds: Seq<RawFdContainer>,
        shape: ReplyShape,
    ) -> ConnectionView {
        ConnectionView {
            table: self.table.issue(shape),
            frames: self.frames.push(FrameView { bytes, fds }),
            ..self
        }
    }

    /// The connection after a fatal error or a teardown: closed, with
    /// every pending entry gone. The descriptors of replies that nobody
    /// took, and those received that no reply has taken, wait for the
    /// transport to close them.
    pub open spec fn shut(self) -> ConnectionView {
        ConnectionView {
            closed: true,
            table: TableView { entries: Seq::empty(), ..self.table },
            in_fds: Seq::empty(),
            to_close: self.to_close + held_fds(self.table.entries) + self.in_fds,
            ..self
        }
    }

    /// Every descriptor that the read side holds, whatever the order:
    /// those waiting to be closed, those of replies that nobody has taken
    /// yet, and those received that wait for their reply.
    pub open spec fn owned(self) -> Multiset<RawFdContainer> {
        self.to_close.to_multiset().add(held(self.table.entries)).add(self.in_fds.to_multiset())
    }

    /// The connection after the response with the given outcome was
    /// recorded for `sequence`. The descriptors of a response that no
    /// entry takes wait for the transport to close them.
    pub open spec fn completed(self, sequence: u64, outcome: OutcomeView) -> ConnectionView {
        ConnectionView {
            table: self.table.complete(sequence, outcome),
            to_close: self.to_close + self.table.dropped_on_complete(sequence, outcome),
            ..self
        }
    }

    /// What is known of the extension `name`, if it was resolved.
    pub open spec fn extension(self, name: Seq<char>) -> Option<ExtensionInformation> {
        if self.extensions.contains_key(name) {
            Some(self.extensions[name])
        } else {
            None
        }
    }

    /// The full sequence number that the unit's 16-bit echo stands for.
    pub open spec fn echoed_sequence(self, unit: Seq<u8>) -> Option<u64> {
        full_sequence(self.table.next_sequence, u16_value(self.order, unit.skip(2)))
    }

    /// The connection after an error arrived: the error becomes the
    /// outcome of the request that it is tagged for, if that is pending.
    pub open spec fn deliver_error(self, unit: Seq<u8>) -> ConnectionView {
        match self.echoed_sequence(unit) {
            Some(sequence) => self.completed(sequence, OutcomeView::Error(unit)),
            None => self,
        }
    }

    /// The connection after a reply arrived. A request that waits for a
    /// reply with descriptors takes as many from the front of the inbound
    /// queue as byte 1 of the reply declares; where the queue holds fewer,
    /// the connection is poisoned. Where the cookie was given up, the
    /// descriptors taken wait to be closed.
    pub open spec fn deliver_reply(self, unit: Seq<u8>) -> ConnectionView {
        match self.echoed_sequence(unit) {
            Some(sequence) => match self.table.awaited(sequence) {
                Some(ReplyShape::ReplyWithFds) => {
                    let declared = unit[1] as int;
                    if self.in_fds.len() < declared {
                        self.shut()
                    } else {
                        (ConnectionView { in_fds: self.in_fds.skip(declared), ..self }).completed(
                            sequence,
                            OutcomeView::Reply(unit, self.in_fds.take(declared)),
                        )
                    }
                },
                Some(ReplyShape::Reply) => self.completed(
                    sequence,
                    OutcomeView::Reply(unit, Seq::empty()),
                ),
                _ => self.completed(sequence, OutcomeView::Succeeded),
            },
            None => self,
        }
    }

    /// The connection after an event arrived: the decoded event stands
    /// last in the queue.
    pub open spec fn deliver_event(self, unit: Seq<u8>) -> ConnectionView {
        ConnectionView {
            events: self.events.push(
                event_value(self.order, self.extension(crate::shm::X11_EXTENSION_NAME@), unit),
            ),
            ..self
        }
    }

    /// The connection after one whole inbound unit was dispatched.
    pub open spec fn dispatch(self, unit: Seq<u8>) -> ConnectionView
        recommends
            unit.len() >= 32,
    {
        match unit_kind(unit[0]) {
            UnitKind::Error => self.deliver_error(unit),
            UnitKind::Reply => self.deliver_reply(unit),
            _ => self.deliver_event(unit),
        }
    }

    /// Whether the received bytes begin with a whole unit.
    pub open spec fn has_unit(self) -> bool {
        self.inbound.len() >= 32 && unit_length(self.order, self.inbound) <= self.inbound.len()
    }

    /// The connection after `bytes` arrived behind the bytes that wait for
    /// the rest of their unit.
    pub open spec fn received(self, bytes: Seq<u8>) -> ConnectionView {
        ConnectionView { inbound: self.inbound + bytes, ..self }
    }

    /// The connection after every whole unit among the received bytes was
    /// dispatched, in order, up to the first that poisons it.
    pub open spec fn drain(self) -> ConnectionView
        decreases self.inbound.len(),
    {
        if self.closed || !self.has_unit() {
            self
        } else {
            let total = unit_length(self.order, self.inbound) as int;
            let rest = ConnectionView { inbound: self.inbound.skip(total), ..self };
            rest.dispatch(self.inbound.take(total)).drain()
        }
    }
}

/// Whether `post` and `r` are what sending a request from `pre` gives.
/// Where nothing can be sent: the error, and no change but that the
/// request's descriptors wait to be closed. Else the request's sequence
/// number and the connection after the send.
pub open spec fn sent(
    pre: ConnectionView,
    post: ConnectionView,
    r: Result<u64, ConnectionError>,
    bytes: Seq<u8>,
    fds: Seq<RawFdContainer>,
    shape: ReplyShape,
) -> bool {
    match pre.send_error() {
        Some(e) => r == Err::<u64, ConnectionError>(e) && post == pre.unowned(fds),
        None => r == Ok::<u64, ConnectionError>(pre.table.next_sequence) && post == pre.send(
            bytes,
            fds,
            shape,
        ),
    }
}

impl Connection {
    /// A fresh connection in the given byte order: nothing sent, nothing
    /// received, no extension resolved.
    pub fn new(order: ByteOrder) -> (r: Self)
        ensures
            r@ == ConnectionView::fresh(order),
            r@.table.wf(),
    {
        let r = Connection {
            order,
            closed: false,
            table: CookieTable::new(),
            extensions: ExtensionRegistry::new(),
            events: Vec::new(),
            frames: Vec::new(),
            in_fds: Vec::new(),
            inbound: Vec::new(),
            to_close: Vec::new(),
        };
        assert(r@.events =~= Seq::empty());
        assert(r@.frames =~= Seq::empty());
        r
    }

    /// A connection on which the requests before `next_sequence` were
    /// sent and answered already: nothing is pending, and the next request
    /// gets that sequence number.
    pub fn resumed(order: ByteOrder, next_sequence: u64) -> (r: Self)
        ensures
            r@ == (ConnectionView {
                table: TableView { next_sequence, entries: Seq::empty() },
                ..ConnectionView::fresh(order)
            }),
            next_sequence >= 1 ==> r@.table.wf(),
    {
        let r = Connection {
            order,
            closed: false,
            table: CookieTable::starting_at(next_sequence),
            extensions: ExtensionRegistry::new(),
            events: Vec::new(),
            frames: Vec::new(),
            in_fds: Vec::new(),
            inbound: Vec::new(),
            to_close: Vec::new(),
        };
        assert(r@.events =~= Seq::empty());
        assert(r@.frames =~= Seq::empty());
        r
    }

    /// The sequence number that the next request will get.
    pub fn next_sequence(&self) -> (r: u64)
        ensures
            r == self@.table.next_sequence,
    {
        self.table.next_sequence()
    }

    /// The number of requests whose outcome was neither taken nor given
    /// up.
    pub fn pending(&self) -> (r: usize)
        ensures
            r == self@.table.entries.len(),
    {
        self.table.len()
    }

    /// The number of descriptors received and not yet given to a reply.
    pub fn queued_fds(&self) -> (r: usize)
        ensures
            r == self@.in_fds.len(),
    {
        self.in_fds.len()
    }

    /// The connection's byte order.
    pub fn byte_order(&self) -> (r: ByteOrder)
        ensures
            r == self@.order,
    {
        self.order
    }

    /// Whether the connection was torn down or poisoned.
    pub fn is_closed(&self) -> (r: bool)
        ensures
            r == self@.closed,
    {
        self.closed
    }

    /// Takes charge of descriptors that no message will take any more,
    /// until the transport takes them to close them.
    pub fn drop_fds(&mut self, fds: Vec<RawFdContainer>)
        ensures
            final(self)@ == old(self)@.unowned(fds@),
    {
        let mut fds = fds;
        self.to_close.append(&mut fds);
    }

    /// Hands over, for closing, the descriptors that no message will take
    /// any more: those of requests that were refused, of replies that
    /// were given up or never taken, and those that were still queued
    /// when the connection was closed.
    pub fn take_fds_to_close(&mut self) -> (r: Vec<RawFdContainer>)
        ensures
            r@ == old(self)@.to_close,
            final(self)@ == (ConnectionView { to_close: Seq::empty(), ..old(self)@ }),
    {
        let all = self.to_close.len();
        let r = split_front(&mut self.to_close, all);
        assert(r@ =~= old(self)@.to_close);
        assert(self@.to_close =~= Seq::empty());
        r
    }

    /// Gives the request the next sequence number, records it as pending
    /// and stages its frame.
    fn send(&mut self, bytes: Vec<u8>, fds: Vec<RawFdContainer>, shape: ReplyShape) -> (r: Result<
        u64,
        ConnectionError,
    >)
        ensures
            sent(old(self)@, final(self)@, r, bytes@, fds@, shape),
            old(self)@.table.wf() ==> final(self)@.table.wf(),
    {
        if self.closed {
            self.drop_fds(fds);
            return Err(ConnectionError::ConnectionClosed);
        }
        match self.table.issue(shape) {
            Ok(sequence) => {
                self.frames.push(Frame { bytes, fds });
                assert(self@.frames =~= old(self)@.frames.push(FrameView { bytes: bytes@, fds: fds@ }));
                Ok(sequence)
            },
            Err(IssueError::SequenceExhausted) => {
                self.drop_fds(fds);
                Err(ConnectionError::SequenceExhausted)
            },
            Err(IssueError::TooManyPending) => {
                self.drop_fds(fds);
                Err(ConnectionError::TooManyPending)
            },
        }
    }

    /// Sends a request that has no reply. The descriptors are staged with
    /// the request's bytes, in the order given.
    pub fn send_request_without_reply(&mut self, bytes: Vec<u8>, fds: Vec<RawFdContainer>) -> (r:
        Result<VoidCookie, ConnectionError>)
        ensures
            sent(
                old(self)@,
                final(self)@,
                void_cookie_number(r),
                bytes@,
                fds@,
                ReplyShape::NoReply,
            ),
            old(self)@.table.wf() ==> final(self)@.table.wf(),
    {
        match self.send(bytes, fds, ReplyShape::NoReply) {
            Ok(sequence_number) => Ok(VoidCookie { sequence_number }),
            Err(e) => Err(e),
        }
    }

    /// Sends a request that has one reply.
    pub fn send_request_with_reply(&mut self, bytes: Vec<u8>, fds: Vec<RawFdContainer>) -> (r:
        Result<Cookie, ConnectionError>)
        ensures
            sent(
                old(self)@,
                final(self)@,
                cookie_number(r),
                bytes@,
                fds@,
                ReplyShape::Reply,
            ),
            old(self)@.table.wf() ==> final(self)@.table.wf(),
    {
        match self.send(bytes, fds, ReplyShape::Reply) {
            Ok(sequence_number) => Ok(Cookie { sequence_number }),
            Err(e) => Err(e),
        }
    }

    /// Sends a request that has one reply with descriptors.
    pub fn send_request_with_reply_with_fds(
        &mut self,
        bytes: Vec<u8>,
        fds: Vec<RawFdContainer>,
    ) -> (r: Result<CookieWithFds, ConnectionError>)
        ensures
            sent(
                old(self)@,
                final(self)@,
                cookie_with_fds_number(r),
                bytes@,
                fds@,
                ReplyShape::ReplyWithFds,
            ),
            old(self)@.table.wf() ==> final(self)@.table.wf(),
    {
        match self.send(bytes, fds, ReplyShape::ReplyWithFds) {
            Ok(sequence_number) => Ok(CookieWithFds { sequence_number }),
            Err(e) => Err(e),
        }
    }

    /// Takes the oldest staged frame for writing: its bytes and exactly
    /// the descriptors that were sent with it.
    pub fn next_frame(&mut self) -> (r: Option<Frame>)
        ensures
            r.is_some() <==> old(self)@.frames.len() > 0,
            r.is_some() ==> r.unwrap()@ == old(self)@.frames[0] && final(self)@ == (ConnectionView {
                frames: old(self)@.frames.skip(1),
                ..old(self)@
            }),
            r.is_none() ==> final(self)@ == old(self)@,
    {
        if self.frames.len() == 0 {
            return None;
        }
        let frame = self.frames.remove(0);
        assert(self@.frames =~= old(self)@.frames.skip(1));
        Some(frame)
    }

    /// Queues descriptors that the transport received, behind those
    /// already waiting for their reply. On a closed connection no reply
    /// will take them, so they wait to be closed.
    pub fn receive_fds(&mut self, fds: Vec<RawFdContainer>)
        ensures
            final(self)@ == if old(self)@.closed {
                old(self)@.unowned(fds@)
            } else {
                ConnectionView { in_fds: old(self)@.in_fds + fds@, ..old(self)@ }
            },
    {
        let mut fds = fds;
        if self.closed {
            self.to_close.append(&mut fds);
        } else {
            self.in_fds.append(&mut fds);
        }
    }

    /// Takes the oldest event, if one is queued.
    pub fn poll_for_event(&mut self) -> (r: Option<Event>)
        ensures
            r.is_some() <==> old(self)@.events.len() > 0,
            r.is_some() ==> r.unwrap()@ == old(self)@.events[0] && final(self)@ == (ConnectionView {
                events: old(self)@.events.skip(1),
                ..old(self)@
            }),
            r.is_none() ==> final(self)@ == old(self)@,
    {
        if self.events.len() == 0 {
            return None;
        }
        let event = self.events.remove(0);
        assert(self@.events =~= old(self)@.events.skip(1));
        Some(event)
    }
}

/// What a cookie resolved to.
#[derive(Debug, PartialEq, Eq)]
pub enum Resolved {
    /// A request without a reply was carried out.
    Success,
    /// The reply's bytes and its descriptors.
    Reply(Vec<u8>, Vec<RawFdContainer>),
    /// The bytes of the error that the server reported for the request.
    Error(Vec<u8>),
    /// The connection is closed; no outcome will come.
    ConnectionClosed,
}

/// A resolution as a plain value.
pub enum ResolvedView {
    Success,
    Reply(Seq<u8>, Seq<RawFdContainer>),
    Error(Seq<u8>),
    ConnectionClosed,
}

impl View for Resolved {
    type V = ResolvedView;

    open spec fn view(&self) -> ResolvedView {
        match self {
            Resolved::Success => ResolvedView::Success,
            Resolved::Reply(bytes, fds) => ResolvedView::Reply(bytes@, fds@),
            Resolved::Error(bytes) => ResolvedView::Error(bytes@),
            Resolved::ConnectionClosed => ResolvedView::ConnectionClosed,
        }
    }
}

/// The answer to asking for a cookie's outcome: the outcome, or the
/// cookie back where no response has arrived yet.
#[derive(Debug, PartialEq, Eq)]
pub enum Poll<C> {
    Ready(Resolved),
    Pending(C),
}

/// The resolution that an arrived outcome stands for.
pub open spec fn outcome_resolved(outcome: OutcomeView) -> ResolvedView {
    match outcome {
        OutcomeView::Reply(bytes, fds) => ResolvedView::Reply(bytes, fds),
        OutcomeView::Error(bytes) => ResolvedView::Error(bytes),
        _ => ResolvedView::Success,
    }
}

impl ConnectionView {
    /// What the request `sequence` has resolved to, if it has: a
    /// connection failure once the connection is closed, else the outcome
    /// that arrived for it.
    pub open spec fn resolution(self, sequence: u64) -> Option<ResolvedView> {
        if self.closed {
            Some(ResolvedView::ConnectionClosed)
        } else if self.table.ready(sequence) {
            Some(outcome_resolved(self.table.entry(sequence).outcome))
        } else {
            None
        }
    }

    /// The connection after the outcome of `sequence` was asked for: the
    /// entry is freed where its outcome was handed over.
    pub open spec fn polled(self, sequence: u64) -> ConnectionView {
        if !self.closed && self.table.ready(sequence) {
            ConnectionView { table: self.table.without(sequence), ..self }
        } else {
            self
        }
    }
}

/// Takes the first `n` items off the front of `v`.
fn split_front<T>(v: &mut Vec<T>, n: usize) -> (front: Vec<T>)
    requires
        n <= old(v)@.len(),
    ensures
        front@ == old(v)@.take(n as int),
        final(v)@ == old(v)@.skip(n as int),
{
    let mut other = v.split_off(n);
    core::mem::swap(v, &mut other);
    assert(other@ =~= old(v)@.take(n as int));
    assert(v@ =~= old(v)@.skip(n as int));
    other
}

impl Connection {
    /// Closes the connection and frees every pending entry.
    fn shut(&mut self)
        ensures
            final(self)@ == old(self)@.shut(),
            old(self)@.table.wf() ==> final(self)@.table.wf(),
    {
        self.closed = true;
        let mut held = self.table.clear();
        self.to_close.append(&mut held);
        self.to_close.append(&mut self.in_fds);
        assert(self@.frames =~= old(self)@.frames);
    }

    /// Tears the connection down: every pending request resolves to a
    /// connection failure, and nothing more can be sent.
    pub fn close(&mut self)
        ensures
            final(self)@ == old(self)@.shut(),
    {
        self.shut();
    }

    /// Records the response that arrived for `sequence`; the descriptors
    /// of a response that no entry takes wait to be closed.
    fn complete(&mut self, sequence: u64, outcome: Outcome)
        ensures
            final(self)@ == old(self)@.completed(sequence, outcome@),
            old(self)@.table.wf() ==> final(self)@.table.wf(),
    {
        let mut dropped = self.table.complete(sequence, outcome);
        self.to_close.append(&mut dropped);
    }

    /// The full sequence number that the unit's 16-bit echo stands for.
    fn echoed_sequence(&self, unit: &Vec<u8>) -> (r: Option<u64>)
        requires
            unit@.len() >= 4,
        ensures
            r == self@.echoed_sequence(unit@),
    {
        match skip(unit.as_slice(), 2) {
            Ok(rest) => match parse_u16(self.order, rest) {
                Ok((echoed, _)) => self.table.resolve(echoed),
                Err(_) => None,
            },
            Err(_) => None,
        }
    }

    /// Routes one whole inbound unit: a reply or an error to the pending
    /// entry of the request that caused it, an event to the event queue.
    fn dispatch(&mut self, unit: Vec<u8>)
        requires
            unit@.len() >= 32,
        ensures
            final(self)@ == old(self)@.dispatch(unit@),
            old(self)@.table.wf() ==> final(self)@.table.wf(),
    {
        match classify(unit[0]) {
            UnitKind::Error => {
                match self.echoed_sequence(&unit) {
                    Some(sequence) => {
                        self.complete(sequence, Outcome::Error(unit));
                    },
                    None => {},
                }
            },
            UnitKind::Reply => {
                match self.echoed_sequence(&unit) {
                    Some(sequence) => {
                        match self.table.awaited(sequence) {
                            Some(ReplyShape::ReplyWithFds) => {
                                let declared: usize = unit[1] as usize;
                                if self.in_fds.len() < declared {
                                    self.shut();
                                } else {
                                    let fds = split_front(&mut self.in_fds, declared);
                                    self.complete(sequence, Outcome::Reply(unit, fds));
                                }
                            },
                            Some(ReplyShape::Reply) => {
                                self.complete(sequence, Outcome::Reply(unit, Vec::new()));
                            },
                            _ => {
                                self.complete(sequence, Outcome::Succeeded);
                            },
                        }
                    },
                    None => {},
                }
            },
            _ => {
                let shm = self.extensions.lookup(crate::shm::X11_EXTENSION_NAME);
                let event = decode_event(self.order, shm, unit);
                self.events.push(event);
                assert(self@.events =~= old(self)@.deliver_event(unit@).events);
            },
        }
    }

    /// Dispatches a unit that the transport has delimited itself. A unit
    /// whose length is not the one that its header declares poisons the
    /// connection, as does a reply whose descriptors are missing; the
    /// failure is reported here, once.
    pub fn dispatch_packet(&mut self, packet: Vec<u8>) -> (r: Result<(), ConnectionError>)
        ensures
            old(self)@.closed ==> r == Err::<(), ConnectionError>(ConnectionError::ConnectionClosed)
                && final(self)@ == old(self)@,
            !old(self)@.closed ==> final(self)@ == if packet@.len() >= 32 && packet@.len()
                == unit_length(old(self)@.order, packet@) {
                old(self)@.dispatch(packet@)
            } else {
                old(self)@.shut()
            },
            !old(self)@.closed ==> r == if final(self)@.closed {
                Err::<(), ConnectionError>(ConnectionError::ParseError)
            } else {
                Ok::<(), ConnectionError>(())
            },
            old(self)@.table.wf() ==> final(self)@.table.wf(),
    {
        if self.closed {
            return Err(ConnectionError::ConnectionClosed);
        }
        let whole = match packet_length(self.order, packet.as_slice()) {
            Ok(total) => total == packet.len() as u64,
            Err(_) => false,
        };
        if whole {
            self.dispatch(packet);
        } else {
            self.shut();
        }
        if self.closed {
            Err(ConnectionError::ParseError)
        } else {
            Ok(())
        }
    }

    /// Takes in bytes that the transport has read and dispatches every
    /// whole unit that the bytes received so far hold, in order. What is
    /// left waits for more bytes.
    pub fn feed(&mut self, bytes: &[u8]) -> (r: Result<(), ConnectionError>)
        ensures
            old(self)@.closed ==> r == Err::<(), ConnectionError>(ConnectionError::ConnectionClosed)
                && final(self)@ == old(self)@,
            !old(self)@.closed ==> final(self)@ == old(self)@.received(bytes@).drain(),
            !old(self)@.closed ==> r == if final(self)@.closed {
                Err::<(), ConnectionError>(ConnectionError::ParseError)
            } else {
                Ok::<(), ConnectionError>(())
            },
            old(self)@.table.wf() ==> final(self)@.table.wf(),
    {
        if self.closed {
            return Err(ConnectionError::ConnectionClosed);
        }
        append(&mut self.inbound, bytes);
        let ghost start = self@;
        loop
            invariant
                self@.drain() == start.drain(),
                old(self)@.table.wf() ==> self@.table.wf(),
            ensures
                self@ == start.drain(),
            decreases self@.inbound.len(),
        {
            if self.closed || self.inbound.len() < 32 {
                break ;
            }
            let total: u64 = match packet_length(self.order, self.inbound.as_slice()) {
                Ok(total) => total,
                Err(_) => { break ; },
            };
            if total > self.inbound.len() as u64 {
                break ;
            }
            let unit = split_front(&mut self.inbound, total as usize);
            self.dispatch(unit);
        }
        if self.closed {
            Err(ConnectionError::ParseError)
        } else {
            Ok(())
        }
    }

    /// Tells the connection that the stream has ended. Bytes left over
    /// that make no whole unit are a framing error. Either way the
    /// connection is closed afterwards.
    pub fn end_of_stream(&mut self) -> (r: Result<(), ConnectionError>)
        ensures
            old(self)@.closed ==> r == Err::<(), ConnectionError>(ConnectionError::ConnectionClosed)
                && final(self)@ == old(self)@,
            !old(self)@.closed ==> final(self)@ == old(self)@.shut() && r == if old(
                self,
            )@.inbound.len() > 0 {
                Err::<(), ConnectionError>(ConnectionError::ParseError)
            } else {
                Ok::<(), ConnectionError>(())
            },
    {
        if self.closed {
            return Err(ConnectionError::ConnectionClosed);
        }
        self.shut();
        if self.inbound.len() > 0 {
            Err(ConnectionError::ParseError)
        } else {
            Ok(())
        }
    }
}

/// How the resolving of an extension went on.
#[derive(Debug, PartialEq, Eq)]
pub enum ExtensionResolution {
    /// The extension was resolved before; nothing was sent.
    Known(ExtensionInformation),
    /// The server was asked; its reply will resolve this cookie.
    Asked(Cookie),
}

impl ConnectionView {
    /// The connection after the caller gave up the outcome of `sequence`.
    /// The descriptors of a reply that had arrived for it wait to be
    /// closed.
    pub open spec fn discarded(self, sequence: u64) -> ConnectionView {
        ConnectionView {
            table: self.table.discard(sequence),
            to_close: self.to_close + self.table.dropped_on_discard(sequence),
            ..self
        }
    }

    /// The connection after the server said that it has the extension
    /// `name`, with the codes `info`.
    pub open spec fn resolved(self, name: Seq<char>, info: ExtensionInformation) -> ConnectionView {
        ConnectionView { extensions: self.extensions.insert(name, info), ..self }
    }
}

/// What a QueryExtension reply says of the extension's codes.
pub open spec fn reply_information(reply: QueryExtensionReply) -> ExtensionInformation {
    ExtensionInformation {
        major_opcode: reply.major_opcode,
        first_event: reply.first_event,
        first_error: reply.first_error,
    }
}

impl Connection {
    /// The outcome of `sequence`, if it has one, taken from the table.
    fn poll(&mut self, sequence: u64) -> (r: Option<Resolved>)
        ensures
            r.is_some() <==> old(self)@.resolution(sequence).is_some(),
            r.is_some() ==> r.unwrap()@ == old(self)@.resolution(sequence).unwrap(),
            final(self)@ == old(self)@.polled(sequence),
            old(self)@.table.wf() ==> final(self)@.table.wf(),
    {
        if self.closed {
            return Some(Resolved::ConnectionClosed);
        }
        match self.table.take(sequence) {
            Some(Outcome::Reply(bytes, fds)) => Some(Resolved::Reply(bytes, fds)),
            Some(Outcome::Error(bytes)) => Some(Resolved::Error(bytes)),
            Some(_) => Some(Resolved::Success),
            None => None,
        }
    }

    /// Asks whether a request without a reply was carried out. It was if a
    /// later response has arrived with no error for this request before
    /// it; an error tagged for this request is handed over instead. Until
    /// either has arrived the cookie comes back.
    pub fn check(&mut self, cookie: VoidCookie) -> (r: Poll<VoidCookie>)
        ensures
            match r {
                Poll::Ready(resolved) => old(self)@.resolution(cookie@) == Some(resolved@),
                Poll::Pending(back) => old(self)@.resolution(cookie@).is_none() && back@
                    == cookie@,
            },
            final(self)@ == old(self)@.polled(cookie@),
            old(self)@.table.wf() ==> final(self)@.table.wf(),
    {
        match self.poll(cookie.sequence_number) {
            Some(resolved) => Poll::Ready(resolved),
            None => Poll::Pending(cookie),
        }
    }

    /// Asks for the reply of a request. Once the reply or an error has
    /// arrived it is handed over and the pending entry is freed; until
    /// then the cookie comes back.
    pub fn poll_for_reply(&mut self, cookie: Cookie) -> (r: Poll<Cookie>)
        ensures
            match r {
                Poll::Ready(resolved) => old(self)@.resolution(cookie@) == Some(resolved@),
                Poll::Pending(back) => old(self)@.resolution(cookie@).is_none() && back@
                    == cookie@,
            },
            final(self)@ == old(self)@.polled(cookie@),
            old(self)@.table.wf() ==> final(self)@.table.wf(),
    {
        match self.poll(cookie.sequence_number) {
            Some(resolved) => Poll::Ready(resolved),
            None => Poll::Pending(cookie),
        }
    }

    /// Asks for the reply of a request and the descriptors that came with
    /// it.
    pub fn poll_for_reply_with_fds(&mut self, cookie: CookieWithFds) -> (r: Poll<CookieWithFds>)
        ensures
            match r {
                Poll::Ready(resolved) => old(self)@.resolution(cookie@) == Some(resolved@),
                Poll::Pending(back) => old(self)@.resolution(cookie@).is_none() && back@
                    == cookie@,
            },
            final(self)@ == old(self)@.polled(cookie@),
            old(self)@.table.wf() ==> final(self)@.table.wf(),
    {
        match self.poll(cookie.sequence_number) {
            Some(resolved) => Poll::Ready(resolved),
            None => Poll::Pending(cookie),
        }
    }

    /// Gives up the outcome of the request `sequence`. Where its reply is
    /// still to come, the entry stays until then, so that the reply and
    /// its descriptors are drained and not taken for another's.
    pub fn discard_reply(&mut self, sequence: u64)
        ensures
            final(self)@ == old(self)@.discarded(sequence),
            old(self)@.table.wf() ==> final(self)@.table.wf(),
    {
        let mut dropped = self.table.discard(sequence);
        self.to_close.append(&mut dropped);
    }

    /// Sends a request for the sake of its reply alone and gives the
    /// reply up at once. When the reply arrives, every request without a
    /// reply that was sent before is known to have succeeded or failed.
    pub fn sync(&mut self) -> (r: Result<(), ConnectionError>)
        ensures
            match old(self)@.send_error() {
                Some(e) => r == Err::<(), ConnectionError>(e) && final(self)@ == old(self)@,
                None => r == Ok::<(), ConnectionError>(()) && final(self)@ == old(self)@.send(
                    get_input_focus_request_bytes(old(self)@.order),
                    Seq::empty(),
                    ReplyShape::Reply,
                ).discarded(old(self)@.table.next_sequence),
            },
            old(self)@.table.wf() ==> final(self)@.table.wf(),
    {
        let request = get_input_focus_request(self.order);
        proof {
            lemma_unowned_nothing(self@);
        }
        match self.send_request_with_reply(request, Vec::new()) {
            Ok(cookie) => {
                cookie.discard_reply_and_errors(self);
                Ok(())
            },
            Err(e) => Err(e),
        }
    }

    /// What is known of the extension `name`, if it was resolved.
    pub fn extension_information(&self, name: &str) -> (r: Option<ExtensionInformation>)
        ensures
            r == self@.extension(name@),
    {
        self.extensions.lookup(name)
    }

    /// Begins to resolve the extension `name`. Where it was resolved
    /// before, its codes come back and nothing is sent. Else the server is
    /// asked with a core QueryExtension request, whose reply goes to
    /// [`Connection::finish_resolve`]. A name too long for that request
    /// is the name of no extension.
    pub fn resolve_extension(&mut self, name: &str) -> (r: Result<
        ExtensionResolution,
        ConnectionError,
    >)
        ensures
            old(self)@.extension(name@).is_some() ==> r == Ok::<
                ExtensionResolution,
                ConnectionError,
            >(ExtensionResolution::Known(old(self)@.extension(name@).unwrap())) && final(self)@
                == old(self)@,
            old(self)@.extension(name@).is_none() && name.spec_bytes().len() > u16::MAX ==> r
                == Err::<ExtensionResolution, ConnectionError>(
                ConnectionError::UnsupportedExtension,
            ) && final(self)@ == old(self)@,
            old(self)@.extension(name@).is_none() && name.spec_bytes().len() <= u16::MAX ==> sent(
                old(self)@,
                final(self)@,
                match r {
                    Ok(ExtensionResolution::Asked(cookie)) => Ok(cookie@),
                    Ok(ExtensionResolution::Known(_)) => Err(ConnectionError::UnsupportedExtension),
                    Err(e) => Err(e),
                },
                query_extension_request_bytes(old(self)@.order, name.spec_bytes()),
                Seq::empty(),
                ReplyShape::Reply,
            ),
            old(self)@.table.wf() ==> final(self)@.table.wf(),
    {
        match self.extensions.lookup(name) {
            Some(info) => { return Ok(ExtensionResolution::Known(info)); },
            None => {},
        }
        let request = match query_extension_request(self.order, name.as_bytes()) {
            Some(request) => request,
            None => { return Err(ConnectionError::UnsupportedExtension); },
        };
        match self.send_request_with_reply(request, Vec::new()) {
            Ok(cookie) => Ok(ExtensionResolution::Asked(cookie)),
            Err(e) => Err(e),
        }
    }

    /// Ends the resolving of the extension `name` with the server's reply
    /// to the QueryExtension request. Where the server has the extension,
    /// its codes are kept for the connection's lifetime. Where it has
    /// not, or the reply cannot be read, nothing is kept and nothing else
    /// changes: the connection stays usable and the name may be asked for
    /// again. What is known of a name never changes: where the name was
    /// resolved in the meantime, the codes kept then are the answer.
    pub fn finish_resolve(&mut self, name: &str, reply: &[u8]) -> (r: Result<
        ExtensionInformation,
        ConnectionError,
    >)
        ensures
            old(self)@.extension(name@).is_some() ==> r == Ok::<
                ExtensionInformation,
                ConnectionError,
            >(old(self)@.extension(name@).unwrap()) && final(self)@ == old(self)@,
            old(self)@.extension(name@).is_none() && reply@.len() < 32 ==> r == Err::<
                ExtensionInformation,
                ConnectionError,
            >(ConnectionError::ParseError) && final(self)@ == old(self)@,
            old(self)@.extension(name@).is_none() && reply@.len() >= 32
                && !query_extension_reply_value(old(self)@.order, reply@).present ==> r == Err::<
                ExtensionInformation,
                ConnectionError,
            >(ConnectionError::UnsupportedExtension) && final(self)@ == old(self)@,
            old(self)@.extension(name@).is_none() && reply@.len() >= 32
                && query_extension_reply_value(old(self)@.order, reply@).present ==> r == Ok::<
                ExtensionInformation,
                ConnectionError,
            >(reply_information(query_extension_reply_value(old(self)@.order, reply@)))
                && final(self)@ == old(self)@.resolved(
                name@,
                reply_information(query_extension_reply_value(old(self)@.order, reply@)),
            ),
    {
        match self.extensions.lookup(name) {
            Some(known) => { return Ok(known); },
            None => {},
        }
        let parsed = match QueryExtensionReply::try_parse(self.order, reply) {
            Ok((parsed, _)) => parsed,
            Err(_) => { return Err(ConnectionError::ParseError); },
        };
        if !parsed.present {
            return Err(ConnectionError::UnsupportedExtension);
        }
        let info = ExtensionInformation {
            major_opcode: parsed.major_opcode,
            first_event: parsed.first_event,
            first_error: parsed.first_error,
        };
        self.extensions.insert(name, info);
        Ok(info)
    }
}

impl VoidCookie {
    /// Gives the cookie up: an error for its request will be dropped.
    pub fn ignore_error(self, conn: &mut Connection)
        ensures
            final(conn)@ == old(conn)@.discarded(self@),
            old(conn)@.table.wf() ==> final(conn)@.table.wf(),
    {
        conn.discard_reply(self.sequence_number);
    }
}

impl Cookie {
    /// Gives the cookie up: its reply or error will be dropped when it
    /// arrives.
    pub fn discard_reply_and_errors(self, conn: &mut Connection)
        ensures
            final(conn)@ == old(conn)@.discarded(self@),
            old(conn)@.table.wf() ==> final(conn)@.table.wf(),
    {
        conn.discard_reply(self.sequence_number);
    }
}

impl CookieWithFds {
    /// Gives the cookie up: its reply or error will be dropped when it
    /// arrives, and the reply's descriptors with it.
    pub fn discard_reply_and_errors(self, conn: &mut Connection)
        ensures
            final(conn)@ == old(conn)@.discarded(self@),
            old(conn)@.table.wf() ==> final(conn)@.table.wf(),
    {
        conn.discard_reply(self.sequence_number);
    }
}

/// The result of a send as the request's sequence number or the error.
pub open spec fn void_cookie_number(r: Result<VoidCookie, ConnectionError>) -> Result<
    u64,
    ConnectionError,
> {
    match r {
        Ok(cookie) => Ok(cookie@),
        Err(e) => Err(e),
    }
}

/// The result of a send as the request's sequence number or the error.
pub open spec fn cookie_number(r: Result<Cookie, ConnectionError>) -> Result<u64, ConnectionError> {
    match r {
        Ok(cookie) => Ok(cookie@),
        Err(e) => Err(e),
    }
}

/// The result of a send as the request's sequence number or the error.
pub open spec fn cookie_with_fds_number(r: Result<CookieWithFds, ConnectionError>) -> Result<
    u64,
    ConnectionError,
> {
    match r {
        Ok(cookie) => Ok(cookie@),
        Err(e) => Err(e),
    }
}

/// A connection left with no descriptors more is the connection as it
/// was.
pub proof fn lemma_unowned_nothing(c: ConnectionView)
    ensures
        c.unowned(Seq::empty()) == c,
{
    assert(c.to_close + Seq::<RawFdContainer>::empty() =~= c.to_close);
}

} // verus!
