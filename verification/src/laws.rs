//! What holds of a connection across several of its operations.

use vstd::prelude::*;
use vstd::multiset::Multiset;
use vstd::seq_lib::lemma_multiset_commutative;
use crate::connection::ConnectionView;
use crate::connection::FrameView;
use crate::connection::ResolvedView;
use crate::cookie::held;
use crate::cookie::held_fds;
use crate::cookie::lemma_complete_keeps_descriptors;
use crate::cookie::lemma_discard_keeps_descriptors;
use crate::cookie::lemma_no_descriptors;
use crate::cookie::lemma_take_keeps_descriptors;
use crate::cookie::outcome_fds;
use crate::cookie::lemma_complete_keeps_wf;
use crate::cookie::lemma_complete_resolves;
use crate::cookie::lemma_discard_keeps_wf;
use crate::cookie::lemma_discarded_response_is_dropped;
use crate::cookie::lemma_echo_resolves;
use crate::cookie::first_waiting;
use crate::cookie::lemma_first_waiting;
use crate::cookie::lemma_issue_keeps_wf;
use crate::cookie::lemma_issue_succeeds_within_window;
use crate::cookie::SEQUENCE_WINDOW;
use crate::cookie::lemma_later_response_settles;
use crate::cookie::lemma_position;
use crate::cookie::lemma_position_is;
use crate::cookie::lemma_without_keeps_wf;
use crate::cookie::position;
use crate::cookie::OutcomeView;
use crate::cookie::ReplyShape;
use crate::dispatch::unit_kind;
use crate::dispatch::UnitKind;
use crate::extension::ExtensionInformation;
use crate::utils::RawFdContainer;
use crate::wire::u16_value;

verus! {

/// Requests sent one after the other get consecutive sequence numbers,
/// and their frames are staged in the order of those numbers.
pub proof fn lemma_sends_are_ordered(
    c: ConnectionView,
    first_bytes: Seq<u8>,
    first_fds: Seq<RawFdContainer>,
    first_shape: ReplyShape,
    second_bytes: Seq<u8>,
    second_fds: Seq<RawFdContainer>,
    second_shape: ReplyShape,
)
    requires
        c.table.wf(),
        c.send_error().is_none(),
        c.send(first_bytes, first_fds, first_shape).send_error().is_none(),
    ensures
        ({
            let one = c.send(first_bytes, first_fds, first_shape);
            let two = one.send(second_bytes, second_fds, second_shape);
            &&& one.table.entries.last().sequence == c.table.next_sequence
            &&& two.table.entries.last().sequence == c.table.next_sequence + 1
            &&& two.table.wf()
            &&& two.frames == c.frames.push(FrameView { bytes: first_bytes, fds: first_fds }).push(
                FrameView { bytes: second_bytes, fds: second_fds },
            )
        }),
{
    let one = c.send(first_bytes, first_fds, first_shape);
    lemma_issue_keeps_wf(c.table, first_shape);
    lemma_issue_keeps_wf(one.table, second_shape);
}

/// A reply whose 16-bit echo is that of a pending request resolves the
/// cookie of that request, and of no other, to the reply.
pub proof fn lemma_reply_resolves_cookie(c: ConnectionView, unit: Seq<u8>, sequence: u64)
    requires
        c.table.wf(),
        !c.closed,
        c.table.awaited(sequence) == Some(ReplyShape::Reply),
        !c.table.entry(sequence).discard,
        unit.len() >= 32,
        unit_kind(unit[0]) == UnitKind::Reply,
        u16_value(c.order, unit.skip(2)) == sequence % 65536,
    ensures
        c.dispatch(unit).resolution(sequence) == Some(ResolvedView::Reply(unit, Seq::empty())),
        c.dispatch(unit).table.wf(),
        !c.dispatch(unit).closed,
{
    lemma_position(c.table.entries, sequence);
    lemma_echo_resolves(c.table.next_sequence, sequence);
    let outcome = OutcomeView::Reply(unit, Seq::empty());
    lemma_complete_resolves(c.table, sequence, outcome);
    lemma_complete_keeps_wf(c.table, sequence, outcome);
}

/// An error whose 16-bit echo is that of a pending request resolves the
/// cookie of that request to the error and leaves the connection open.
pub proof fn lemma_error_resolves_cookie(c: ConnectionView, unit: Seq<u8>, sequence: u64)
    requires
        c.table.wf(),
        !c.closed,
        c.table.awaited(sequence).is_some(),
        !c.table.entry(sequence).discard,
        unit.len() >= 32,
        unit_kind(unit[0]) == UnitKind::Error,
        u16_value(c.order, unit.skip(2)) == sequence % 65536,
    ensures
        c.dispatch(unit).resolution(sequence) == Some(ResolvedView::Error(unit)),
        c.dispatch(unit).table.wf(),
        !c.dispatch(unit).closed,
{
    lemma_position(c.table.entries, sequence);
    lemma_echo_resolves(c.table.next_sequence, sequence);
    let outcome = OutcomeView::Error(unit);
    lemma_complete_resolves(c.table, sequence, outcome);
    lemma_complete_keeps_wf(c.table, sequence, outcome);
}

/// A reply to a request that expects descriptors takes exactly as many
/// from the front of the inbound queue as its byte 1 declares, and the
/// cookie resolves to the reply with those. Where the queue holds fewer,
/// the connection is poisoned, and what the queue held waits to be
/// closed with the descriptors of the replies that nobody took.
pub proof fn lemma_reply_takes_declared_descriptors(
    c: ConnectionView,
    unit: Seq<u8>,
    sequence: u64,
)
    requires
        c.table.wf(),
        !c.closed,
        c.table.awaited(sequence) == Some(ReplyShape::ReplyWithFds),
        !c.table.entry(sequence).discard,
        unit.len() >= 32,
        unit_kind(unit[0]) == UnitKind::Reply,
        u16_value(c.order, unit.skip(2)) == sequence % 65536,
    ensures
        c.in_fds.len() >= unit[1] ==> c.dispatch(unit).in_fds == c.in_fds.skip(unit[1] as int)
            && c.dispatch(unit).to_close == c.to_close && c.dispatch(unit).resolution(sequence)
            == Some(ResolvedView::Reply(unit, c.in_fds.take(unit[1] as int))),
        c.in_fds.len() < unit[1] ==> c.dispatch(unit).closed && c.dispatch(unit).in_fds.len() == 0
            && c.dispatch(unit).to_close == c.to_close + held_fds(c.table.entries) + c.in_fds
            && c.dispatch(unit).resolution(sequence) == Some(ResolvedView::ConnectionClosed),
{
    let i = position(c.table.entries, sequence);
    lemma_position(c.table.entries, sequence);
    lemma_echo_resolves(c.table.next_sequence, sequence);
    if c.in_fds.len() >= unit[1] {
        let outcome = OutcomeView::Reply(unit, c.in_fds.take(unit[1] as int));
        lemma_complete_resolves(c.table, sequence, outcome);
        lemma_position_is(c.table.settle(sequence).entries, sequence, i);
        assert(c.table.dropped_on_complete(sequence, outcome) =~= Seq::empty());
        assert(c.to_close + Seq::<RawFdContainer>::empty() =~= c.to_close);
    }
}

/// The frame of a request carries exactly the descriptors that the
/// request was sent with, and the frames staged before it stay in front.
pub proof fn lemma_frame_carries_its_descriptors(
    c: ConnectionView,
    bytes: Seq<u8>,
    fds: Seq<RawFdContainer>,
    shape: ReplyShape,
)
    ensures
        c.send(bytes, fds, shape).frames.last() == (FrameView { bytes, fds }),
        c.send(bytes, fds, shape).frames.drop_last() == c.frames,
        c.send(bytes, fds, shape).in_fds == c.in_fds,
{
    assert(c.send(bytes, fds, shape).frames.drop_last() =~= c.frames);
}

/// Once an extension is resolved it stays known, with the same codes,
/// whatever is sent, received, taken or given up afterwards, and also
/// when the connection is closed.
pub proof fn lemma_resolved_extension_stays_known(
    c: ConnectionView,
    name: Seq<char>,
    info: ExtensionInformation,
    bytes: Seq<u8>,
    fds: Seq<RawFdContainer>,
    shape: ReplyShape,
    unit: Seq<u8>,
    sequence: u64,
)
    ensures
        c.resolved(name, info).extension(name) == Some(info),
        forall|other: Seq<char>|
            other != name ==> c.resolved(name, info).extension(other) == c.extension(other),
        c.send(bytes, fds, shape).extensions == c.extensions,
        c.dispatch(unit).extensions == c.extensions,
        c.drain().extensions == c.extensions,
        c.polled(sequence).extensions == c.extensions,
        c.discarded(sequence).extensions == c.extensions,
        c.shut().extensions == c.extensions,
    decreases c.inbound.len(),
{
    if !c.closed && c.has_unit() {
        let total = crate::dispatch::unit_length(c.order, c.inbound) as int;
        let rest = ConnectionView { inbound: c.inbound.skip(total), ..c };
        let next = rest.dispatch(c.inbound.take(total));
        lemma_resolved_extension_stays_known(
            next,
            name,
            info,
            bytes,
            fds,
            shape,
            unit,
            sequence,
        );
    }
}

/// A cookie that waits for a reply with descriptors is given up, and the
/// reply arrives later: the pending entry is freed, the reply's
/// descriptors are taken off the inbound queue, not left for another
/// reply, and wait to be closed, and every request sent later is as it
/// was.
pub proof fn lemma_dropped_cookie_reply_is_drained(
    c: ConnectionView,
    unit: Seq<u8>,
    sequence: u64,
    later: u64,
)
    requires
        c.table.wf(),
        !c.closed,
        c.table.awaited(sequence) == Some(ReplyShape::ReplyWithFds),
        unit.len() >= 32,
        unit_kind(unit[0]) == UnitKind::Reply,
        u16_value(c.order, unit.skip(2)) == sequence % 65536,
        c.in_fds.len() >= unit[1],
        later > sequence,
    ensures
        ({
            let after = c.discarded(sequence).dispatch(unit);
            &&& !after.closed
            &&& after.table.wf()
            &&& !after.table.has(sequence)
            &&& after.in_fds == c.in_fds.skip(unit[1] as int)
            &&& after.to_close == c.to_close + c.in_fds.take(unit[1] as int)
            &&& after.table.has(later) == c.table.has(later)
            &&& c.table.has(later) ==> after.table.entry(later) == c.table.entry(later)
        }),
{
    let d = c.discarded(sequence);
    let i = position(c.table.entries, sequence);
    lemma_position(c.table.entries, sequence);
    lemma_echo_resolves(c.table.next_sequence, sequence);
    lemma_discard_keeps_wf(c.table, sequence);
    lemma_position_is(d.table.entries, sequence, i);
    let outcome = OutcomeView::Reply(unit, c.in_fds.take(unit[1] as int));
    lemma_discarded_response_is_dropped(c.table, sequence, outcome, later);
    lemma_position_is(d.table.settle(sequence).entries, sequence, i);
    assert(c.table.dropped_on_discard(sequence) =~= Seq::empty());
    assert(d.to_close =~= c.to_close);
    assert(d.table.dropped_on_complete(sequence, outcome) == c.in_fds.take(unit[1] as int));
}

/// A cookie that waits for a reply is given up, and the reply or the
/// error arrives later: the pending entry is freed and every request
/// sent later is as it was, so that its own response still resolves it.
pub proof fn lemma_dropped_cookie_response_is_dropped(
    c: ConnectionView,
    unit: Seq<u8>,
    sequence: u64,
    later: u64,
)
    requires
        c.table.wf(),
        !c.closed,
        c.table.awaited(sequence) == Some(ReplyShape::Reply),
        unit.len() >= 32,
        unit_kind(unit[0]) == UnitKind::Reply || unit_kind(unit[0]) == UnitKind::Error,
        u16_value(c.order, unit.skip(2)) == sequence % 65536,
        later > sequence,
    ensures
        ({
            let after = c.discarded(sequence).dispatch(unit);
            &&& !after.closed
            &&& after.table.wf()
            &&& !after.table.has(sequence)
            &&& after.in_fds == c.in_fds
            &&& after.to_close == c.to_close
            &&& after.events == c.events
            &&& after.table.has(later) == c.table.has(later)
            &&& c.table.has(later) ==> after.table.entry(later) == c.table.entry(later)
        }),
{
    let d = c.discarded(sequence);
    let i = position(c.table.entries, sequence);
    lemma_position(c.table.entries, sequence);
    lemma_echo_resolves(c.table.next_sequence, sequence);
    lemma_discard_keeps_wf(c.table, sequence);
    lemma_position_is(d.table.entries, sequence, i);
    assert(c.table.dropped_on_discard(sequence) =~= Seq::empty());
    assert(d.to_close =~= c.to_close);
    assert(d.to_close + Seq::<RawFdContainer>::empty() =~= c.to_close);
    if unit_kind(unit[0]) == UnitKind::Reply {
        lemma_discarded_response_is_dropped(
            c.table,
            sequence,
            OutcomeView::Reply(unit, Seq::empty()),
            later,
        );
    } else {
        lemma_discarded_response_is_dropped(c.table, sequence, OutcomeView::Error(unit), later);
    }
}

/// The cookie table of a connection stays well formed through every
/// step: a send that is not refused, a dispatched unit, the draining of
/// received bytes, the taking or giving up of an outcome, the resolving
/// of an extension, and the closing.
pub proof fn lemma_table_stays_well_formed(
    c: ConnectionView,
    bytes: Seq<u8>,
    fds: Seq<RawFdContainer>,
    shape: ReplyShape,
    unit: Seq<u8>,
    sequence: u64,
    name: Seq<char>,
    info: ExtensionInformation,
)
    requires
        c.table.wf(),
    ensures
        c.send_error().is_none() ==> c.send(bytes, fds, shape).table.wf(),
        c.dispatch(unit).table.wf(),
        c.drain().table.wf(),
        c.polled(sequence).table.wf(),
        c.discarded(sequence).table.wf(),
        c.resolved(name, info).table.wf(),
        c.shut().table.wf(),
    decreases c.inbound.len(),
{
    if c.send_error().is_none() {
        lemma_issue_keeps_wf(c.table, shape);
    }
    lemma_dispatch_keeps_wf(c, unit);
    lemma_discard_keeps_wf(c.table, sequence);
    if c.table.has(sequence) {
        lemma_without_keeps_wf(c.table, sequence);
    }
    if !c.closed && c.has_unit() {
        let total = crate::dispatch::unit_length(c.order, c.inbound) as int;
        let rest = ConnectionView { inbound: c.inbound.skip(total), ..c };
        lemma_dispatch_keeps_wf(rest, c.inbound.take(total));
        lemma_table_stays_well_formed(
            rest.dispatch(c.inbound.take(total)),
            bytes,
            fds,
            shape,
            unit,
            sequence,
            name,
            info,
        );
    }
}

/// Dispatching a unit keeps the cookie table well formed.
proof fn lemma_dispatch_keeps_wf(c: ConnectionView, unit: Seq<u8>)
    requires
        c.table.wf(),
    ensures
        c.dispatch(unit).table.wf(),
{
    match c.echoed_sequence(unit) {
        Some(sequence) => {
            lemma_complete_keeps_wf(c.table, sequence, OutcomeView::Error(unit));
            lemma_complete_keeps_wf(c.table, sequence, OutcomeView::Succeeded);
            lemma_complete_keeps_wf(c.table, sequence, OutcomeView::Reply(unit, Seq::empty()));
            lemma_complete_keeps_wf(
                c.table,
                sequence,
                OutcomeView::Reply(unit, c.in_fds.take(unit[1] as int)),
            );
        },
        None => {},
    }
}

/// A request without a reply is known to have succeeded as soon as the
/// reply or the error of any later request is dispatched, since the
/// server answers in order.
pub proof fn lemma_later_response_proves_success(
    c: ConnectionView,
    unit: Seq<u8>,
    sequence: u64,
    later: u64,
)
    requires
        c.table.wf(),
        !c.closed,
        c.table.awaited(sequence) == Some(ReplyShape::NoReply),
        unit.len() >= 32,
        unit_kind(unit[0]) == UnitKind::Reply || unit_kind(unit[0]) == UnitKind::Error,
        c.echoed_sequence(unit) == Some(later),
        later > sequence,
        c.table.awaited(later) == Some(ReplyShape::ReplyWithFds) ==> c.in_fds.len() >= unit[1],
    ensures
        c.dispatch(unit).resolution(sequence) == Some(ResolvedView::Success),
{
    lemma_later_response_settles(c.table, sequence, later, OutcomeView::Error(unit));
    lemma_later_response_settles(c.table, sequence, later, OutcomeView::Succeeded);
    lemma_later_response_settles(c.table, sequence, later, OutcomeView::Reply(unit, Seq::empty()));
    lemma_later_response_settles(
        c.table,
        sequence,
        later,
        OutcomeView::Reply(unit, c.in_fds.take(unit[1] as int)),
    );
}

/// Dispatching a unit neither reads nor changes the bytes that wait for
/// the rest of their unit.
proof fn lemma_dispatch_leaves_inbound(c: ConnectionView, unit: Seq<u8>, inbound: Seq<u8>)
    ensures
        (ConnectionView { inbound, ..c }).dispatch(unit) == (ConnectionView {
            inbound,
            ..c.dispatch(unit)
        }),
{
}

/// Bytes may arrive in any pieces: as long as the connection is open, to
/// take in one piece and then the next gives the same as to take in both
/// at once.
pub proof fn lemma_feed_in_pieces(c: ConnectionView, first: Seq<u8>, second: Seq<u8>)
    requires
        !c.received(first).drain().closed,
    ensures
        c.received(first).drain().received(second).drain() == c.received(first + second).drain(),
{
    lemma_drain_then_receive(c.received(first), second);
    assert(c.received(first).received(second) == c.received(first + second)) by {
        assert((c.inbound + first) + second =~= c.inbound + (first + second));
    }
}

/// Draining, then receiving more and draining again, gives the same as
/// receiving more first and draining once.
proof fn lemma_drain_then_receive(c: ConnectionView, more: Seq<u8>)
    requires
        !c.drain().closed,
    ensures
        c.drain().received(more).drain() == c.received(more).drain(),
    decreases c.inbound.len(),
{
    if !c.closed && c.has_unit() {
        let total = crate::dispatch::unit_length(c.order, c.inbound) as int;
        let unit = c.inbound.take(total);
        let rest = ConnectionView { inbound: c.inbound.skip(total), ..c };
        let next = rest.dispatch(unit);
        lemma_dispatch_leaves_inbound(c, unit, c.inbound.skip(total));
        lemma_drain_then_receive(next, more);
        let longer = c.received(more);
        assert(longer.inbound.skip(4) =~= c.inbound.skip(4) + more);
        assert(crate::wire::u32_value(c.order, longer.inbound.skip(4)) == crate::wire::u32_value(
            c.order,
            c.inbound.skip(4),
        ));
        assert(longer.inbound[0] == c.inbound[0]);
        assert(crate::dispatch::unit_length(c.order, longer.inbound) == total);
        assert(longer.has_unit());
        assert(longer.inbound.take(total) =~= unit);
        assert(longer.inbound.skip(total) =~= c.inbound.skip(total) + more);
        let longer_rest = ConnectionView { inbound: longer.inbound.skip(total), ..longer };
        lemma_dispatch_leaves_inbound(c, unit, longer.inbound.skip(total));
        assert(longer_rest.dispatch(unit) == next.received(more));
    }
}

/// One whole unit, received when no bytes wait, is dispatched and
/// nothing is left over.
pub proof fn lemma_feed_one_unit(c: ConnectionView, unit: Seq<u8>)
    requires
        !c.closed,
        c.inbound.len() == 0,
        unit.len() >= 32,
        unit.len() == crate::dispatch::unit_length(c.order, unit),
    ensures
        c.received(unit).drain() == c.dispatch(unit),
{
    let r = c.received(unit);
    assert(r.inbound =~= unit);
    let total = unit.len() as int;
    assert(r.inbound.take(total) =~= unit);
    assert(r.inbound.skip(total) =~= c.inbound);
    let rest = ConnectionView { inbound: r.inbound.skip(total), ..r };
    assert(rest == c);
    lemma_dispatch_leaves_inbound(c, unit, c.inbound);
    let next = c.dispatch(unit);
    assert(!next.has_unit());
    assert(next.drain() == next);
}

/// A sync makes a request without a reply resolvable: once the reply to
/// the sync is dispatched, a request that was sent before the sync and
/// still waited has succeeded, and the sync itself has left no entry.
pub proof fn lemma_sync_proves_success(c: ConnectionView, unit: Seq<u8>, sequence: u64)
    requires
        c.table.wf(),
        c.send_error().is_none(),
        c.table.awaited(sequence) == Some(ReplyShape::NoReply),
        unit.len() >= 32,
        unit_kind(unit[0]) == UnitKind::Reply,
        u16_value(c.order, unit.skip(2)) == c.table.next_sequence % 65536,
    ensures
        ({
            let synced = c.send(
                crate::xproto::get_input_focus_request_bytes(c.order),
                Seq::empty(),
                ReplyShape::Reply,
            ).discarded(c.table.next_sequence);
            &&& synced.dispatch(unit).resolution(sequence) == Some(ResolvedView::Success)
            &&& synced.dispatch(unit).table.entries.len() == c.table.entries.len()
        }),
{
    let next = c.table.next_sequence;
    let sent = c.send(
        crate::xproto::get_input_focus_request_bytes(c.order),
        Seq::empty(),
        ReplyShape::Reply,
    );
    let synced = sent.discarded(next);
    let i = position(c.table.entries, sequence);
    let n = c.table.entries.len() as int;
    lemma_position(c.table.entries, sequence);
    lemma_issue_keeps_wf(c.table, ReplyShape::Reply);
    lemma_position_is(sent.table.entries, next, n);
    lemma_discard_keeps_wf(sent.table, next);
    lemma_position_is(synced.table.entries, sequence, i);
    lemma_position_is(synced.table.entries, next, n);
    lemma_echo_resolves(synced.table.next_sequence, next);
    let outcome = OutcomeView::Reply(unit, Seq::empty());
    lemma_later_response_settles(synced.table, sequence, next, outcome);
    let settled = synced.table.settle(next);
    lemma_position_is(settled.entries, next, n);
}

/// A send is owed to the caller of an open connection whenever the
/// counter is not used up and fewer than a whole wraparound window of
/// requests are in flight; in particular whenever no response is
/// outstanding. It is refused in no other case.
pub proof fn lemma_send_is_owed(c: ConnectionView)
    ensures
        c.send_error().is_none() <==> !c.closed && c.table.next_sequence < u64::MAX
            && c.table.in_flight() < SEQUENCE_WINDOW,
        (forall|i: int|
            0 <= i < c.table.entries.len() ==> (#[trigger] c.table.entries[i]).outcome
                != OutcomeView::Waiting) ==> c.table.in_flight() == 0,
{
    lemma_issue_succeeds_within_window(c.table);
}

/// After a request was sent, the next one is owed as well, with the next
/// sequence number, unless the first used up the counter or filled the
/// window of requests in flight.
pub proof fn lemma_second_send_is_owed(
    c: ConnectionView,
    bytes: Seq<u8>,
    fds: Seq<RawFdContainer>,
    shape: ReplyShape,
)
    requires
        c.table.wf(),
        c.send_error().is_none(),
        c.table.next_sequence + 1 < u64::MAX,
        c.table.in_flight() + 1 < SEQUENCE_WINDOW,
    ensures
        c.send(bytes, fds, shape).send_error().is_none(),
        c.send(bytes, fds, shape).table.next_sequence == c.table.next_sequence + 1,
{
    let after = c.send(bytes, fds, shape).table;
    let w = first_waiting(c.table.entries);
    lemma_first_waiting(c.table.entries);
    lemma_first_waiting(after.entries);
    let v = first_waiting(after.entries);
    let n = c.table.entries.len() as int;
    assert(after.entries[n].outcome == OutcomeView::Waiting);
    if w < n {
        assert(after.entries[w] == c.table.entries[w]);
        if v < w {
            assert(after.entries[v] == c.table.entries[v]);
        }
        if w < v {
            assert(after.entries[w].outcome == OutcomeView::Waiting);
        }
        assert(v == w);
    } else {
        if v < n {
            assert(after.entries[v] == c.table.entries[v]);
        }
        assert(v == n);
    }
}

/// Recording a response adds the response's descriptors to those that
/// the read side holds and moves no other.
proof fn lemma_completed_keeps_descriptors(c: ConnectionView, sequence: u64, outcome: OutcomeView)
    ensures
        c.completed(sequence, outcome).owned() =~= c.owned().add(
            outcome_fds(outcome).to_multiset(),
        ),
{
    broadcast use vstd::multiset::group_multiset_axioms;

    lemma_complete_keeps_descriptors(c.table, sequence, outcome);
    lemma_multiset_commutative(c.to_close, c.table.dropped_on_complete(sequence, outcome));
    let dropped = c.table.dropped_on_complete(sequence, outcome).to_multiset();
    let after = held(c.table.complete(sequence, outcome).entries);
    assert forall|fd: RawFdContainer|
        after.count(fd) + dropped.count(fd) == held(c.table.entries).count(fd) + outcome_fds(
            outcome,
        ).to_multiset().count(fd) by {
        assert(after.add(dropped).count(fd) == held(c.table.entries).add(
            outcome_fds(outcome).to_multiset(),
        ).count(fd));
    }
}

/// Dispatching a unit loses no descriptor and makes none.
proof fn lemma_dispatch_keeps_descriptors(c: ConnectionView, unit: Seq<u8>)
    ensures
        c.dispatch(unit).owned() =~= c.owned(),
{
    lemma_no_descriptors();
    lemma_shut_keeps_descriptors(c);
    match c.echoed_sequence(unit) {
        Some(sequence) => {
            lemma_completed_keeps_descriptors(c, sequence, OutcomeView::Error(unit));
            lemma_completed_keeps_descriptors(c, sequence, OutcomeView::Succeeded);
            lemma_completed_keeps_descriptors(
                c,
                sequence,
                OutcomeView::Reply(unit, Seq::empty()),
            );
            let declared = unit[1] as int;
            if c.in_fds.len() >= declared {
                let taken = c.in_fds.take(declared);
                let left = ConnectionView { in_fds: c.in_fds.skip(declared), ..c };
                lemma_completed_keeps_descriptors(left, sequence, OutcomeView::Reply(unit, taken));
                lemma_multiset_commutative(taken, c.in_fds.skip(declared));
                assert(taken + c.in_fds.skip(declared) =~= c.in_fds);
            }
        },
        None => {},
    }
}

/// Closing the connection loses no descriptor: all wait to be closed.
proof fn lemma_shut_keeps_descriptors(c: ConnectionView)
    ensures
        c.shut().owned() =~= c.owned(),
{
    lemma_no_descriptors();
    lemma_multiset_commutative(c.to_close, held_fds(c.table.entries));
    lemma_multiset_commutative(c.to_close + held_fds(c.table.entries), c.in_fds);
}

/// No descriptor is lost on the read side. Received descriptors join
/// those held. Dispatching, draining, closing, and giving a cookie up
/// only move descriptors between the inbound queue, the unread replies
/// and the queue of those to close. Taking an outcome hands its
/// descriptors to the caller and moves no other. So every descriptor
/// that was received is at any time queued, or with an unread reply, or
/// waiting to be closed, or was handed out.
pub proof fn lemma_no_descriptor_is_lost(
    c: ConnectionView,
    unit: Seq<u8>,
    sequence: u64,
    fds: Seq<RawFdContainer>,
)
    ensures
        (ConnectionView { in_fds: c.in_fds + fds, ..c }).owned() =~= c.owned().add(
            fds.to_multiset(),
        ),
        c.unowned(fds).owned() =~= c.owned().add(fds.to_multiset()),
        c.dispatch(unit).owned() =~= c.owned(),
        c.drain().owned() =~= c.owned(),
        c.shut().owned() =~= c.owned(),
        c.discarded(sequence).owned() =~= c.owned(),
        c.polled(sequence).owned().add(
            if !c.closed && c.table.ready(sequence) {
                outcome_fds(c.table.entry(sequence).outcome).to_multiset()
            } else {
                Multiset::empty()
            },
        ) =~= c.owned(),
    decreases c.inbound.len(),
{
    lemma_multiset_commutative(c.in_fds, fds);
    lemma_multiset_commutative(c.to_close, fds);
    lemma_dispatch_keeps_descriptors(c, unit);
    lemma_shut_keeps_descriptors(c);
    lemma_discard_keeps_descriptors(c.table, sequence);
    lemma_multiset_commutative(c.to_close, c.table.dropped_on_discard(sequence));
    if c.table.has(sequence) {
        lemma_take_keeps_descriptors(c.table, sequence);
    }
    if !c.closed && c.has_unit() {
        let total = crate::dispatch::unit_length(c.order, c.inbound) as int;
        let rest = ConnectionView { inbound: c.inbound.skip(total), ..c };
        let next = rest.dispatch(c.inbound.take(total));
        lemma_dispatch_keeps_descriptors(rest, c.inbound.take(total));
        lemma_no_descriptor_is_lost(next, unit, sequence, fds);
    }
}

/// Counted by entries: where every request sent since the oldest that
/// still waits has its entry in the table, a send is owed as long as
/// fewer than a whole wraparound window of entries are kept.
pub proof fn lemma_send_is_owed_by_count(c: ConnectionView)
    requires
        !c.closed,
        c.table.next_sequence < u64::MAX,
        c.table.entries.len() < SEQUENCE_WINDOW,
        forall|i: int|
            first_waiting(c.table.entries) <= i < c.table.entries.len() ==> (
            #[trigger] c.table.entries[i]).sequence == c.table.next_sequence - (
            c.table.entries.len() - i),
    ensures
        c.send_error().is_none(),
        c.table.in_flight() <= c.table.entries.len(),
{
    lemma_first_waiting(c.table.entries);
    let w = first_waiting(c.table.entries);
    if w < c.table.entries.len() {
        assert(c.table.entries[w].sequence == c.table.next_sequence - (c.table.entries.len() - w));
    }
}

} // verus!
