//! Cookie table: the sequence counter and one pending entry for each
//! request whose outcome its caller has not yet taken.

use vstd::prelude::*;
use vstd::multiset::Multiset;
use vstd::seq_lib::lemma_multiset_commutative;
use crate::utils::RawFdContainer;

verus! {

/// The response that a request expects.
#[derive(Clone, Copy, Debug, PartialEq, Eq, Structural)]
pub enum ReplyShape {
    NoReply,
    Reply,
    ReplyWithFds,
}

/// Why the table could not take another request.
#[derive(Clone, Copy, Debug, PartialEq, Eq, Structural)]
pub enum IssueError {
    /// The counter has no further sequence number to give.
    SequenceExhausted,
    /// A whole wraparound window of requests is in flight: the oldest
    /// request that still waits for its response is that far behind.
    TooManyPending,
}

/// How many sequence numbers apart two pending requests can be before
/// their 16-bit echoes collide.
pub const SEQUENCE_WINDOW: u64 = 65536;

/// What has become of a pending request.
#[derive(Debug, PartialEq, Eq)]
pub enum Outcome {
    /// No response has arrived.
    Waiting,
    /// A later response arrived with no error for this request before it.
    Succeeded,
    /// The reply's bytes and the descriptors that came with it.
    Reply(Vec<u8>, Vec<RawFdContainer>),
    /// The error's bytes.
    Error(Vec<u8>),
}

/// An outcome as a plain value.
pub enum OutcomeView {
    Waiting,
    Succeeded,
    Reply(Seq<u8>, Seq<RawFdContainer>),
    Error(Seq<u8>),
}

impl View for Outcome {
    type V = OutcomeView;

    open spec fn view(&self) -> OutcomeView {
        match self {
            Outcome::Waiting => OutcomeView::Waiting,
            Outcome::Succeeded => OutcomeView::Succeeded,
            Outcome::Reply(bytes, fds) => OutcomeView::Reply(bytes@, fds@),
            Outcome::Error(bytes) => OutcomeView::Error(bytes@),
        }
    }
}

/// The table's record of one request.
pub struct PendingEntry {
    sequence: u64,
    shape: ReplyShape,
    discard: bool,
    outcome: Outcome,
}

/// A pending entry as a plain value.
pub struct PendingView {
    pub sequence: u64,
    pub shape: ReplyShape,
    /// Whether the response is to be dropped when it arrives.
    pub discard: bool,
    pub outcome: OutcomeView,
}

impl View for PendingEntry {
    type V = PendingView;

    closed spec fn view(&self) -> PendingView {
        PendingView {
            sequence: self.sequence,
            shape: self.shape,
            discard: self.discard,
            outcome: self.outcome@,
        }
    }
}

/// The sequence counter and the pending entries, oldest first.
pub struct CookieTable {
    next_sequence: u64,
    entries: Vec<PendingEntry>,
}

/// A cookie table as a plain value.
pub struct TableView {
    /// The sequence number that the next request will get.
    pub next_sequence: u64,
    pub entries: Seq<PendingView>,
}

impl View for CookieTable {
    type V = TableView;

    closed spec fn view(&self) -> TableView {
        TableView {
            next_sequence: self.next_sequence,
            entries: self.entries@.map_values(|e: PendingEntry| e@),
        }
    }
}

/// The index of the first entry with the given sequence number, or the
/// number of entries where there is none.
pub open spec fn position(entries: Seq<PendingView>, sequence: u64) -> int
    decreases entries.len(),
{
    if entries.len() == 0 {
        0
    } else if entries[0].sequence == sequence {
        0
    } else {
        1 + position(entries.skip(1), sequence)
    }
}

/// The full sequence number that a 16-bit echo stands for: the latest one
/// already given out whose low sixteen bits are the echo.
pub open spec fn full_sequence(next_sequence: u64, echoed: u16) -> Option<u64> {
    let last = next_sequence - 1;
    let full = last - (last - echoed) % 65536;
    if 1 <= full {
        Some(full as u64)
    } else {
        None
    }
}

/// An entry marked as succeeded where it is a request without a reply,
/// sent before `sequence`, that still waits.
pub open spec fn settled(e: PendingView, sequence: u64) -> PendingView {
    if e.sequence < sequence && e.shape == ReplyShape::NoReply && e.outcome
        == OutcomeView::Waiting {
        PendingView { outcome: OutcomeView::Succeeded, ..e }
    } else {
        e
    }
}

/// The index of the first entry that still waits for its response, or the
/// number of entries where none does.
pub open spec fn first_waiting(entries: Seq<PendingView>) -> int
    decreases entries.len(),
{
    if entries.len() == 0 {
        0
    } else if entries[0].outcome == OutcomeView::Waiting {
        0
    } else {
        1 + first_waiting(entries.skip(1))
    }
}

/// The descriptors that an outcome holds.
pub open spec fn outcome_fds(outcome: OutcomeView) -> Seq<RawFdContainer> {
    match outcome {
        OutcomeView::Reply(_, fds) => fds,
        _ => Seq::empty(),
    }
}

/// The descriptors that the outcomes of a run of entries hold, those of
/// the latest entry first.
pub open spec fn held_fds(entries: Seq<PendingView>) -> Seq<RawFdContainer>
    decreases entries.len(),
{
    if entries.len() == 0 {
        Seq::empty()
    } else {
        outcome_fds(entries.last().outcome) + held_fds(entries.drop_last())
    }
}

impl TableView {
    /// The table's invariant: sequence numbers start at 1, entries stand
    /// in the order they were sent, and every entry that still waits lies
    /// within one wraparound window below the counter.
    pub open spec fn wf(self) -> bool {
        &&& self.next_sequence >= 1
        &&& forall|i: int, j: int|
            0 <= i < j < self.entries.len() ==> self.entries[i].sequence
                < self.entries[j].sequence
        &&& forall|i: int|
            0 <= i < self.entries.len() ==> 1 <= #[trigger] self.entries[i].sequence
                < self.next_sequence && (self.entries[i].outcome == OutcomeView::Waiting
                ==> self.next_sequence - self.entries[i].sequence <= SEQUENCE_WINDOW)
    }

    /// The number of requests in flight: those sent since the oldest whose
    /// response is still to come, that one included. The server answers in
    /// order, so none of them is known to be answered.
    pub open spec fn in_flight(self) -> int {
        let i = first_waiting(self.entries);
        if i < self.entries.len() {
            self.next_sequence - self.entries[i].sequence
        } else {
            0
        }
    }

    /// Why no request can be taken now, if none can: the counter is used
    /// up, or a whole wraparound window of requests is in flight, so that
    /// the echo of one more could be taken for that of the oldest.
    pub open spec fn issue_error(self) -> Option<IssueError> {
        if self.next_sequence == u64::MAX {
            Some(IssueError::SequenceExhausted)
        } else if self.in_flight() >= SEQUENCE_WINDOW {
            Some(IssueError::TooManyPending)
        } else {
            None
        }
    }

    /// The table after it took a request of the given shape.
    pub open spec fn issue(self, shape: ReplyShape) -> TableView {
        TableView {
            next_sequence: (self.next_sequence + 1) as u64,
            entries: self.entries.push(
                PendingView {
                    sequence: self.next_sequence,
                    shape,
                    discard: false,
                    outcome: OutcomeView::Waiting,
                },
            ),
        }
    }

    /// Whether an entry with this sequence number exists.
    pub open spec fn has(self, sequence: u64) -> bool {
        position(self.entries, sequence) < self.entries.len()
    }

    /// The first entry with this sequence number.
    pub open spec fn entry(self, sequence: u64) -> PendingView
        recommends
            self.has(sequence),
    {
        self.entries[position(self.entries, sequence)]
    }

    /// The table after a response to `sequence` was seen: every request
    /// without a reply that was sent earlier and still waits has succeeded.
    pub open spec fn settle(self, sequence: u64) -> TableView {
        TableView { entries: self.entries.map_values(|e: PendingView| settled(e, sequence)), ..self }
    }

    /// The table with the first entry of `sequence` given a new outcome.
    pub open spec fn with_outcome(self, sequence: u64, outcome: OutcomeView) -> TableView
        recommends
            self.has(sequence),
    {
        let i = position(self.entries, sequence);
        TableView {
            entries: self.entries.update(i, PendingView { outcome, ..self.entries[i] }),
            ..self
        }
    }

    /// The table with the first entry of `sequence` marked for discarding.
    pub open spec fn with_discard(self, sequence: u64) -> TableView
        recommends
            self.has(sequence),
    {
        let i = position(self.entries, sequence);
        TableView {
            entries: self.entries.update(i, PendingView { discard: true, ..self.entries[i] }),
            ..self
        }
    }

    /// The table without the first entry of `sequence`.
    pub open spec fn without(self, sequence: u64) -> TableView
        recommends
            self.has(sequence),
    {
        TableView { entries: self.entries.remove(position(self.entries, sequence)), ..self }
    }

    /// The table after the response with the given outcome arrived for
    /// `sequence`. Earlier requests without a reply are settled. The
    /// response is dropped where no entry waits for it; the entry is
    /// freed where it was marked for discarding; else it takes the outcome.
    pub open spec fn complete(self, sequence: u64, outcome: OutcomeView) -> TableView {
        let t = self.settle(sequence);
        if !t.has(sequence) || t.entry(sequence).outcome != OutcomeView::Waiting {
            t
        } else if t.entry(sequence).discard {
            t.without(sequence)
        } else {
            t.with_outcome(sequence, outcome)
        }
    }

    /// The shape of the response that the entry of `sequence` still
    /// waits for, if there is such an entry.
    pub open spec fn awaited(self, sequence: u64) -> Option<ReplyShape> {
        if self.has(sequence) && self.entry(sequence).outcome == OutcomeView::Waiting {
            Some(self.entry(sequence).shape)
        } else {
            None
        }
    }

    /// Whether the outcome of `sequence` is there to be taken.
    pub open spec fn ready(self, sequence: u64) -> bool {
        self.has(sequence) && self.entry(sequence).outcome != OutcomeView::Waiting
    }

    /// The table after the caller gave up the outcome of `sequence`: an
    /// entry that still waits for a reply stays, marked for discarding, so
    /// that the reply and its descriptors can be drained when they come;
    /// any other entry is freed.
    pub open spec fn discard(self, sequence: u64) -> TableView {
        if !self.has(sequence) {
            self
        } else if self.entry(sequence).outcome == OutcomeView::Waiting && self.entry(
            sequence,
        ).shape != ReplyShape::NoReply {
            self.with_discard(sequence)
        } else {
            self.without(sequence)
        }
    }
}

impl TableView {
    /// The descriptors that no entry takes when the response with the
    /// given outcome arrives for `sequence`: those of the outcome, unless
    /// an entry waits for it that was not given up.
    pub open spec fn dropped_on_complete(self, sequence: u64, outcome: OutcomeView) -> Seq<
        RawFdContainer,
    > {
        let t = self.settle(sequence);
        if t.has(sequence) && t.entry(sequence).outcome == OutcomeView::Waiting && !t.entry(
            sequence,
        ).discard {
            Seq::empty()
        } else {
            outcome_fds(outcome)
        }
    }

    /// The descriptors that are left without an owner when the outcome of
    /// `sequence` is given up: those of a reply that had arrived already.
    pub open spec fn dropped_on_discard(self, sequence: u64) -> Seq<RawFdContainer> {
        if self.has(sequence) {
            outcome_fds(self.entry(sequence).outcome)
        } else {
            Seq::empty()
        }
    }
}

impl CookieTable {
    /// An empty table whose first request will get sequence number 1.
    pub fn new() -> (r: Self)
        ensures
            r@ == (TableView { next_sequence: 1, entries: Seq::empty() }),
            r@.wf(),
    {
        let r = CookieTable { next_sequence: 1, entries: Vec::new() };
        assert(r@.entries =~= Seq::empty());
        r
    }

    /// An empty table whose first request will get the sequence number
    /// `next_sequence`, as after that many requests less one.
    pub fn starting_at(next_sequence: u64) -> (r: Self)
        ensures
            r@ == (TableView { next_sequence, entries: Seq::empty() }),
            next_sequence >= 1 ==> r@.wf(),
    {
        let r = CookieTable { next_sequence, entries: Vec::new() };
        assert(r@.entries =~= Seq::empty());
        r
    }

    /// The sequence number that the next request will get.
    pub fn next_sequence(&self) -> (r: u64)
        ensures
            r == self@.next_sequence,
    {
        self.next_sequence
    }

    /// The number of pending entries.
    pub fn len(&self) -> (r: usize)
        ensures
            r == self@.entries.len(),
    {
        self.entries.len()
    }

    /// Gives the next sequence number to a request of the given shape and
    /// records the request as pending. Nothing changes where no number
    /// can be given.
    pub fn issue(&mut self, shape: ReplyShape) -> (r: Result<u64, IssueError>)
        ensures
            match r {
                Ok(sequence) => old(self)@.issue_error().is_none() && sequence == old(
                    self,
                )@.next_sequence && final(self)@ == old(self)@.issue(shape),
                Err(e) => old(self)@.issue_error() == Some(e) && final(self)@ == old(self)@,
            },
            old(self)@.wf() ==> final(self)@.wf(),
    {
        if self.next_sequence == u64::MAX {
            return Err(IssueError::SequenceExhausted);
        }
        let i = self.find_waiting();
        if i < self.entries.len() {
            let oldest: u64 = self.entries[i].sequence;
            if oldest <= self.next_sequence && self.next_sequence - oldest >= SEQUENCE_WINDOW {
                return Err(IssueError::TooManyPending);
            }
        }
        let sequence = self.next_sequence;
        self.entries.push(
            PendingEntry { sequence, shape, discard: false, outcome: Outcome::Waiting },
        );
        self.next_sequence = sequence + 1;
        assert(self@.entries =~= old(self)@.issue(shape).entries);
        proof {
            if old(self)@.wf() {
                lemma_issue_keeps_wf(old(self)@, shape);
            }
        }
        Ok(sequence)
    }

    /// The index of the first entry that still waits for its response.
    fn find_waiting(&self) -> (i: usize)
        ensures
            i == first_waiting(self@.entries),
            i <= self@.entries.len(),
            i < self@.entries.len() ==> self.entries@[i as int]@.sequence
                == self@.entries[i as int].sequence,
    {
        let mut i: usize = 0;
        assert(self@.entries.skip(0) =~= self@.entries);
        while i < self.entries.len()
            invariant
                i <= self.entries@.len(),
                first_waiting(self@.entries) == i + first_waiting(self@.entries.skip(i as int)),
            decreases self.entries@.len() - i,
        {
            let waits = match self.entries[i].outcome {
                Outcome::Waiting => true,
                _ => false,
            };
            if waits {
                return i;
            }
            assert(self@.entries.skip(i as int).skip(1) =~= self@.entries.skip(i + 1));
            i += 1;
        }
        i
    }

    /// The index of the first entry with this sequence number.
    fn find(&self, sequence: u64) -> (i: usize)
        ensures
            i == position(self@.entries, sequence),
            i <= self@.entries.len(),
            i < self@.entries.len() ==> self.entries@[i as int]@.sequence == sequence,
    {
        let mut i: usize = 0;
        assert(self@.entries.skip(0) =~= self@.entries);
        while i < self.entries.len() && self.entries[i].sequence != sequence
            invariant
                i <= self.entries@.len(),
                position(self@.entries, sequence) == i + position(
                    self@.entries.skip(i as int),
                    sequence,
                ),
            decreases self.entries@.len() - i,
        {
            assert(self@.entries.skip(i as int).skip(1) =~= self@.entries.skip(i + 1));
            i += 1;
        }
        i
    }

    /// The shape of the response that the entry of `sequence` still
    /// waits for, if there is such an entry.
    pub fn awaited(&self, sequence: u64) -> (r: Option<ReplyShape>)
        ensures
            r == self@.awaited(sequence),
    {
        let i = self.find(sequence);
        if i < self.entries.len() {
            match self.entries[i].outcome {
                Outcome::Waiting => Some(self.entries[i].shape),
                _ => None,
            }
        } else {
            None
        }
    }

    /// Marks as succeeded every request without a reply that was sent
    /// before `sequence` and still waits.
    fn settle(&mut self, sequence: u64)
        ensures
            final(self)@ == old(self)@.settle(sequence),
    {
        let mut i: usize = 0;
        while i < self.entries.len()
            invariant
                i <= self.entries@.len(),
                self.entries@.len() == old(self).entries@.len(),
                self.next_sequence == old(self).next_sequence,
                forall|j: int| 0 <= j < i ==> #[trigger] self.entries@[j]@ == settled(old(self).entries@[j]@, sequence),
                forall|j: int| i <= j < self.entries@.len() ==> #[trigger] self.entries@[j] == old(self).entries@[j],
            decreases self.entries@.len() - i,
        {
            let waits = match self.entries[i].outcome {
                Outcome::Waiting => true,
                _ => false,
            };
            let is_void = match self.entries[i].shape {
                ReplyShape::NoReply => true,
                _ => false,
            };
            if self.entries[i].sequence < sequence && is_void && waits {
                let e = PendingEntry {
                    sequence: self.entries[i].sequence,
                    shape: self.entries[i].shape,
                    discard: self.entries[i].discard,
                    outcome: Outcome::Succeeded,
                };
                self.entries.set(i, e);
            }
            i += 1;
        }
        assert(self@.entries =~= old(self)@.settle(sequence).entries);
    }

    /// Records the response that arrived for `sequence`. Earlier requests
    /// without a reply are settled, since the server answers in order. The
    /// response is dropped where no entry waits for it, and where the
    /// entry was marked for discarding the entry goes with it. The
    /// descriptors of a dropped response come back, to be closed.
    pub fn complete(&mut self, sequence: u64, outcome: Outcome) -> (dropped: Vec<RawFdContainer>)
        ensures
            final(self)@ == old(self)@.complete(sequence, outcome@),
            dropped@ == old(self)@.dropped_on_complete(sequence, outcome@),
            old(self)@.wf() ==> final(self)@.wf(),
    {
        self.settle(sequence);
        proof {
            if old(self)@.wf() {
                lemma_complete_keeps_wf(old(self)@, sequence, outcome@);
            }
        }
        let i = self.find(sequence);
        if i < self.entries.len() {
            let waits = match self.entries[i].outcome {
                Outcome::Waiting => true,
                _ => false,
            };
            if waits {
                if self.entries[i].discard {
                    self.entries.remove(i);
                    assert(self@.entries =~= old(self)@.complete(sequence, outcome@).entries);
                } else {
                    let e = PendingEntry {
                        sequence: self.entries[i].sequence,
                        shape: self.entries[i].shape,
                        discard: false,
                        outcome,
                    };
                    self.entries.set(i, e);
                    assert(self@.entries =~= old(self)@.complete(sequence, outcome@).entries);
                    return Vec::new();
                }
            }
        }
        match outcome {
            Outcome::Reply(_, fds) => fds,
            _ => Vec::new(),
        }
    }

    /// Hands over the outcome of `sequence` and frees its entry, once a
    /// response has arrived; until then nothing changes.
    pub fn take(&mut self, sequence: u64) -> (r: Option<Outcome>)
        ensures
            r.is_some() <==> old(self)@.ready(sequence),
            r.is_some() ==> r.unwrap()@ == old(self)@.entry(sequence).outcome && final(self)@
                == old(self)@.without(sequence),
            r.is_none() ==> final(self)@ == old(self)@,
            old(self)@.wf() ==> final(self)@.wf(),
    {
        let i = self.find(sequence);
        if i >= self.entries.len() {
            return None;
        }
        let waits = match self.entries[i].outcome {
            Outcome::Waiting => true,
            _ => false,
        };
        if waits {
            return None;
        }
        let e = self.entries.remove(i);
        assert(self@.entries =~= old(self)@.without(sequence).entries);
        proof {
            if old(self)@.wf() {
                lemma_without_keeps_wf(old(self)@, sequence);
            }
        }
        Some(e.outcome)
    }

    /// Gives up the outcome of `sequence`. An entry that still waits for
    /// a reply stays, marked so that the reply is drained when it comes;
    /// any other entry is freed at once, and the descriptors of a reply
    /// that had arrived for it come back, to be closed.
    pub fn discard(&mut self, sequence: u64) -> (dropped: Vec<RawFdContainer>)
        ensures
            final(self)@ == old(self)@.discard(sequence),
            dropped@ == old(self)@.dropped_on_discard(sequence),
            old(self)@.wf() ==> final(self)@.wf(),
    {
        proof {
            if old(self)@.wf() {
                lemma_discard_keeps_wf(old(self)@, sequence);
            }
        }
        let i = self.find(sequence);
        if i >= self.entries.len() {
            return Vec::new();
        }
        let waits = match self.entries[i].outcome {
            Outcome::Waiting => true,
            _ => false,
        };
        let is_void = match self.entries[i].shape {
            ReplyShape::NoReply => true,
            _ => false,
        };
        if waits && !is_void {
            let e = PendingEntry {
                sequence: self.entries[i].sequence,
                shape: self.entries[i].shape,
                discard: true,
                outcome: Outcome::Waiting,
            };
            self.entries.set(i, e);
            assert(self@.entries =~= old(self)@.with_discard(sequence).entries);
            Vec::new()
        } else {
            let e = self.entries.remove(i);
            assert(self@.entries =~= old(self)@.without(sequence).entries);
            match e.outcome {
                Outcome::Reply(_, fds) => fds,
                _ => Vec::new(),
            }
        }
    }

    /// Frees every entry, as when the connection is torn down. The
    /// descriptors of the replies that nobody took come back, to be
    /// closed.
    pub fn clear(&mut self) -> (dropped: Vec<RawFdContainer>)
        ensures
            final(self)@ == (TableView { entries: Seq::empty(), ..old(self)@ }),
            dropped@ == held_fds(old(self)@.entries),
            old(self)@.wf() ==> final(self)@.wf(),
    {
        let mut dropped: Vec<RawFdContainer> = Vec::new();
        while self.entries.len() > 0
            invariant
                self.next_sequence == old(self).next_sequence,
                dropped@ + held_fds(self@.entries) == held_fds(old(self)@.entries),
            decreases self.entries@.len(),
        {
            let ghost before = self@.entries;
            let ghost so_far = dropped@;
            let e = self.entries.pop().unwrap();
            assert(self@.entries =~= before.drop_last());
            assert(e@ == before.last());
            match e.outcome {
                Outcome::Reply(_, fds) => {
                    let mut fds = fds;
                    dropped.append(&mut fds);
                },
                _ => {},
            }
            assert(dropped@ =~= so_far + outcome_fds(before.last().outcome));
            assert(dropped@ + held_fds(self@.entries) =~= so_far + held_fds(before));
        }
        assert(self@.entries =~= Seq::empty());
        assert(dropped@ =~= held_fds(old(self)@.entries));
        dropped
    }

    /// The full sequence number that a 16-bit echo from the server stands
    /// for.
    pub fn resolve(&self, echoed: u16) -> (r: Option<u64>)
        ensures
            r == full_sequence(self@.next_sequence, echoed),
    {
        if self.next_sequence == 0 {
            return None;
        }
        let last: u64 = self.next_sequence - 1;
        let back: u64 = (last % 65536 + 65536 - echoed as u64) % 65536;
        assert(back == (last - echoed) % 65536) by {
            let q: int = last as int / 65536;
            let low: int = last as int % 65536;
            assert(last == q * 65536 + low);
            if low >= echoed {
                assert(back == low - echoed);
                assert(last - echoed == q * 65536 + (low - echoed));
            } else {
                assert(back == low + 65536 - echoed);
                assert(last - echoed == (q - 1) * 65536 + (low + 65536 - echoed));
            }
            lemma_mod_of_sum(q, low - echoed as int);
            lemma_mod_of_sum(q - 1, low + 65536 - echoed as int);
        }
        if back < last {
            Some(last - back)
        } else {
            None
        }
    }
}

/// The remainder of `q * 65536 + r` is the remainder of `r`.
proof fn lemma_mod_of_sum(q: int, r: int)
    ensures
        (q * 65536 + r) % 65536 == r % 65536,
{
    vstd::arithmetic::div_mod::lemma_mod_multiples_vanish(q, r, 65536);
}

/// Taking a request keeps the table's invariant.
pub proof fn lemma_issue_keeps_wf(t: TableView, shape: ReplyShape)
    requires
        t.wf(),
        t.issue_error().is_none(),
    ensures
        t.issue(shape).wf(),
{
    let after = t.issue(shape);
    let w = first_waiting(t.entries);
    lemma_first_waiting(t.entries);
    assert forall|i: int| 0 <= i < after.entries.len() implies 1 <= #[trigger] after.entries[i].sequence
        < after.next_sequence && (after.entries[i].outcome == OutcomeView::Waiting
        ==> after.next_sequence - after.entries[i].sequence <= SEQUENCE_WINDOW) by {
        if i < t.entries.len() {
            assert(after.entries[i] == t.entries[i]);
            if t.entries[i].outcome == OutcomeView::Waiting && w < i {
                assert(t.entries[w].sequence < t.entries[i].sequence);
            }
        }
    }
}

/// Where the first entry that still waits stands, if there is one.
pub proof fn lemma_first_waiting(entries: Seq<PendingView>)
    ensures
        0 <= first_waiting(entries) <= entries.len(),
        first_waiting(entries) < entries.len() ==> entries[first_waiting(entries)].outcome
            == OutcomeView::Waiting,
        forall|j: int|
            0 <= j < first_waiting(entries) ==> (#[trigger] entries[j]).outcome
                != OutcomeView::Waiting,
    decreases entries.len(),
{
    if entries.len() > 0 && entries[0].outcome != OutcomeView::Waiting {
        lemma_first_waiting(entries.skip(1));
        assert forall|j: int| 0 <= j < first_waiting(entries) implies (#[trigger] entries[j]).outcome
            != OutcomeView::Waiting by {
            if j > 0 {
                assert(entries[j] == entries.skip(1)[j - 1]);
            }
        }
    }
}

/// A request can be taken exactly when the counter is not used up and
/// fewer than a whole wraparound window of requests are in flight. Where
/// no entry waits, none is in flight.
pub proof fn lemma_issue_succeeds_within_window(t: TableView)
    ensures
        t.issue_error().is_none() <==> t.next_sequence < u64::MAX && t.in_flight()
            < SEQUENCE_WINDOW,
        (forall|i: int|
            0 <= i < t.entries.len() ==> (#[trigger] t.entries[i]).outcome
                != OutcomeView::Waiting) ==> t.in_flight() == 0,
{
    lemma_first_waiting(t.entries);
}

/// Where the first entry of a sequence number stands, if there is one.
pub proof fn lemma_position(entries: Seq<PendingView>, sequence: u64)
    ensures
        0 <= position(entries, sequence) <= entries.len(),
        position(entries, sequence) < entries.len() ==> entries[position(
            entries,
            sequence,
        )].sequence == sequence,
        forall|j: int|
            0 <= j < position(entries, sequence) ==> (#[trigger] entries[j]).sequence != sequence,
    decreases entries.len(),
{
    if entries.len() > 0 && entries[0].sequence != sequence {
        lemma_position(entries.skip(1), sequence);
        assert forall|j: int| 0 <= j < position(entries, sequence) implies (#[trigger] entries[j]).sequence
            != sequence by {
            if j > 0 {
                assert(entries[j] == entries.skip(1)[j - 1]);
            }
        }
    }
}

/// Freeing an entry keeps the table's invariant.
pub proof fn lemma_without_keeps_wf(t: TableView, sequence: u64)
    requires
        t.wf(),
        t.has(sequence),
    ensures
        t.without(sequence).wf(),
{
    lemma_position(t.entries, sequence);
}

/// Settling the earlier requests keeps the table's invariant.
pub proof fn lemma_settle_keeps_wf(t: TableView, sequence: u64)
    requires
        t.wf(),
    ensures
        t.settle(sequence).wf(),
{
}

/// Recording a response keeps the table's invariant.
pub proof fn lemma_complete_keeps_wf(t: TableView, sequence: u64, outcome: OutcomeView)
    requires
        t.wf(),
    ensures
        t.complete(sequence, outcome).wf(),
{
    let s = t.settle(sequence);
    lemma_settle_keeps_wf(t, sequence);
    lemma_position(s.entries, sequence);
}

/// Giving up an outcome keeps the table's invariant.
pub proof fn lemma_discard_keeps_wf(t: TableView, sequence: u64)
    requires
        t.wf(),
    ensures
        t.discard(sequence).wf(),
{
    lemma_position(t.entries, sequence);
}

/// An index is the position of a sequence number where no earlier entry
/// has that number and the entry there, if any, has it.
pub proof fn lemma_position_is(entries: Seq<PendingView>, sequence: u64, i: int)
    requires
        0 <= i <= entries.len(),
        forall|j: int| 0 <= j < i ==> (#[trigger] entries[j]).sequence != sequence,
        i < entries.len() ==> entries[i].sequence == sequence,
    ensures
        position(entries, sequence) == i,
{
    lemma_position(entries, sequence);
    let p = position(entries, sequence);
    if p < i {
        assert(entries[p].sequence != sequence);
    }
}

/// The server's 16-bit echo of a sequence number within one wraparound
/// window below the counter stands for that sequence number and no other.
pub proof fn lemma_echo_resolves(next_sequence: u64, sequence: u64)
    requires
        1 <= sequence < next_sequence,
        next_sequence - sequence <= SEQUENCE_WINDOW,
    ensures
        full_sequence(next_sequence, (sequence % 65536) as u16) == Some(sequence),
{
    let last: int = next_sequence - 1;
    let echoed: int = sequence as int % 65536;
    let q: int = sequence as int / 65536;
    let gap: int = last - sequence;
    assert(last - echoed == q * 65536 + gap);
    lemma_mod_of_sum(q, gap);
    assert(gap % 65536 == gap);
}

/// Two requests taken one after the other get consecutive sequence
/// numbers, the later the greater, and stand in the table in that order.
pub proof fn lemma_sequences_increase(t: TableView, first: ReplyShape, second: ReplyShape)
    requires
        t.issue_error().is_none(),
        t.issue(first).issue_error().is_none(),
    ensures
        t.issue(first).entries.last().sequence == t.next_sequence,
        t.issue(first).issue(second).entries.last().sequence == t.next_sequence + 1,
        t.issue(first).issue(second).entries == t.entries.push(t.issue(first).entries.last()).push(
            t.issue(first).issue(second).entries.last(),
        ),
{
}

/// In a well-formed table the sequence number of every entry that still
/// waits is found again from its 16-bit echo, and its entry is the only
/// one with that number.
pub proof fn lemma_pending_echo_is_unique(t: TableView, i: int)
    requires
        t.wf(),
        0 <= i < t.entries.len(),
        t.entries[i].outcome == OutcomeView::Waiting,
    ensures
        full_sequence(t.next_sequence, (t.entries[i].sequence % 65536) as u16) == Some(
            t.entries[i].sequence,
        ),
        position(t.entries, t.entries[i].sequence) == i,
{
    lemma_echo_resolves(t.next_sequence, t.entries[i].sequence);
    lemma_position_is(t.entries, t.entries[i].sequence, i);
}

/// A response that arrives for a waiting entry that was not given up
/// becomes that entry's outcome, ready to be taken.
pub proof fn lemma_complete_resolves(t: TableView, sequence: u64, outcome: OutcomeView)
    requires
        t.wf(),
        t.awaited(sequence).is_some(),
        !t.entry(sequence).discard,
        outcome != OutcomeView::Waiting,
    ensures
        t.complete(sequence, outcome).ready(sequence),
        t.complete(sequence, outcome).entry(sequence).outcome == outcome,
        t.complete(sequence, outcome).entry(sequence).shape == t.entry(sequence).shape,
{
    let s = t.settle(sequence);
    let i = position(t.entries, sequence);
    lemma_position(t.entries, sequence);
    lemma_position_is(s.entries, sequence, i);
    let after = s.with_outcome(sequence, outcome);
    lemma_position_is(after.entries, sequence, i);
}

/// Giving up an entry that waits for a reply, and then recording the
/// response when it comes, frees the entry and leaves every entry sent
/// after it as it was.
pub proof fn lemma_discarded_response_is_dropped(
    t: TableView,
    sequence: u64,
    outcome: OutcomeView,
    later: u64,
)
    requires
        t.wf(),
        t.awaited(sequence).is_some(),
        t.awaited(sequence) != Some(ReplyShape::NoReply),
        later > sequence,
    ensures
        !t.discard(sequence).complete(sequence, outcome).has(sequence),
        t.discard(sequence).complete(sequence, outcome).wf(),
        t.discard(sequence).complete(sequence, outcome).has(later) == t.has(later),
        t.has(later) ==> t.discard(sequence).complete(sequence, outcome).entry(later) == t.entry(
            later,
        ),
{
    let i = position(t.entries, sequence);
    lemma_position(t.entries, sequence);
    let d = t.discard(sequence);
    lemma_discard_keeps_wf(t, sequence);
    lemma_position_is(d.entries, sequence, i);
    let s = d.settle(sequence);
    lemma_position_is(s.entries, sequence, i);
    let after = d.complete(sequence, outcome);
    assert(after.entries == s.entries.remove(i));
    lemma_complete_keeps_wf(d, sequence, outcome);
    // No entry of the sequence number is left.
    assert forall|j: int| 0 <= j < after.entries.len() implies (#[trigger] after.entries[j]).sequence
        != sequence by {
        let j0 = if j < i { j } else { j + 1 };
        assert(after.entries[j] == s.entries[j0]);
        assert(t.entries[j0].sequence != t.entries[i].sequence);
    }
    lemma_position_is(after.entries, sequence, after.entries.len() as int);
    // The entries sent later stand one place further to the front.
    let p = position(t.entries, later);
    lemma_position(t.entries, later);
    if p < t.entries.len() {
        assert(p > i) by {
            if p < i {
                assert(t.entries[p].sequence < t.entries[i].sequence);
            }
        }
        assert forall|j: int| 0 <= j < p - 1 implies (#[trigger] after.entries[j]).sequence
            != later by {
            let j0 = if j < i { j } else { j + 1 };
            assert(after.entries[j] == s.entries[j0]);
            assert(t.entries[j0].sequence != later);
        }
        assert(after.entries[p - 1] == s.entries[p]);
        lemma_position_is(after.entries, later, p - 1);
    } else {
        assert forall|j: int| 0 <= j < after.entries.len() implies (#[trigger] after.entries[j]).sequence
            != later by {
            let j0 = if j < i { j } else { j + 1 };
            assert(after.entries[j] == s.entries[j0]);
            assert(t.entries[j0].sequence != later);
        }
        lemma_position_is(after.entries, later, after.entries.len() as int);
    }
}

/// A response to a later request proves an earlier request without a
/// reply that still waits: once the later response is recorded, whatever
/// it is, the earlier request has succeeded.
pub proof fn lemma_later_response_settles(
    t: TableView,
    sequence: u64,
    later: u64,
    outcome: OutcomeView,
)
    requires
        t.wf(),
        t.awaited(sequence) == Some(ReplyShape::NoReply),
        later > sequence,
    ensures
        t.complete(later, outcome).ready(sequence),
        t.complete(later, outcome).entry(sequence).outcome == OutcomeView::Succeeded,
{
    let i = position(t.entries, sequence);
    lemma_position(t.entries, sequence);
    let s = t.settle(later);
    lemma_position_is(s.entries, sequence, i);
    let j = position(s.entries, later);
    lemma_position(s.entries, later);
    let after = t.complete(later, outcome);
    if j < s.entries.len() {
        assert(i < j) by {
            if j < i {
                assert(t.entries[j].sequence < t.entries[i].sequence);
            }
        }
        assert(after.entries[i] == s.entries[i]);
        assert forall|k: int| 0 <= k < i implies (#[trigger] after.entries[k]).sequence
            != sequence by {
            assert(after.entries[k].sequence == s.entries[k].sequence);
        }
    }
    lemma_position_is(after.entries, sequence, i);
}

/// The descriptors that the outcomes of a run of entries hold, whatever
/// their order.
pub open spec fn held(entries: Seq<PendingView>) -> Multiset<RawFdContainer> {
    held_fds(entries).to_multiset()
}

/// No descriptors, as a multiset, are the empty multiset.
pub proof fn lemma_no_descriptors()
    ensures
        Seq::<RawFdContainer>::empty().to_multiset() =~= Multiset::empty(),
{
    let none = Seq::<RawFdContainer>::empty();
    lemma_multiset_commutative(none, none);
    assert(none + none =~= none);
}

/// The descriptors that a run of entries holds are those of any one
/// entry and those of the others.
proof fn lemma_held_remove(entries: Seq<PendingView>, i: int)
    requires
        0 <= i < entries.len(),
    ensures
        held(entries) =~= held(entries.remove(i)).add(
            outcome_fds(entries[i].outcome).to_multiset(),
        ),
    decreases entries.len(),
{
    let last = entries.last();
    let front = entries.drop_last();
    lemma_multiset_commutative(outcome_fds(last.outcome), held_fds(front));
    if i == entries.len() - 1 {
        assert(entries.remove(i) =~= front);
    } else {
        let others = entries.remove(i);
        assert(others.last() == last);
        assert(others.drop_last() =~= front.remove(i));
        lemma_held_remove(front, i);
        lemma_multiset_commutative(outcome_fds(last.outcome), held_fds(front.remove(i)));
    }
}

/// Settling earlier requests moves no descriptor.
proof fn lemma_held_settle(t: TableView, sequence: u64)
    ensures
        held_fds(t.settle(sequence).entries) == held_fds(t.entries),
    decreases t.entries.len(),
{
    if t.entries.len() > 0 {
        let front = TableView { entries: t.entries.drop_last(), ..t };
        lemma_held_settle(front, sequence);
        assert(t.settle(sequence).entries.drop_last() =~= front.settle(sequence).entries);
    }
}

/// When a response is recorded, its descriptors go to the entry that
/// takes it or come back as dropped; no other descriptor moves.
pub proof fn lemma_complete_keeps_descriptors(t: TableView, sequence: u64, outcome: OutcomeView)
    ensures
        held(t.complete(sequence, outcome).entries).add(
            t.dropped_on_complete(sequence, outcome).to_multiset(),
        ) =~= held(t.entries).add(outcome_fds(outcome).to_multiset()),
{
    let s = t.settle(sequence);
    lemma_held_settle(t, sequence);
    lemma_no_descriptors();
    let i = position(s.entries, sequence);
    lemma_position(s.entries, sequence);
    if s.has(sequence) && s.entry(sequence).outcome == OutcomeView::Waiting {
        lemma_held_remove(s.entries, i);
        if !s.entry(sequence).discard {
            let after = s.with_outcome(sequence, outcome);
            lemma_held_remove(after.entries, i);
            assert(after.entries.remove(i) =~= s.entries.remove(i));
        }
    }
}

/// When an outcome is given up, the descriptors of a reply that had
/// arrived come back as dropped; no other descriptor moves.
pub proof fn lemma_discard_keeps_descriptors(t: TableView, sequence: u64)
    ensures
        held(t.discard(sequence).entries).add(t.dropped_on_discard(sequence).to_multiset())
            =~= held(t.entries),
{
    let i = position(t.entries, sequence);
    lemma_position(t.entries, sequence);
    lemma_no_descriptors();
    if t.has(sequence) {
        lemma_held_remove(t.entries, i);
        if t.entry(sequence).outcome == OutcomeView::Waiting && t.entry(sequence).shape
            != ReplyShape::NoReply {
            let after = t.with_discard(sequence);
            lemma_held_remove(after.entries, i);
            assert(after.entries.remove(i) =~= t.entries.remove(i));
        }
    }
}

/// When an outcome is taken, its descriptors go to the caller; no other
/// descriptor moves.
pub proof fn lemma_take_keeps_descriptors(t: TableView, sequence: u64)
    requires
        t.has(sequence),
    ensures
        held(t.without(sequence).entries).add(
            outcome_fds(t.entry(sequence).outcome).to_multiset(),
        ) =~= held(t.entries),
{
    lemma_position(t.entries, sequence);
    lemma_held_remove(t.entries, position(t.entries, sequence));
}

} // verus!
