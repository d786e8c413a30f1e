//! Server-side tracking of probe sequence numbers, one tracker per connection.

use vstd::prelude::*;

verus! {

/// Number of slots in a connection's history of received sequence numbers.
pub const PING_COUNT: usize = 1024;

/// What the tracker made of one received probe, judged against the probe
/// received just before it.
#[derive(Clone, Copy, Debug, PartialEq, Eq, Structural)]
pub enum Arrival {
    /// No probe was received before this one.
    First,
    /// The sequence number is lower than the previous one.
    OutOfOrder,
    /// The sequence number equals the previous one.
    Duplicate,
    /// The sequence number is higher than the previous one; `gap` sequence
    /// numbers between the two were never seen.
    InOrder { gap: u64 },
}

/// Why a probe was dropped.
#[derive(Clone, Copy, Debug, PartialEq, Eq, Structural)]
pub enum TrackerError {
    /// The connection has no tracker state.
    Uninitialized,
}

/// Classification of a probe numbered `seq_num` that follows one numbered
/// `prev`; a `prev` of zero stands for "no probe yet".
pub open spec fn classify(prev: u64, seq_num: u64) -> Arrival {
    if prev == 0 {
        Arrival::First
    } else if seq_num < prev {
        Arrival::OutOfOrder
    } else if seq_num == prev {
        Arrival::Duplicate
    } else {
        Arrival::InOrder { gap: (seq_num - prev - 1) as u64 }
    }
}

/// Number of sequence numbers missed between `prev` and `seq_num`: nonzero
/// only for an in-order arrival.
pub open spec fn gap_between(prev: u64, seq_num: u64) -> nat {
    if prev != 0 && seq_num > prev {
        (seq_num - prev - 1) as nat
    } else {
        0
    }
}

/// `x` cut off at the largest value of the gap counter.
pub open spec fn saturate(x: nat) -> u64 {
    if x > u64::MAX {
        u64::MAX
    } else {
        x as u64
    }
}

/// Sum, over the consecutive pairs of `probes` in which the later number is
/// the higher, of the count of numbers strictly between the two.
pub open spec fn gap_sum(probes: Seq<u64>) -> nat
    decreases probes.len(),
{
    if probes.len() < 2 {
        0
    } else {
        gap_sum(probes.drop_last()) + (if probes[probes.len() - 1] > probes[probes.len() - 2] {
            (probes[probes.len() - 1] - probes[probes.len() - 2] - 1) as nat
        } else {
            0
        })
    }
}

/// Every value of `probes` is nonzero.
pub open spec fn all_nonzero(probes: Seq<u64>) -> bool {
    forall|i: int| 0 <= i < probes.len() ==> probes[i] != 0
}

/// Each value of `probes` is higher than the one before it.
pub open spec fn strictly_increasing(probes: Seq<u64>) -> bool {
    forall|i: int, j: int| 0 <= i < j < probes.len() ==> probes[i] < probes[j]
}

/// Mathematical model of a connection's tracker, and the state that is
/// replicated to the client.
pub struct TrackerState {
    /// Slot of the probe received last.
    pub last_idx: int,
    /// Circular history of received sequence numbers; zero marks a slot never
    /// written.
    pub history: Seq<u64>,
    /// Cumulative size of the gaps detected.
    pub gap: u64,
}

impl TrackerState {
    /// State of a connection that has received nothing: an all-zero history
    /// and the cursor on the last slot, so that the first probe lands in
    /// slot zero.
    pub open spec fn fresh() -> TrackerState {
        TrackerState {
            last_idx: PING_COUNT - 1,
            history: Seq::new(PING_COUNT as nat, |i: int| 0u64),
            gap: 0,
        }
    }

    /// The history has exactly `PING_COUNT` slots and the cursor is among
    /// them.
    pub open spec fn valid(self) -> bool {
        &&& self.history.len() == PING_COUNT
        &&& 0 <= self.last_idx < PING_COUNT
    }

    /// Sequence number of the probe received last, zero if there was none.
    pub open spec fn previous(self) -> u64 {
        self.history[self.last_idx]
    }

    /// State after a probe numbered `seq_num` arrives: the cursor advances by
    /// one slot, modulo the history's length, the slot it reaches takes
    /// `seq_num`, and the gap counter grows by the gap to the previous probe,
    /// saturating.
    pub open spec fn receive(self, seq_num: u64) -> TrackerState {
        let idx = (self.last_idx + 1) % (PING_COUNT as int);
        TrackerState {
            last_idx: idx,
            history: self.history.update(idx, seq_num),
            gap: saturate(self.gap as nat + gap_between(self.previous(), seq_num)),
        }
    }

    /// State after the probes of `probes` arrive, first to last.
    pub open spec fn receive_all(self, probes: Seq<u64>) -> TrackerState
        decreases probes.len(),
    {
        if probes.len() == 0 {
            self
        } else {
            self.receive_all(probes.drop_last()).receive(probes.last())
        }
    }
}

/// A duplicate of the previous probe never changes the gap counter, and is
/// classified as a duplicate once any probe has been seen.
pub proof fn lemma_duplicate_keeps_gap(t: TrackerState, seq_num: u64)
    requires
        t.valid(),
        seq_num == t.previous(),
    ensures
        t.receive(seq_num).gap == t.gap,
        seq_num != 0 ==> classify(t.previous(), seq_num) == Arrival::Duplicate,
{
}

/// A probe numbered lower than the previous one never changes the gap
/// counter, and its classification differs from that of a duplicate.
pub proof fn lemma_out_of_order_keeps_gap(t: TrackerState, seq_num: u64)
    requires
        t.valid(),
        seq_num < t.previous(),
    ensures
        t.receive(seq_num).gap == t.gap,
        classify(t.previous(), seq_num) == Arrival::OutOfOrder,
        classify(t.previous(), seq_num) != Arrival::Duplicate,
{
}

/// The gap counter never decreases, and only an in-order arrival that skips
/// numbers changes it.
pub proof fn lemma_gap_monotonic(t: TrackerState, seq_num: u64)
    requires
        t.valid(),
    ensures
        t.receive(seq_num).valid(),
        t.receive(seq_num).gap >= t.gap,
        t.receive(seq_num).previous() == seq_num,
        t.receive(seq_num).gap != t.gap ==> (exists|gap: u64|
            gap > 0 && classify(t.previous(), seq_num) == (Arrival::InOrder { gap })),
{
    let r = t.receive(seq_num);
    if r.gap != t.gap {
        let gap = (seq_num - t.previous() - 1) as u64;
        assert(gap > 0 && classify(t.previous(), seq_num) == (Arrival::InOrder { gap }));
    }
}

/// From a state with no previous probe, after any run of nonzero sequence
/// numbers the gap counter has grown by the gap sum of the run (saturating),
/// and the last number of the run is the previous probe.
pub proof fn lemma_gap_accumulates(t: TrackerState, probes: Seq<u64>)
    requires
        t.valid(),
        t.previous() == 0,
        all_nonzero(probes),
    ensures
        t.receive_all(probes).valid(),
        t.receive_all(probes).gap == saturate(t.gap as nat + gap_sum(probes)),
        probes.len() > 0 ==> t.receive_all(probes).previous() == probes.last(),
    decreases probes.len(),
{
    if probes.len() > 0 {
        let front = probes.drop_last();
        lemma_gap_accumulates(t, front);
        lemma_gap_monotonic(t.receive_all(front), probes.last());
        if front.len() > 0 {
            assert(front.last() == probes[probes.len() - 2]);
        }
    }
}

/// The gap sum of a strictly increasing run is its span less the numbers
/// that the run itself holds.
pub proof fn lemma_gap_sum_increasing(probes: Seq<u64>)
    requires
        strictly_increasing(probes),
        probes.len() > 0,
    ensures
        gap_sum(probes) == probes.last() - probes[0] - (probes.len() - 1),
    decreases probes.len(),
{
    if probes.len() >= 2 {
        let front = probes.drop_last();
        lemma_gap_sum_increasing(front);
        assert(front.last() == probes[probes.len() - 2]);
    }
}

/// For a fresh connection that receives probes with strictly increasing,
/// nonzero sequence numbers, the gap counter equals the sum, over the
/// consecutive pairs, of the count of numbers skipped between them.
pub proof fn lemma_gap_counter_is_gap_sum(probes: Seq<u64>)
    requires
        strictly_increasing(probes),
        all_nonzero(probes),
    ensures
        TrackerState::fresh().receive_all(probes).gap == gap_sum(probes),
{
    lemma_gap_accumulates(TrackerState::fresh(), probes);
    if probes.len() > 0 {
        lemma_gap_sum_increasing(probes);
    }
}

/// Per-connection record of the sequence numbers received.
pub struct SequenceTracker {
    last_idx: usize,
    history: [u64; PING_COUNT],
    gap: u64,
}

impl View for SequenceTracker {
    type V = TrackerState;

    closed spec fn view(&self) -> TrackerState {
        TrackerState { last_idx: self.last_idx as int, history: self.history@, gap: self.gap }
    }
}

impl SequenceTracker {
    /// The tracker's invariant: a history of `PING_COUNT` slots and a cursor
    /// among them.
    pub open spec fn wf(&self) -> bool {
        self@.valid()
    }

    /// Tracker state of a connection that has just been set up.
    pub fn new() -> (r: Self)
        ensures
            r.wf(),
            r@ == TrackerState::fresh(),
    {
        let r = SequenceTracker { last_idx: PING_COUNT - 1, history: [0u64;PING_COUNT], gap: 0 };
        proof {
            assert(r.history@ =~= Seq::new(PING_COUNT as nat, |i: int| 0u64));
        }
        r
    }

    /// The tracker that a replicated snapshot describes; none where the
    /// snapshot is no tracker state: a history of another length than
    /// `PING_COUNT`, or a cursor outside it.
    pub fn restore(last_idx: u64, history: &[u64], gap: u64) -> (r: Option<Self>)
        ensures
            r.is_some() <==> history@.len() == PING_COUNT && last_idx < PING_COUNT,
            r matches Some(t) ==> t.wf() && t@ == (TrackerState {
                last_idx: last_idx as int,
                history: history@,
                gap,
            }),
    {
        if history.len() != PING_COUNT || last_idx >= PING_COUNT as u64 {
            return None;
        }
        let mut slots = [0u64;PING_COUNT];
        let mut i: usize = 0;
        while i < PING_COUNT
            invariant
                i <= PING_COUNT,
                history@.len() == PING_COUNT,
                forall|j: int| 0 <= j < i ==> slots@[j] == history@[j],
            decreases PING_COUNT - i,
        {
            slots[i] = history[i];
            i = i + 1;
        }
        proof {
            assert(slots@ =~= history@);
        }
        Some(SequenceTracker { last_idx: last_idx as usize, history: slots, gap })
    }

    /// Records the arrival of a probe numbered `seq_num` and says how it was
    /// classified against the probe before it.
    pub fn on_probe(&mut self, seq_num: u64) -> (r: Arrival)
        requires
            old(self).wf(),
        ensures
            final(self).wf(),
            final(self)@ == old(self)@.receive(seq_num),
            r == classify(old(self)@.previous(), seq_num),
            seq_num <= old(self)@.previous() ==> final(self)@.gap == old(self)@.gap,
            final(self)@.gap >= old(self)@.gap,
    {
        let prev: u64 = self.history[self.last_idx];
        let idx: usize = (self.last_idx + 1) % PING_COUNT;
        let arrival = if prev == 0 {
            Arrival::First
        } else if seq_num < prev {
            Arrival::OutOfOrder
        } else if seq_num == prev {
            Arrival::Duplicate
        } else {
            Arrival::InOrder { gap: seq_num - prev - 1 }
        };
        let gap: u64 = match arrival {
            Arrival::InOrder { gap } => gap,
            _ => 0,
        };
        self.history[idx] = seq_num;
        self.last_idx = idx;
        self.gap = self.gap.saturating_add(gap);
        arrival
    }

    /// Slot of the probe received last.
    pub fn last_processed_index(&self) -> (r: u64)
        ensures
            r == self@.last_idx,
    {
        self.last_idx as u64
    }

    /// The circular history of received sequence numbers.
    pub fn recent_seq_nums(&self) -> (r: &[u64; PING_COUNT])
        ensures
            r@ == self@.history,
    {
        &self.history
    }

    /// Cumulative size of the gaps detected so far.
    pub fn cumulative_seq_gap(&self) -> (r: u64)
        ensures
            r == self@.gap,
    {
        self.gap
    }
}

/// Handles a probe numbered `seq_num` for a connection whose tracker state is
/// `conn`. A connection that was never set up has none: the probe is dropped
/// and reported, and nothing changes.
pub fn on_message(conn: &mut Option<SequenceTracker>, seq_num: u64) -> (r: Result<
    Arrival,
    TrackerError,
>)
    requires
        *old(conn) matches Some(t) ==> t.wf(),
    ensures
        *old(conn) is None ==> *final(conn) is None && r == Err::<Arrival, TrackerError>(
            TrackerError::Uninitialized,
        ),
        *old(conn) matches Some(t) ==> {
            &&& *final(conn) matches Some(u) && u.wf() && u@ == t@.receive(seq_num)
            &&& r == Ok::<Arrival, TrackerError>(classify(t@.previous(), seq_num))
        },
{
    match conn.take() {
        None => Err(TrackerError::Uninitialized),
        Some(mut tracker) => {
            let arrival = tracker.on_probe(seq_num);
            *conn = Some(tracker);
            Ok(arrival)
        },
    }
}

} // verus!
