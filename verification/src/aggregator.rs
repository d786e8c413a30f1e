//! Client-side aggregation of round-trip times from the server's replicated
//! history of received sequence numbers.

use crate::histogram::{
    histogram_of, histogram_sum, lemma_histogram_sums, lemma_occurrences_bound, occurrences,
};
use crate::rolling::{lemma_total_bound, total, RollingAverageBuffer, Window, SLOT_MAX};
use std::collections::HashMap;
use vstd::prelude::*;

verus! {

/// Number of samples that the rolling average covers.
pub const ROLLING_AVERAGE_BUFFER_SIZE: usize = 60;

/// Round-trip time of a probe sent at `sent` and seen acknowledged at `now`;
/// zero where the clock ran backwards in between.
pub open spec fn latency(now: u64, sent: u64) -> u64 {
    if now >= sent {
        (now - sent) as u64
    } else {
        0
    }
}

/// Mathematical model of the aggregator: every statistic is a function of
/// the latencies recorded so far.
pub struct AggregatorState {
    /// The latency of each matched probe, in the order of matching.
    pub samples: Seq<u64>,
    /// Highest sequence number matched, zero if none was.
    pub highest_seq: u64,
    /// Send time of the probe numbered `highest_seq`.
    pub highest_send_time: u64,
}

impl AggregatorState {
    /// State before any probe was matched.
    pub open spec fn empty() -> AggregatorState {
        AggregatorState { samples: Seq::empty(), highest_seq: 0, highest_send_time: 0 }
    }

    /// State after the probe numbered `seq_num`, sent at `sent`, is seen
    /// acknowledged at `now`.
    pub open spec fn record(self, seq_num: u64, sent: u64, now: u64) -> AggregatorState {
        AggregatorState {
            samples: self.samples.push(latency(now, sent)),
            highest_seq: if seq_num > self.highest_seq {
                seq_num
            } else {
                self.highest_seq
            },
            highest_send_time: if seq_num > self.highest_seq {
                sent
            } else {
                self.highest_send_time
            },
        }
    }

    /// The latency histogram: for each latency observed, the number of
    /// matched probes that had it.
    pub open spec fn histogram(self) -> Map<u64, nat> {
        histogram_of(self.samples)
    }

    /// Count of the matched probes whose latency was `value`: the
    /// histogram's entry for it, zero where it has none.
    pub open spec fn count_of(self, value: u64) -> nat {
        if self.histogram().contains_key(value) {
            self.histogram()[value]
        } else {
            0
        }
    }

    /// Mean latency over the whole session, rounded down; none before the
    /// first match.
    pub open spec fn session_average(self) -> Option<u64> {
        if self.samples.len() == 0 {
            None
        } else {
            Some((total(self.samples) / self.samples.len()) as u64)
        }
    }

    /// The rolling window: a zeroed window into which every sample went.
    pub open spec fn window(self) -> Window {
        Window::zeroed(ROLLING_AVERAGE_BUFFER_SIZE as nat).push_all(self.samples)
    }

    /// Time since the probe with the highest matched number was sent; none
    /// before the first match.
    pub open spec fn world_latency(self, now: u64) -> Option<u64> {
        if self.highest_seq == 0 {
            None
        } else {
            Some(latency(now, self.highest_send_time))
        }
    }
}

/// The aggregator's statistics together with the probes still awaiting a
/// match, keyed by sequence number and holding the send time.
pub struct Matching {
    pub agg: AggregatorState,
    pub pending: Map<u64, u64>,
}

impl Matching {
    /// Effect of seeing `seq_num` in the replicated history at `now`: if the
    /// probe is pending, its latency is recorded and it stops being pending;
    /// otherwise nothing changes.
    pub open spec fn observe_one(self, seq_num: u64, now: u64) -> Matching {
        if self.pending.contains_key(seq_num) {
            Matching {
                agg: self.agg.record(seq_num, self.pending[seq_num], now),
                pending: self.pending.remove(seq_num),
            }
        } else {
            self
        }
    }

    /// Effect of seeing the whole replicated history `window` at `now`, slot
    /// by slot.
    pub open spec fn observe(self, window: Seq<u64>, now: u64) -> Matching
        decreases window.len(),
    {
        if window.len() == 0 {
            self
        } else {
            self.observe(window.drop_last(), now).observe_one(window.last(), now)
        }
    }
}

/// The session average is the weighted mean over the histogram: the sum of
/// latency times count, divided by the sum of the counts.
pub proof fn lemma_session_average_is_weighted_mean(a: AggregatorState)
    ensures
        a.histogram().dom().finite(),
        histogram_sum(a.histogram(), false) == a.samples.len(),
        a.samples.len() > 0 ==> a.session_average() == Some(
            (histogram_sum(a.histogram(), true) / histogram_sum(a.histogram(), false)) as u64,
        ),
{
    lemma_histogram_sums(a.samples);
}

/// A matched probe yields one sample, its round-trip time, and is no longer
/// pending; seeing its number again, at any later time, changes nothing.
pub proof fn lemma_matched_at_most_once(m: Matching, seq_num: u64, now: u64, later: u64)
    requires
        m.pending.contains_key(seq_num),
    ensures
        m.observe_one(seq_num, now).agg.samples == m.agg.samples.push(
            latency(now, m.pending[seq_num]),
        ),
        !m.observe_one(seq_num, now).pending.contains_key(seq_num),
        m.observe_one(seq_num, now).observe_one(seq_num, later) == m.observe_one(seq_num, now),
{
}

/// Seeing a history never adds a pending probe, matches only probes that
/// were pending, and keeps the count of samples plus pending probes.
pub proof fn lemma_observe_accounting(m: Matching, window: Seq<u64>, now: u64)
    requires
        m.pending.dom().finite(),
    ensures
        m.observe(window, now).pending.dom().finite(),
        m.observe(window, now).pending.submap_of(m.pending),
        m.observe(window, now).agg.samples.len() + m.observe(window, now).pending.len()
            == m.agg.samples.len() + m.pending.len(),
        m.observe(window, now).agg.highest_seq == m.agg.highest_seq || m.pending.contains_key(
            m.observe(window, now).agg.highest_seq,
        ),
        m.observe(window, now).agg.highest_seq >= m.agg.highest_seq,
    decreases window.len(),
{
    if window.len() > 0 {
        let mid = m.observe(window.drop_last(), now);
        lemma_observe_accounting(m, window.drop_last(), now);
        if mid.pending.contains_key(window.last()) {
            mid.pending.lemma_remove_key_len(window.last());
        }
    }
}

/// Matches the server's replicated history against the pending probes and
/// keeps session-wide and rolling statistics of the round-trip times.
pub struct RttAggregator {
    histogram: HashMap<u64, u64>,
    rolling: RollingAverageBuffer<ROLLING_AVERAGE_BUFFER_SIZE>,
    count: u64,
    sum: u128,
    highest_seq: u64,
    highest_send_time: u64,
    samples: Ghost<Seq<u64>>,
}

impl View for RttAggregator {
    type V = AggregatorState;

    closed spec fn view(&self) -> AggregatorState {
        AggregatorState {
            samples: self.samples@,
            highest_seq: self.highest_seq,
            highest_send_time: self.highest_send_time,
        }
    }
}

impl RttAggregator {
    /// The aggregator's invariant: the histogram, the rolling window, the
    /// count and the sum all agree with the samples recorded.
    pub closed spec fn wf(&self) -> bool {
        &&& self.rolling.wf()
        &&& self.rolling@ == self@.window()
        &&& self.count == self.samples@.len()
        &&& self.sum == total(self.samples@)
        &&& forall|v: u64|
            self.histogram@.contains_key(v) <==> #[trigger] occurrences(self.samples@, v) > 0
        &&& forall|v: u64|
            self.histogram@.contains_key(v) ==> self.histogram@[v] == #[trigger] occurrences(
                self.samples@,
                v,
            )
    }

    /// An aggregator that has matched nothing.
    pub fn new() -> (r: Self)
        ensures
            r.wf(),
            r@ == AggregatorState::empty(),
    {
        RttAggregator {
            histogram: HashMap::new(),
            rolling: RollingAverageBuffer::default(),
            count: 0,
            sum: 0,
            highest_seq: 0,
            highest_send_time: 0,
            samples: Ghost(Seq::empty()),
        }
    }

    /// Records the match of the probe numbered `seq_num`, sent at `sent`
    /// and seen acknowledged at `now`.
    pub fn record(&mut self, seq_num: u64, sent: u64, now: u64)
        requires
            old(self).wf(),
            old(self)@.samples.len() < u64::MAX,
        ensures
            final(self).wf(),
            final(self)@ == old(self)@.record(seq_num, sent, now),
    {
        let value: u64 = now.saturating_sub(sent);
        let ghost before = self.samples@;
        let ghost after = before.push(value);
        proof {
            assert(after.drop_last() =~= before);
            lemma_total_bound(before);
            lemma_occurrences_bound(before, value);
            assert(before.len() * SLOT_MAX + SLOT_MAX <= u128::MAX) by (nonlinear_arith)
                requires
                    before.len() < 0xffff_ffff_ffff_ffff,
            ;
        }
        let seen: u64 = match self.histogram.get(&value) {
            Some(n) => *n,
            None => 0,
        };
        self.histogram.insert(value, seen + 1);
        self.rolling.add(value);
        self.count = self.count + 1;
        self.sum = self.sum + (value as u128);
        if seq_num > self.highest_seq {
            self.highest_seq = seq_num;
            self.highest_send_time = sent;
        }
        self.samples = Ghost(after);
        proof {
            assert(self.rolling@ == self@.window());
            assert forall|v: u64| #[trigger]
                occurrences(after, v) == occurrences(before, v) + if value == v {
                    1nat
                } else {
                    0nat
                } by {}
        }
    }

    /// One pass over the replicated history `window` at time `now`: every
    /// slot whose number is still in `pending` is matched, its latency
    /// recorded and its entry removed from `pending`.
    pub fn observe(&mut self, now: u64, window: &[u64], pending: &mut HashMap<u64, u64>)
        requires
            old(self).wf(),
            old(self)@.samples.len() + old(pending)@.len() <= u64::MAX,
        ensures
            final(self).wf(),
            (Matching { agg: final(self)@, pending: final(pending)@ }) == (Matching {
                agg: old(self)@,
                pending: old(pending)@,
            }).observe(window@, now),
    {
        let ghost start = Matching { agg: self@, pending: pending@ };
        proof {
            vstd::std_specs::hash::axiom_hashmap_view_finite_dom(*pending);
        }
        let mut i: usize = 0;
        while i < window.len()
            invariant
                i <= window.len(),
                self.wf(),
                start.pending.dom().finite(),
                start.agg.samples.len() + start.pending.len() <= u64::MAX,
                (Matching { agg: self@, pending: pending@ }) == start.observe(
                    window@.take(i as int),
                    now,
                ),
            decreases window.len() - i,
        {
            let seq_num: u64 = window[i];
            proof {
                assert(window@.take(i + 1).drop_last() =~= window@.take(i as int));
                lemma_observe_accounting(start, window@.take(i as int), now);
                if pending@.contains_key(seq_num) {
                    pending@.lemma_remove_key_len(seq_num);
                }
            }
            let ghost before = Matching { agg: self@, pending: pending@ };
            match pending.remove(&seq_num) {
                Some(sent) => {
                    assert(pending@ == before.pending.remove(seq_num));
                    self.record(seq_num, sent, now);
                },
                None => {
                    assert(pending@ == before.pending);
                },
            }
            i = i + 1;
        }
        proof {
            assert(window@.take(window.len() as int) =~= window@);
        }
    }

    /// Mean round-trip time over the whole session, rounded down; none
    /// before the first match.
    pub fn session_average(&self) -> (r: Option<u64>)
        requires
            self.wf(),
        ensures
            r == self@.session_average(),
    {
        if self.count == 0 {
            None
        } else {
            proof {
                lemma_total_bound(self.samples@);
                let t = self.sum as int;
                let n = self.count as int;
                assert(t / n <= SLOT_MAX) by (nonlinear_arith)
                    requires
                        0 <= t <= n * SLOT_MAX,
                        n > 0,
                ;
            }
            Some((self.sum / (self.count as u128)) as u64)
        }
    }

    /// Mean over the last `ROLLING_AVERAGE_BUFFER_SIZE` samples, with zero
    /// standing for each sample not yet taken.
    pub fn rolling_average(&self) -> (r: u64)
        requires
            self.wf(),
        ensures
            r == self@.window().mean(),
    {
        self.rolling.average()
    }

    /// Count of the matched probes whose latency was `value`.
    pub fn latency_count(&self, value: u64) -> (r: u64)
        requires
            self.wf(),
        ensures
            r == self@.count_of(value),
    {
        match self.histogram.get(&value) {
            Some(n) => *n,
            None => 0,
        }
    }

    /// Number of probes matched so far.
    pub fn matched(&self) -> (r: u64)
        requires
            self.wf(),
        ensures
            r == self@.samples.len(),
    {
        self.count
    }

    /// Highest sequence number matched, zero if none was.
    pub fn highest_matched(&self) -> (r: u64)
        ensures
            r == self@.highest_seq,
    {
        self.highest_seq
    }

    /// Time since the probe with the highest matched number was sent; none
    /// before the first match.
    pub fn world_latency(&self, now: u64) -> (r: Option<u64>)
        ensures
            r == self@.world_latency(now),
    {
        if self.highest_seq == 0 {
            None
        } else {
            Some(now.saturating_sub(self.highest_send_time))
        }
    }
}

} // verus!
