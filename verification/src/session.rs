//! One client session: the probe sender, the probes awaiting a match and the
//! round-trip aggregator, driven by one entry point per tick.

use crate::aggregator::{lemma_observe_accounting, AggregatorState, Matching, RttAggregator};
use crate::sender::{Probe, ProbeSender, SenderState};
use std::collections::HashMap;
use vstd::prelude::*;

verus! {

/// The metrics that a session exposes, recomputed on every tick.
#[derive(Clone, Copy, Debug, PartialEq, Eq, Structural)]
pub struct Metrics {
    /// Mean round-trip time over the session; none before the first match.
    pub session_average_rtt: Option<u64>,
    /// Mean round-trip time over the rolling window.
    pub rolling_average_rtt: u64,
    /// Probes awaiting a match: in flight, or lost and not yet given up.
    pub missing: u64,
    /// Probes matched.
    pub matched: u64,
    /// Probes given up as lost because too many newer ones were pending.
    pub evicted: u64,
    /// Latest sequence number sent less the highest one matched.
    pub sequence_gap: u64,
    /// Time since the probe with the highest matched number was sent; none
    /// before the first match.
    pub world_latency: Option<u64>,
}

/// Mathematical model of a client session.
pub struct SessionState {
    pub sender: SenderState,
    pub agg: AggregatorState,
    /// Send time of each probe sent and neither matched nor given up yet, by
    /// sequence number.
    pub pending: Map<u64, u64>,
    /// Only the last `limit` probes sent may be pending.
    pub limit: u64,
    /// Number of probes given up as lost.
    pub evicted: nat,
}

impl SessionState {
    /// A session that has not ticked yet.
    pub open spec fn initial(every: u64, limit: u64) -> SessionState {
        SessionState {
            sender: SenderState::initial(every),
            agg: AggregatorState::empty(),
            pending: Map::empty(),
            limit,
            evicted: 0,
        }
    }

    /// Every pending number is among the last `limit` numbers sent, no
    /// number beyond the latest sent one was matched, and every probe sent is
    /// either pending, matched or given up.
    pub open spec fn valid(self) -> bool {
        &&& self.sender.valid()
        &&& self.limit >= 1
        &&& self.pending.dom().finite()
        &&& forall|k: u64| #[trigger]
            self.pending.contains_key(k) ==> 1 <= k < self.sender.next_seq && k + self.limit
                >= self.sender.next_seq
        &&& self.agg.highest_seq < self.sender.next_seq
        &&& self.agg.samples.len() + self.pending.len() + self.evicted
            == self.sender.latest_sent()
    }

    /// Sequence number of the probe that the coming tick would push out of
    /// the last `limit` sent.
    pub open spec fn stale(self) -> u64 {
        (self.sender.next_seq - self.limit) as u64
    }

    /// The coming tick gives a probe up as lost: it sends, and the probe sent
    /// `limit` numbers earlier is still pending.
    pub open spec fn evicts(self) -> bool {
        &&& self.sender.sends()
        &&& self.sender.next_seq > self.limit
        &&& self.pending.contains_key(self.stale())
    }

    /// State after the sending half of a tick at `now`: the probe sent, if
    /// any, becomes pending, and the probe sent `limit` numbers earlier stops
    /// being so.
    pub open spec fn send(self, now: u64) -> SessionState {
        let pending = if self.sender.sends() {
            self.pending.insert(self.sender.next_seq, now)
        } else {
            self.pending
        };
        SessionState {
            sender: self.sender.tick(),
            agg: self.agg,
            pending: if self.evicts() {
                pending.remove(self.stale())
            } else {
                pending
            },
            limit: self.limit,
            evicted: if self.evicts() {
                self.evicted + 1
            } else {
                self.evicted
            },
        }
    }

    /// State after the replicated history `window` is matched at `now`.
    pub open spec fn sync(self, now: u64, window: Seq<u64>) -> SessionState {
        let m = (Matching { agg: self.agg, pending: self.pending }).observe(window, now);
        SessionState {
            sender: self.sender,
            agg: m.agg,
            pending: m.pending,
            limit: self.limit,
            evicted: self.evicted,
        }
    }

    /// State after a whole tick at `now`: a probe is sent if one is due,
    /// then the replicated history is matched if one was observed.
    pub open spec fn tick(self, now: u64, synced: Option<Seq<u64>>) -> SessionState {
        match synced {
            Some(window) => self.send(now).sync(now, window),
            None => self.send(now),
        }
    }

    /// The metrics at `now`.
    pub open spec fn metrics(self, now: u64) -> Metrics {
        Metrics {
            session_average_rtt: self.agg.session_average(),
            rolling_average_rtt: self.agg.window().mean() as u64,
            missing: self.pending.len() as u64,
            matched: self.agg.samples.len() as u64,
            evicted: self.evicted as u64,
            sequence_gap: (self.sender.latest_sent() - self.agg.highest_seq) as u64,
            world_latency: self.agg.world_latency(now),
        }
    }
}

/// Sending keeps a session valid, and the probe sent is pending afterwards.
pub proof fn lemma_send_valid(s: SessionState, now: u64)
    requires
        s.valid(),
    ensures
        s.send(now).valid(),
        s.sender.sends() ==> s.send(now).pending.contains_key(s.sender.next_seq),
{
    if s.sender.sends() {
        let added = s.pending.insert(s.sender.next_seq, now);
        assert(!s.pending.contains_key(s.sender.next_seq));
        assert(added.dom() =~= s.pending.dom().insert(s.sender.next_seq));
        if s.evicts() {
            added.lemma_remove_key_len(s.stale());
        }
    }
}

/// A session whose limit is the largest number there is never gives a probe
/// up: a pending probe leaves only by being matched.
pub proof fn lemma_no_limit_never_evicts(s: SessionState, now: u64)
    requires
        s.valid(),
        s.limit == u64::MAX,
    ensures
        !s.evicts(),
        s.send(now).evicted == s.evicted,
        forall|k: u64| s.pending.contains_key(k) ==> s.send(now).pending.contains_key(k),
{
}

/// A set of numbers above `lo` and at most `hi` has at most `hi - lo`
/// elements.
pub proof fn lemma_range_holds_few(keys: Set<u64>, lo: int, hi: int)
    requires
        keys.finite(),
        lo <= hi,
        forall|k: u64| #[trigger] keys.contains(k) ==> lo < k <= hi,
    ensures
        keys.len() <= hi - lo,
    decreases hi - lo,
{
    if lo == hi {
        assert(keys =~= Set::<u64>::empty());
    } else if 0 <= hi <= u64::MAX {
        lemma_range_holds_few(keys.remove(hi as u64), lo, hi - 1);
    } else {
        lemma_range_holds_few(keys, lo, hi - 1);
    }
}

/// The pending probes never outnumber the session's limit.
pub proof fn lemma_pending_bounded(s: SessionState)
    requires
        s.valid(),
    ensures
        s.pending.len() <= s.limit,
{
    lemma_range_holds_few(
        s.pending.dom(),
        s.sender.latest_sent() - s.limit,
        s.sender.latest_sent() as int,
    );
}

/// Matching a replicated history keeps a session valid: the probes sent are
/// still exactly the matched ones and the pending ones.
pub proof fn lemma_sync_valid(s: SessionState, now: u64, window: Seq<u64>)
    requires
        s.valid(),
    ensures
        s.sync(now, window).valid(),
        s.sync(now, window).agg.samples.len() + s.sync(now, window).pending.len() + s.evicted
            == s.sender.latest_sent(),
{
    lemma_observe_accounting(Matching { agg: s.agg, pending: s.pending }, window, now);
    let after = s.sync(now, window);
    assert forall|k: u64| #[trigger] after.pending.contains_key(k) implies 1 <= k
        < after.sender.next_seq && k + after.limit >= after.sender.next_seq by {
        assert(s.pending.contains_key(k));
    }
}

/// A tick keeps a session valid.
pub proof fn lemma_tick_valid(s: SessionState, now: u64, synced: Option<Seq<u64>>)
    requires
        s.valid(),
    ensures
        s.tick(now, synced).valid(),
{
    lemma_send_valid(s, now);
    if let Some(window) = synced {
        lemma_sync_valid(s.send(now), now, window);
    }
}

/// State of one client session.
pub struct ClientSession {
    sender: ProbeSender,
    aggregator: RttAggregator,
    pending: HashMap<u64, u64>,
    limit: u64,
    evicted: u64,
}

impl View for ClientSession {
    type V = SessionState;

    closed spec fn view(&self) -> SessionState {
        SessionState {
            sender: self.sender@,
            agg: self.aggregator@,
            pending: self.pending@,
            limit: self.limit,
            evicted: self.evicted as nat,
        }
    }
}

impl ClientSession {
    /// The session's invariant.
    pub closed spec fn wf(&self) -> bool {
        &&& self.sender.wf()
        &&& self.aggregator.wf()
        &&& self@.valid()
    }

    /// A session that sends a probe on every `frames_per_message`-th tick
    /// and keeps at most the last `max_pending` probes sent awaiting a match.
    /// With `u64::MAX` for `max_pending` no probe is ever given up.
    pub fn new(frames_per_message: u64, max_pending: u64) -> (r: Self)
        requires
            frames_per_message > 0,
            max_pending > 0,
        ensures
            r.wf(),
            r@ == SessionState::initial(frames_per_message, max_pending),
    {
        let r = ClientSession {
            sender: ProbeSender::new(frames_per_message),
            aggregator: RttAggregator::new(),
            pending: HashMap::new(),
            limit: max_pending,
            evicted: 0,
        };
        proof {
            assert(r.pending@.dom() =~= Set::<u64>::empty());
        }
        r
    }

    /// The sending half of a tick at `now`: the probe to transmit, if one is
    /// due, which from now on awaits its match. The probe sent `max_pending`
    /// numbers before it, if still unmatched, is given up as lost.
    pub fn send(&mut self, now: u64) -> (r: Option<Probe>)
        requires
            old(self).wf(),
        ensures
            final(self).wf(),
            final(self)@ == old(self)@.send(now),
            r == if old(self)@.sender.sends() {
                Some(Probe { seq_num: old(self)@.sender.next_seq, send_time: now })
            } else {
                None
            },
    {
        proof {
            lemma_send_valid(self@, now);
        }
        let probe = self.sender.tick(now, &mut self.pending);
        match probe {
            Some(p) => {
                let ghost added = self.pending@;
                if p.seq_num > self.limit {
                    let stale: u64 = p.seq_num - self.limit;
                    match self.pending.remove(&stale) {
                        Some(_) => {
                            assert(self.pending@ == added.remove(stale));
                            self.evicted = self.evicted + 1;
                        },
                        None => {
                            assert(self.pending@ == added);
                        },
                    }
                }
            },
            None => {},
        }
        probe
    }

    /// The receiving half of a tick at `now`: matches the replicated history
    /// `window` against the pending probes.
    pub fn sync(&mut self, now: u64, window: &[u64])
        requires
            old(self).wf(),
        ensures
            final(self).wf(),
            final(self)@ == old(self)@.sync(now, window@),
    {
        proof {
            lemma_sync_valid(self@, now, window@);
        }
        self.aggregator.observe(now, window, &mut self.pending);
    }

    /// The metrics at `now`.
    pub fn metrics(&self, now: u64) -> (r: Metrics)
        requires
            self.wf(),
        ensures
            r == self@.metrics(now),
    {
        proof {
            vstd::std_specs::hash::axiom_spec_hash_map_len(&self.pending);
        }
        Metrics {
            session_average_rtt: self.aggregator.session_average(),
            rolling_average_rtt: self.aggregator.rolling_average(),
            missing: self.pending.len() as u64,
            matched: self.aggregator.matched(),
            evicted: self.evicted,
            sequence_gap: self.sender.latest_sent() - self.aggregator.highest_matched(),
            world_latency: self.aggregator.world_latency(now),
        }
    }

    /// One whole tick at `now`: sends a probe if one is due, matches the
    /// replicated history if one was observed, and reports the probe to
    /// transmit and the metrics.
    pub fn on_tick(&mut self, now: u64, synced: Option<&[u64]>) -> (r: (Option<Probe>, Metrics))
        requires
            old(self).wf(),
        ensures
            final(self).wf(),
            final(self)@ == old(self)@.tick(
                now,
                match synced {
                    Some(window) => Some(window@),
                    None => None,
                },
            ),
            r.0 == if old(self)@.sender.sends() {
                Some(Probe { seq_num: old(self)@.sender.next_seq, send_time: now })
            } else {
                None
            },
            r.1 == final(self)@.metrics(now),
    {
        let probe = self.send(now);
        match synced {
            Some(window) => {
                self.sync(now, window);
            },
            None => {},
        }
        (probe, self.metrics(now))
    }
}

} // verus!
