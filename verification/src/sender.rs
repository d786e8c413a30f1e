//! Client-side generation of sequence-numbered probes.

use std::collections::HashMap;
use vstd::prelude::*;

verus! {

/// A timestamped, sequence-numbered message sent purely to measure latency.
#[derive(Clone, Copy, Debug, PartialEq, Eq, Structural)]
pub struct Probe {
    pub seq_num: u64,
    pub send_time: u64,
}

/// Mathematical model of a probe sender.
pub struct SenderState {
    /// Sequence number of the next probe; the first is 1.
    pub next_seq: u64,
    /// Ticks since the last tick on which a probe was due.
    pub phase: u64,
    /// A probe is due on every `every`-th tick.
    pub every: u64,
}

impl SenderState {
    /// State of a sender that has not ticked yet.
    pub open spec fn initial(every: u64) -> SenderState {
        SenderState { next_seq: 1, phase: 0, every }
    }

    /// Sequence numbers start at 1 and the phase stays below the cadence.
    pub open spec fn valid(self) -> bool {
        &&& self.next_seq >= 1
        &&& self.phase < self.every
    }

    /// The coming tick is one on which a probe is due.
    pub open spec fn due(self) -> bool {
        self.phase + 1 == self.every
    }

    /// The coming tick sends a probe: one is due and a sequence number is
    /// left to give it.
    pub open spec fn sends(self) -> bool {
        self.due() && self.next_seq < u64::MAX
    }

    /// Sequence number of the probe sent last, zero if none was sent.
    pub open spec fn latest_sent(self) -> u64 {
        (self.next_seq - 1) as u64
    }

    /// State after one tick.
    pub open spec fn tick(self) -> SenderState {
        SenderState {
            next_seq: if self.sends() {
                (self.next_seq + 1) as u64
            } else {
                self.next_seq
            },
            phase: if self.due() {
                0
            } else {
                (self.phase + 1) as u64
            },
            every: self.every,
        }
    }
}

/// Sequence numbers only ever grow, so a number once given to a probe is
/// never given to another.
pub proof fn lemma_sequence_numbers_never_repeat(s: SenderState)
    requires
        s.valid(),
    ensures
        s.tick().valid(),
        s.tick().next_seq >= s.next_seq,
        s.sends() ==> s.tick().next_seq > s.next_seq,
        s.sends() ==> s.tick().latest_sent() == s.next_seq,
{
}

/// Emits probes on a fixed cadence of ticks, each with the next unused
/// sequence number.
pub struct ProbeSender {
    next_seq: u64,
    phase: u64,
    every: u64,
}

impl View for ProbeSender {
    type V = SenderState;

    closed spec fn view(&self) -> SenderState {
        SenderState { next_seq: self.next_seq, phase: self.phase, every: self.every }
    }
}

impl ProbeSender {
    /// The sender's invariant.
    pub open spec fn wf(&self) -> bool {
        self@.valid()
    }

    /// A sender that emits a probe on every `frames_per_message`-th tick.
    pub fn new(frames_per_message: u64) -> (r: Self)
        requires
            frames_per_message > 0,
        ensures
            r.wf(),
            r@ == SenderState::initial(frames_per_message),
    {
        ProbeSender { next_seq: 1, phase: 0, every: frames_per_message }
    }

    /// One scheduling tick at time `now`. On a tick that sends, the probe
    /// carries the next unused sequence number, and its send time is recorded
    /// in `pending` under that number; on any other tick `pending` is left
    /// as it is.
    pub fn tick(&mut self, now: u64, pending: &mut HashMap<u64, u64>) -> (r: Option<Probe>)
        requires
            old(self).wf(),
        ensures
            final(self).wf(),
            final(self)@ == old(self)@.tick(),
            old(self)@.sends() ==> r == Some(Probe { seq_num: old(self)@.next_seq, send_time: now })
                && final(pending)@ == old(pending)@.insert(old(self)@.next_seq, now),
            !old(self)@.sends() ==> r.is_none() && final(pending)@ == old(pending)@,
    {
        if self.phase + 1 < self.every {
            self.phase = self.phase + 1;
            return None;
        }
        self.phase = 0;
        if self.next_seq == u64::MAX {
            return None;
        }
        let probe = Probe { seq_num: self.next_seq, send_time: now };
        pending.insert(probe.seq_num, now);
        self.next_seq = self.next_seq + 1;
        Some(probe)
    }

    /// Sequence number of the probe sent last, zero if none was sent.
    pub fn latest_sent(&self) -> (r: u64)
        requires
            self.wf(),
        ensures
            r == self@.latest_sent(),
    {
        self.next_seq - 1
    }
}

} // verus!
