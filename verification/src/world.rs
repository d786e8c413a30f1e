//! One-way latency between frame counters: how far each player's last seen
//! frame lags behind the most recent one.

use vstd::prelude::*;

verus! {

/// The highest frame counter of `frames`, zero if there is none.
pub open spec fn most_recent(frames: Seq<u64>) -> u64
    decreases frames.len(),
{
    if frames.len() == 0 {
        0
    } else if frames.last() >= most_recent(frames.drop_last()) {
        frames.last()
    } else {
        most_recent(frames.drop_last())
    }
}

/// The lag of each frame counter of `frames` behind the most recent one.
pub open spec fn lags(frames: Seq<u64>) -> Seq<u64> {
    Seq::new(frames.len(), |i: int| (most_recent(frames) - frames[i]) as u64)
}

/// The most recent frame is at least every frame counter, and is one of
/// them unless there is none.
pub proof fn lemma_most_recent_is_maximum(frames: Seq<u64>)
    ensures
        forall|i: int| 0 <= i < frames.len() ==> frames[i] <= most_recent(frames),
        frames.len() > 0 ==> frames.contains(most_recent(frames)),
        frames.len() == 0 ==> most_recent(frames) == 0,
    decreases frames.len(),
{
    if frames.len() > 0 {
        let front = frames.drop_last();
        lemma_most_recent_is_maximum(front);
        assert forall|i: int| 0 <= i < frames.len() implies frames[i] <= most_recent(frames) by {
            if i < front.len() {
                assert(front[i] == frames[i]);
            }
        }
        if frames.last() >= most_recent(front) {
            assert(frames[frames.len() - 1] == most_recent(frames));
        } else {
            let j = choose|j: int| 0 <= j < front.len() && front[j] == most_recent(front);
            assert(frames[j] == most_recent(frames));
        }
    }
}

/// The highest frame counter among `frames`, zero if there is none.
pub fn most_recent_frame(frames: &[u64]) -> (r: u64)
    ensures
        r == most_recent(frames@),
{
    let mut best: u64 = 0;
    let mut i: usize = 0;
    while i < frames.len()
        invariant
            i <= frames.len(),
            best == most_recent(frames@.take(i as int)),
        decreases frames.len() - i,
    {
        proof {
            assert(frames@.take(i + 1).drop_last() =~= frames@.take(i as int));
        }
        if frames[i] >= best {
            best = frames[i];
        }
        i = i + 1;
    }
    proof {
        assert(frames@.take(frames.len() as int) =~= frames@);
    }
    best
}

/// For each player's frame counter, how many frames it lags behind the most
/// recent counter of all.
pub fn frame_lags(frames: &[u64]) -> (r: Vec<u64>)
    ensures
        r@ == lags(frames@),
{
    let newest = most_recent_frame(frames);
    proof {
        lemma_most_recent_is_maximum(frames@);
    }
    let mut out: Vec<u64> = Vec::new();
    let mut i: usize = 0;
    while i < frames.len()
        invariant
            i <= frames.len(),
            newest == most_recent(frames@),
            forall|k: int| 0 <= k < frames.len() ==> frames[k] <= newest,
            out@ == lags(frames@).take(i as int),
        decreases frames.len() - i,
    {
        out.push(newest - frames[i]);
        proof {
            assert(out@ =~= lags(frames@).take(i + 1));
        }
        i = i + 1;
    }
    proof {
        assert(lags(frames@).take(frames.len() as int) =~= lags(frames@));
    }
    out
}

} // verus!
