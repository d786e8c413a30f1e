//! The latency histogram as a mathematical object: how often each latency
//! was observed, and the sums taken over it.

use vstd::prelude::*;

verus! {

/// How often `value` occurs in `samples`.
pub open spec fn occurrences(samples: Seq<u64>, value: u64) -> nat
    decreases samples.len(),
{
    if samples.len() == 0 {
        0
    } else {
        occurrences(samples.drop_last(), value) + if samples.last() == value {
            1nat
        } else {
            0nat
        }
    }
}

/// The histogram of `samples`: each value that occurs, with the number of
/// its occurrences.
pub open spec fn histogram_of(samples: Seq<u64>) -> Map<u64, nat> {
    Map::new(|v: u64| occurrences(samples, v) > 0, |v: u64| occurrences(samples, v))
}

/// What the entry for `value` adds to a sum over a histogram: the value times
/// its count where `weighted`, the count alone otherwise.
pub open spec fn term(h: Map<u64, nat>, value: u64, weighted: bool) -> nat {
    if weighted {
        (value as nat) * h[value]
    } else {
        h[value]
    }
}

/// Sum over the entries of a finite histogram: of value times count where
/// `weighted`, of the counts otherwise.
pub open spec fn histogram_sum(h: Map<u64, nat>, weighted: bool) -> nat
    decreases h.dom().len(),
    when h.dom().finite()
    via histogram_sum_decreases
{
    if h.dom().len() == 0 {
        0
    } else {
        let v = h.dom().choose();
        term(h, v, weighted) + histogram_sum(h.remove(v), weighted)
    }
}

#[via_fn]
proof fn histogram_sum_decreases(h: Map<u64, nat>, weighted: bool) {
    if h.dom().len() != 0 {
        let v = h.dom().choose();
        assert(h.dom().contains(v)) by {
            if h.dom() =~= Set::<u64>::empty() {
                assert(h.dom().len() == 0);
            }
        }
        h.lemma_remove_key_len(v);
    }
}

/// A value occurs in a sequence at most as often as the sequence is long.
pub proof fn lemma_occurrences_bound(samples: Seq<u64>, value: u64)
    ensures
        occurrences(samples, value) <= samples.len(),
    decreases samples.len(),
{
    if samples.len() > 0 {
        lemma_occurrences_bound(samples.drop_last(), value);
    }
}

/// A sum over a histogram can be taken with any one entry first.
pub proof fn lemma_sum_any_first(h: Map<u64, nat>, value: u64, weighted: bool)
    requires
        h.dom().finite(),
        h.contains_key(value),
    ensures
        histogram_sum(h, weighted) == term(h, value, weighted) + histogram_sum(
            h.remove(value),
            weighted,
        ),
    decreases h.dom().len(),
{
    let c = h.dom().choose();
    h.lemma_remove_key_len(value);
    if c != value {
        h.lemma_remove_key_len(c);
        lemma_sum_any_first(h.remove(c), value, weighted);
        lemma_sum_any_first(h.remove(value), c, weighted);
        assert(h.remove(c).remove(value) =~= h.remove(value).remove(c));
    }
}

/// Recording one more sample raises the entry of its value by one, and with
/// it the weighted sum by the value and the sum of the counts by one.
pub proof fn lemma_histogram_push(samples: Seq<u64>, value: u64)
    requires
        histogram_of(samples).dom().finite(),
    ensures
        histogram_of(samples.push(value)) == histogram_of(samples).insert(
            value,
            occurrences(samples, value) + 1,
        ),
        histogram_of(samples.push(value)).dom().finite(),
        histogram_sum(histogram_of(samples.push(value)), true) == histogram_sum(
            histogram_of(samples),
            true,
        ) + value,
        histogram_sum(histogram_of(samples.push(value)), false) == histogram_sum(
            histogram_of(samples),
            false,
        ) + 1,
{
    let before = histogram_of(samples);
    let after = histogram_of(samples.push(value));
    let n = occurrences(samples, value);
    assert(samples.push(value).drop_last() =~= samples);
    assert(after =~= before.insert(value, n + 1));
    assert(after.remove(value) =~= before.remove(value));
    lemma_sum_any_first(after, value, true);
    lemma_sum_any_first(after, value, false);
    if before.contains_key(value) {
        lemma_sum_any_first(before, value, true);
        lemma_sum_any_first(before, value, false);
    } else {
        assert(before.remove(value) =~= before);
    }
    assert((value as nat) * ((n + 1) as nat) == (value as nat) * n + value) by (nonlinear_arith);
}

/// A sequence's histogram is finite, its counts sum to the length of the
/// sequence, and its values weighted by their counts sum to the sum of the
/// sequence.
pub proof fn lemma_histogram_sums(samples: Seq<u64>)
    ensures
        histogram_of(samples).dom().finite(),
        histogram_sum(histogram_of(samples), false) == samples.len(),
        histogram_sum(histogram_of(samples), true) == crate::rolling::total(samples),
    decreases samples.len(),
{
    if samples.len() == 0 {
        assert(histogram_of(samples).dom() =~= Set::<u64>::empty());
    } else {
        lemma_histogram_sums(samples.drop_last());
        lemma_histogram_push(samples.drop_last(), samples.last());
        assert(samples.drop_last().push(samples.last()) =~= samples);
    }
}

} // verus!
