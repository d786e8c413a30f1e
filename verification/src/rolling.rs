//! Fixed-capacity circular accumulator that gives trailing-window averages in
//! constant time.

use vstd::prelude::*;

verus! {

/// Largest value a slot can hold.
pub const SLOT_MAX: u64 = 0xffff_ffff_ffff_ffff;

/// Arithmetic sum of the values of a sequence.
pub open spec fn total(s: Seq<u64>) -> nat
    decreases s.len(),
{
    if s.len() == 0 {
        0
    } else {
        total(s.drop_last()) + s.last() as nat
    }
}

/// Mathematical model of a rolling buffer: the slots, the position that the
/// next insertion overwrites, and the running sum.
pub struct Window {
    pub slots: Seq<u64>,
    pub cursor: int,
    pub sum: nat,
}

impl Window {
    /// The window of `n` zeroed slots, as a fresh buffer holds it.
    pub open spec fn zeroed(n: nat) -> Window {
        Window { slots: Seq::new(n, |i: int| 0u64), cursor: 0, sum: 0 }
    }

    /// The window has `n` slots, the cursor points into them and the running
    /// sum is the sum of the slots.
    pub open spec fn valid(self, n: nat) -> bool {
        &&& self.slots.len() == n
        &&& 0 <= self.cursor
        &&& n > 0 ==> self.cursor < n
        &&& n == 0 ==> self.cursor == 0
        &&& self.sum == total(self.slots)
    }

    /// The window after one insertion: `item` replaces the slot under the
    /// cursor, the sum follows, and the cursor moves on by one, modulo the
    /// length.
    pub open spec fn push(self, item: u64) -> Window
        recommends
            0 <= self.cursor < self.slots.len(),
    {
        Window {
            slots: self.slots.update(self.cursor, item),
            cursor: (self.cursor + 1) % (self.slots.len() as int),
            sum: (self.sum + item - self.slots[self.cursor]) as nat,
        }
    }

    /// The window after inserting every value of `items`, first to last.
    pub open spec fn push_all(self, items: Seq<u64>) -> Window
        decreases items.len(),
    {
        if items.len() == 0 {
            self
        } else {
            self.push_all(items.drop_last()).push(items.last())
        }
    }

    /// The average that the window reports: the running sum divided by the
    /// number of slots, rounded down.
    pub open spec fn mean(self) -> nat
        recommends
            self.slots.len() > 0,
    {
        self.sum / self.slots.len()
    }
}

/// Replacing one value of a sequence moves its sum by the difference.
pub proof fn lemma_total_update(s: Seq<u64>, i: int, item: u64)
    requires
        0 <= i < s.len(),
    ensures
        total(s.update(i, item)) + s[i] == total(s) + item,
    decreases s.len(),
{
    let u = s.update(i, item);
    if i == s.len() - 1 {
        assert(u.drop_last() =~= s.drop_last());
    } else {
        assert(u.drop_last() =~= s.drop_last().update(i, item));
        lemma_total_update(s.drop_last(), i, item);
    }
}

/// The sum of a sequence is at most its length times the largest value.
pub proof fn lemma_total_bound(s: Seq<u64>)
    ensures
        total(s) <= s.len() * SLOT_MAX,
    decreases s.len(),
{
    if s.len() > 0 {
        lemma_total_bound(s.drop_last());
        assert(s.len() * SLOT_MAX == (s.len() - 1) * SLOT_MAX + SLOT_MAX) by (nonlinear_arith);
    }
}

/// A sequence whose values all equal `v` sums to its length times `v`.
pub proof fn lemma_total_constant(s: Seq<u64>, v: u64)
    requires
        forall|i: int| 0 <= i < s.len() ==> s[i] == v,
    ensures
        total(s) == s.len() * v,
    decreases s.len(),
{
    if s.len() > 0 {
        lemma_total_constant(s.drop_last(), v);
        assert(s.len() * v == (s.len() - 1) * v + v) by (nonlinear_arith);
    }
}

/// Adding `j` to a cursor modulo `n` wraps round at most once.
pub proof fn lemma_wrap(c: int, j: int, n: int)
    requires
        0 <= c < n,
        0 <= j <= n,
    ensures
        (c + j) % n == if c + j < n {
            c + j
        } else {
            c + j - n
        },
{
    if c + j < n {
        assert((c + j) % n == c + j) by (nonlinear_arith)
            requires
                0 <= c + j < n,
        ;
    } else {
        assert((c + j) % n == c + j - n) by (nonlinear_arith)
            requires
                n <= c + j < 2 * n,
        ;
    }
}

/// An insertion keeps a window valid.
pub proof fn lemma_push_valid(w: Window, n: nat, item: u64)
    requires
        w.valid(n),
        n > 0,
    ensures
        w.push(item).valid(n),
{
    lemma_total_update(w.slots, w.cursor, item);
    lemma_wrap(w.cursor, 1, n as int);
}

/// Inserting a sequence of values keeps a window valid.
pub proof fn lemma_push_all_valid(w: Window, n: nat, items: Seq<u64>)
    requires
        w.valid(n),
        n > 0,
    ensures
        w.push_all(items).valid(n),
    decreases items.len(),
{
    if items.len() > 0 {
        lemma_push_all_valid(w, n, items.drop_last());
        lemma_push_valid(w.push_all(items.drop_last()), n, items.last());
    }
}

/// After `k` insertions, `k` at most the number of slots, the cursor has moved
/// on by `k` and the `k` slots from the old cursor onward hold the inserted
/// values in order; the others are untouched.
pub proof fn lemma_push_all_slots(w: Window, n: nat, items: Seq<u64>)
    requires
        w.valid(n),
        n > 0,
        items.len() <= n,
    ensures
        w.push_all(items).cursor == (w.cursor + items.len()) % (n as int),
        forall|j: int|
            0 <= j < items.len() ==> #[trigger] w.push_all(items).slots[(w.cursor + j) % (
            n as int)] == items[j],
        forall|j: int|
            items.len() <= j < n ==> #[trigger] w.push_all(items).slots[(w.cursor + j) % (
            n as int)] == w.slots[(w.cursor + j) % (n as int)],
    decreases items.len(),
{
    let m = n as int;
    if items.len() == 0 {
        lemma_wrap(w.cursor, 0, m);
    } else {
        let k = items.len() - 1;
        let front = items.drop_last();
        let mid = w.push_all(front);
        lemma_push_all_slots(w, n, front);
        lemma_push_all_valid(w, n, front);
        lemma_wrap(w.cursor, k, m);
        lemma_wrap(w.cursor, k + 1, m);
        lemma_wrap(mid.cursor, 1, m);
        let after = w.push_all(items);
        assert(after == mid.push(items.last()));
        assert forall|j: int| 0 <= j < items.len() implies #[trigger] after.slots[(w.cursor + j)
            % m] == items[j] by {
            lemma_wrap(w.cursor, j, m);
        }
        assert forall|j: int| items.len() <= j < n implies #[trigger] after.slots[(w.cursor + j)
            % m] == w.slots[(w.cursor + j) % m] by {
            lemma_wrap(w.cursor, j, m);
        }
    }
}

/// Inserting as many values as the window has slots evicts every earlier
/// value: the cursor is back where it was, the slots hold exactly the inserted
/// values, and the sum is theirs.
pub proof fn lemma_full_cycle_evicts(w: Window, n: nat, items: Seq<u64>)
    requires
        w.valid(n),
        n > 0,
        items.len() == n,
    ensures
        w.push_all(items).cursor == w.cursor,
        forall|j: int|
            0 <= j < n ==> #[trigger] w.push_all(items).slots[(w.cursor + j) % (n as int)]
                == items[j],
        w.push_all(items).sum == total(items),
{
    let m = n as int;
    let after = w.push_all(items);
    lemma_push_all_slots(w, n, items);
    lemma_push_all_valid(w, n, items);
    lemma_wrap(w.cursor, m, m);
    // The slots are the inserted values rotated by the cursor.
    let c = w.cursor;
    let back = items.subrange(m - c, m);
    let front = items.subrange(0, m - c);
    assert(after.slots =~= back + front) by {
        assert forall|p: int| 0 <= p < m implies after.slots[p] == (back + front)[p] by {
            let j = if p >= c {
                p - c
            } else {
                p - c + m
            };
            lemma_wrap(c, j, m);
            assert(after.slots[(c + j) % m] == items[j]);
        }
    }
    assert(items =~= front + back);
    lemma_total_concat(back, front);
    lemma_total_concat(front, back);
}

/// The sum of a concatenation is the sum of the two sums.
pub proof fn lemma_total_concat(a: Seq<u64>, b: Seq<u64>)
    ensures
        total(a + b) == total(a) + total(b),
    decreases b.len(),
{
    if b.len() == 0 {
        assert(a + b =~= a);
    } else {
        assert((a + b).drop_last() =~= a + b.drop_last());
        lemma_total_concat(a, b.drop_last());
    }
}

/// After as many insertions of one value `v` as the window has slots, the
/// reported average is exactly `v`, whatever the window held before.
pub proof fn lemma_constant_window_mean(w: Window, n: nat, items: Seq<u64>, v: u64)
    requires
        w.valid(n),
        n > 0,
        items.len() == n,
        forall|i: int| 0 <= i < items.len() ==> items[i] == v,
    ensures
        w.push_all(items).mean() == v,
{
    lemma_full_cycle_evicts(w, n, items);
    lemma_push_all_valid(w, n, items);
    lemma_total_constant(items, v);
    let m = n as int;
    let x = v as int;
    assert((m * x) / m == x) by (nonlinear_arith)
        requires
            m > 0,
    ;
}

/// Circular buffer of `N` values with a running sum.
///
/// Slots that were never written hold zero, so the average is biased low
/// until `N` values have been inserted.
pub struct RollingAverageBuffer<const N: usize> {
    buffer: [u64; N],
    index: usize,
    sum: u128,
}

impl<const N: usize> View for RollingAverageBuffer<N> {
    type V = Window;

    closed spec fn view(&self) -> Window {
        Window { slots: self.buffer@, cursor: self.index as int, sum: self.sum as nat }
    }
}

impl<const N: usize> RollingAverageBuffer<N> {
    /// The buffer's invariant: `N` slots, a cursor among them, and a sum that
    /// equals the sum of the slots.
    pub open spec fn wf(&self) -> bool {
        self@.valid(N as nat)
    }

    /// Inserts `item` in place of the value inserted `N` insertions ago.
    pub fn add(&mut self, item: u64)
        requires
            N > 0,
            old(self).wf(),
        ensures
            final(self).wf(),
            final(self)@ == old(self)@.push(item),
    {
        proof {
            lemma_total_update(self.buffer@, self.index as int, item);
            lemma_total_bound(self.buffer@);
            lemma_total_bound(self.buffer@.update(self.index as int, item));
            lemma_push_valid(self@, N as nat, item);
            assert(N * SLOT_MAX + SLOT_MAX <= u128::MAX) by (nonlinear_arith)
                requires
                    N <= 0xffff_ffff_ffff_ffff,
            ;
        }
        let evicted: u64 = self.buffer[self.index];
        self.sum = self.sum + (item as u128) - (evicted as u128);
        self.buffer[self.index] = item;
        self.index = (self.index + 1) % N;
    }

    /// The average over the window: the sum of the `N` slots divided by `N`,
    /// rounded down.
    pub fn average(&self) -> (r: u64)
        requires
            N > 0,
            self.wf(),
        ensures
            r == self@.mean(),
            r == total(self@.slots) / (N as nat),
    {
        proof {
            lemma_total_bound(self.buffer@);
            let t = self.sum as int;
            let n = N as int;
            assert(t / n <= SLOT_MAX) by (nonlinear_arith)
                requires
                    0 <= t <= n * SLOT_MAX,
                    n > 0,
            ;
        }
        (self.sum / (N as u128)) as u64
    }
}

impl<const N: usize> Default for RollingAverageBuffer<N> {
    /// A buffer of `N` zeroed slots.
    fn default() -> (r: Self)
        ensures
            r.wf(),
            r@ == Window::zeroed(N as nat),
    {
        let r = RollingAverageBuffer { buffer: [0u64;N], index: 0, sum: 0 };
        proof {
            assert(r.buffer@ =~= Seq::new(N as nat, |i: int| 0u64));
            lemma_total_constant(r.buffer@, 0);
        }
        r
    }
}

} // verus!
