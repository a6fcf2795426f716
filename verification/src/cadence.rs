//! How many freshly closed bars one replay tick hands on at once.
use vstd::prelude::*;
use vstd::arithmetic::div_mod::{lemma_fundamental_div_mod, lemma_mod_pos_bound};

verus! {

/// The number of bars that one tick batches, at least one. A live catch-up after a pause batches
/// several.
#[derive(Clone, Copy, Debug, PartialEq, Eq)]
pub struct CronCadence {
    bars: usize,
}

/// The end of the batch that starts at `lo`, in a window that ends before `end`.
pub open spec fn batch_end_of(bars: nat, lo: nat, end: nat) -> nat {
    if lo + bars < end {
        lo + bars
    } else {
        end
    }
}

impl CronCadence {
    #[verifier::type_invariant]
    spec fn at_least_one(self) -> bool {
        self.bars >= 1
    }

    /// The batch width in bars.
    pub closed spec fn width(self) -> nat {
        self.bars as nat
    }

    /// One bar per tick.
    pub fn per_bar() -> (c: CronCadence)
        ensures
            c.width() == 1,
    {
        CronCadence { bars: 1 }
    }

    /// A cadence of `bars` bars per tick; zero would never get on, and counts as one.
    pub fn new(bars: usize) -> (c: CronCadence)
        ensures
            c.width() == if bars == 0 {
                1
            } else {
                bars as nat
            },
    {
        if bars == 0 {
            CronCadence { bars: 1 }
        } else {
            CronCadence { bars }
        }
    }

    /// The batch width in bars.
    pub fn bars(self) -> (n: usize)
        ensures
            n == self.width(),
            n >= 1,
    {
        proof {
            use_type_invariant(self);
        }
        self.bars
    }

    /// Whether every tick hands on one bar.
    pub fn is_per_bar(self) -> (b: bool)
        ensures
            b == (self.width() == 1),
    {
        self.bars == 1
    }

    /// The exclusive end of the batch that starts at `lo`. The last batch is short where the
    /// window does not divide evenly.
    pub fn batch_end(self, lo: usize, end: usize) -> (hi: usize)
        ensures
            hi == batch_end_of(self.width(), lo as nat, end as nat),
            lo < end ==> lo < hi <= end,
            lo + self.width() <= end ==> hi == lo + self.width(),
            lo + self.width() >= end ==> hi == end,
    {
        proof {
            use_type_invariant(self);
        }
        if lo >= end || end - lo <= self.bars {
            end
        } else {
            lo + self.bars
        }
    }
}

impl Default for CronCadence {
    fn default() -> (c: CronCadence)
        ensures
            c.width() == 1,
    {
        CronCadence::per_bar()
    }
}

/// Where the tick number `k` starts, when each starts where the one before it ended.
pub open spec fn tick_start(bars: nat, lo: nat, end: nat, k: nat) -> nat
    decreases k,
{
    if k == 0 {
        lo
    } else {
        batch_end_of(bars, tick_start(bars, lo, end, (k - 1) as nat), end)
    }
}

proof fn tick_start_is_a_multiple(bars: nat, lo: nat, end: nat, k: nat)
    requires
        bars >= 1,
        lo <= end,
    ensures
        tick_start(bars, lo, end, k) == if lo + k * bars < end {
            lo + k * bars
        } else {
            end
        },
    decreases k,
{
    if k == 0 {
        assert(0 * bars == 0) by (nonlinear_arith);
    } else {
        tick_start_is_a_multiple(bars, lo, end, (k - 1) as nat);
        assert(k * bars == (k - 1) * bars + bars) by (nonlinear_arith);
    }
}

/// Walking a window covers every bar exactly once: the bar lies in the batch of one tick, and in
/// no other.
pub proof fn a_walk_covers_every_bar_exactly_once(bars: nat, lo: nat, end: nat, bar: nat)
    requires
        bars >= 1,
        lo <= bar < end,
    ensures
        exists|k: nat|
            #[trigger] tick_start(bars, lo, end, k) <= bar < batch_end_of(
                bars,
                tick_start(bars, lo, end, k),
                end,
            ),
        forall|j: nat, k: nat|
            (#[trigger] tick_start(bars, lo, end, j)) <= bar < batch_end_of(
                bars,
                tick_start(bars, lo, end, j),
                end,
            ) && (#[trigger] tick_start(bars, lo, end, k)) <= bar < batch_end_of(
                bars,
                tick_start(bars, lo, end, k),
                end,
            ) ==> j == k,
{
    let n = bars as int;
    let k = ((bar - lo) / n) as nat;
    lemma_fundamental_div_mod((bar - lo) as int, n);
    lemma_mod_pos_bound((bar - lo) as int, n);
    assert(k >= 0) by (nonlinear_arith) requires k == (bar - lo) / n, bar >= lo, n >= 1;
    assert(k * bars == n * ((bar - lo) / n)) by (nonlinear_arith)
        requires k == (bar - lo) / n, bars == n;
    tick_start_is_a_multiple(bars, lo, end, k);
    assert(tick_start(bars, lo, end, k) <= bar < batch_end_of(
        bars,
        tick_start(bars, lo, end, k),
        end,
    ));
    assert forall|i: nat, j: nat|
        (#[trigger] tick_start(bars, lo, end, i)) <= bar < batch_end_of(
            bars,
            tick_start(bars, lo, end, i),
            end,
        ) && (#[trigger] tick_start(bars, lo, end, j)) <= bar < batch_end_of(
            bars,
            tick_start(bars, lo, end, j),
            end,
        ) implies i == j by {
        tick_start_is_a_multiple(bars, lo, end, i);
        tick_start_is_a_multiple(bars, lo, end, j);
        assert(i == j) by (nonlinear_arith)
            requires
                lo + i * bars <= bar < lo + i * bars + bars,
                lo + j * bars <= bar < lo + j * bars + bars,
                bars >= 1,
        ;
    }
}

} // verus!
