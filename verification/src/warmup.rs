//! How far back candles are pulled so that enough real ones lie before the start.
//!
//! The prefix is wanted as a count of candles, but pulled as a span of time, and a market gap
//! leaves fewer candles in a span than it has bars. So the span is widened and pulled again, by
//! the density seen so far, until there are enough candles or the attempts run out. Widening only
//! moves the beginning, so the candles from the start on must stay the same.
use vstd::prelude::*;
use crate::binary64::{from_integer, magnitude_units, product, quotient, zero_units, Float};
use crate::float_laws::{
    a_ceiling_is_the_least_integer_above, a_number_rounds_to_itself,
    a_product_is_the_exact_one_rounded, a_small_integer_is_exact,
    small_integers_divide_and_multiply, special_numbers_add_and_multiply,
};
use crate::market::BidAskCandle;
use crate::time::{Instant, NANOS_PER_SECOND};

verus! {

/// How often the span is widened before the replay goes on with what there is.
pub const MAX_WARMUP_BACKOFF_ATTEMPTS: u32 = 6;

/// How far one widening may go, in multiples of the span.
pub const MAX_BACKOFF_SPAN_MUL: i64 = 4;

/// No beginning lies further from 1970 than this, in nanoseconds.
pub const FURTHEST: i128 = 0x8_0000_0000_0000_0000_0000_0000_0000;

/// Whether the number of candles from the start on is what it was.
#[derive(Clone, Copy, Debug, PartialEq, Eq, Structural)]
pub enum LiveCountVerdict {
    /// There was none before, or it is the same.
    Same,
    Changed { previous: usize, current: usize },
}

/// The verdict on the number of live candles.
pub open spec fn live_verdict(previous: Option<usize>, current: usize) -> LiveCountVerdict {
    match previous {
        Some(prev) if prev != current => LiveCountVerdict::Changed { previous: prev, current },
        _ => LiveCountVerdict::Same,
    }
}

/// Compares the number of live candles with that of the attempt before.
pub fn check_live_count(previous: Option<usize>, current: usize) -> (v: LiveCountVerdict)
    ensures
        v == live_verdict(previous, current),
{
    match previous {
        Some(prev) => if prev != current {
            LiveCountVerdict::Changed { previous: prev, current }
        } else {
            LiveCountVerdict::Same
        },
        None => LiveCountVerdict::Same,
    }
}

/// The whole seconds from `from` to `to`, rounded towards zero.
pub open spec fn seconds_between(from: Instant, to: Instant) -> int {
    let nanos = to.nanos - from.nanos;
    if nanos >= 0 {
        nanos / NANOS_PER_SECOND as int
    } else {
        -((-nanos) / NANOS_PER_SECOND as int)
    }
}

/// The span that was pulled before the start, at least one bar.
pub open spec fn pulled_span(start: Instant, pull_from: Instant, bar_secs: int) -> int {
    let secs = seconds_between(pull_from, start);
    if secs > bar_secs {
        secs
    } else {
        bar_secs
    }
}

/// The seconds that the missing candles take at the density seen: the span over the candles in it,
/// times the candles that are missing, rounded up. Without a candle the density is unknown, and
/// the span itself is taken.
pub open spec fn missing_span(span: int, have: nat, want: nat) -> int {
    if have == 0 {
        span
    } else {
        let missing = if want > have {
            (want - have) as nat
        } else {
            0
        };
        let exact = product(
            quotient(from_integer(span), from_integer(have as int)),
            from_integer(missing as int),
        );
        if exact.nan() {
            0
        } else if exact.infinite() {
            if exact.negative() {
                i64::MIN as int
            } else {
                i64::MAX as int
            }
        } else if exact.ceiling() > i64::MAX {
            i64::MAX as int
        } else if exact.ceiling() < i64::MIN {
            i64::MIN as int
        } else {
            exact.ceiling()
        }
    }
}

/// How far back the next attempt goes: the missing span and a quarter more, at most four spans and
/// at least one bar.
pub open spec fn step_back(span: int, have: nat, want: nat, bar_secs: int) -> int {
    let missing = missing_span(span, have, want);
    let generous = missing + (if missing >= 0 {
        missing / 4
    } else {
        -((-missing) / 4)
    });
    let capped = if generous > span * MAX_BACKOFF_SPAN_MUL {
        span * MAX_BACKOFF_SPAN_MUL
    } else {
        generous
    };
    if capped > bar_secs {
        capped
    } else {
        bar_secs
    }
}

/// Where the next attempt starts to pull, by the candles that the last one had before the start.
pub fn next_pull_from(
    start: Instant,
    pull_from: Instant,
    have: usize,
    want: usize,
    bar_secs: i64,
) -> (next: Instant)
    requires
        start.valid(),
        -FURTHEST <= pull_from.nanos <= FURTHEST,
    ensures
        next.nanos == pull_from.nanos - NANOS_PER_SECOND * step_back(
            pulled_span(start, pull_from, bar_secs as int),
            have as nat,
            want as nat,
            bar_secs as int,
        ),
{
    let nanos: i128 = start.nanos - pull_from.nanos;
    let whole: i128 = if nanos >= 0 {
        nanos / NANOS_PER_SECOND
    } else {
        -((-nanos) / NANOS_PER_SECOND)
    };
    let span: i128 = if whole > bar_secs as i128 {
        whole
    } else {
        bar_secs as i128
    };
    let missing: i128 = if have == 0 {
        span
    } else {
        let lacking: usize = if want > have {
            want - have
        } else {
            0
        };
        let density: Float = Float::from_i128(span).over(Float::from_u64(have as u64));
        density.times(Float::from_u64(lacking as u64)).ceil_i64() as i128
    };
    let quarter: i128 = if missing >= 0 {
        missing / 4
    } else {
        -((-missing) / 4)
    };
    let generous: i128 = missing + quarter;
    assert(-0x100_0000_0000_0000_0000_0000_0000 <= span <= 0x100_0000_0000_0000_0000_0000_0000);
    assert(MAX_BACKOFF_SPAN_MUL == 4);
    let most: i128 = span * 4;
    let capped: i128 = if generous > most {
        most
    } else {
        generous
    };
    let back: i128 = if capped > bar_secs as i128 {
        capped
    } else {
        bar_secs as i128
    };
    Instant { nanos: pull_from.nanos - NANOS_PER_SECOND * back }
}

/// Where the pulling stands.
#[derive(Clone, Copy, Debug, PartialEq, Eq)]
pub struct WarmupPull {
    pub start: Instant,
    pub bar_secs: i64,
    /// The candles that are wanted before the start.
    pub want: usize,
    /// Where the next pull begins.
    pub pull_from: Instant,
    /// How often the span was widened.
    pub attempt: u32,
    /// The live candles of the attempt before.
    pub live: Option<usize>,
}

/// What comes of one attempt.
#[derive(Clone, Copy, Debug, PartialEq, Eq, Structural)]
pub enum WarmupStep {
    /// There is no candle at all.
    NoCandles,
    /// The live candles changed: the source gave another series.
    LiveChanged { previous: usize, current: usize },
    /// There are enough candles.
    Enough,
    /// There are not, and the attempts have run out.
    Short,
    /// Pull again, from further back.
    Again,
}

/// The candles before the start.
pub open spec fn candles_before(candles: Seq<BidAskCandle>, start: Instant) -> nat
    decreases candles.len(),
{
    if candles.len() == 0 {
        0
    } else {
        candles_before(candles.drop_last(), start) + if candles.last().time.nanos < start.nanos {
            1nat
        } else {
            0nat
        }
    }
}

/// Counts the candles before the start.
pub fn count_warmup(candles: &Vec<BidAskCandle>, start: Instant) -> (n: usize)
    ensures
        n == candles_before(candles@, start),
        n <= candles@.len(),
{
    let mut n: usize = 0;
    let mut i: usize = 0;
    while i < candles.len()
        invariant
            n <= i <= candles@.len(),
            n == candles_before(candles@.take(i as int), start),
        decreases candles@.len() - i,
    {
        assert(candles@.take(i + 1).drop_last() =~= candles@.take(i as int));
        if candles[i].time.nanos < start.nanos {
            n = n + 1;
        }
        i = i + 1;
    }
    assert(candles@.take(i as int) =~= candles@);
    n
}

/// How far back the beginning can have come after so many widenings, in nanoseconds.
pub open spec fn reach(attempt: nat) -> int
    decreases attempt,
{
    if attempt == 0 {
        0x4000_0000_0000_0000_0000_0000
    } else {
        8 * reach((attempt - 1) as nat)
    }
}

proof fn reach_is_within_the_furthest(attempt: nat)
    requires
        attempt <= MAX_WARMUP_BACKOFF_ATTEMPTS,
    ensures
        0x4000_0000_0000_0000_0000_0000 <= reach(attempt) <= reach(6),
        reach(6) < FURTHEST / 2,
    decreases 6 - attempt,
{
    reveal_with_fuel(reach, 7);
    if attempt < 6 {
        reach_is_within_the_furthest(attempt + 1);
    }
}

impl WarmupPull {
    /// The time that the wanted candles take where there is no gap.
    pub open spec fn naive_span(self) -> int {
        self.bar_secs * self.want
    }

    /// A machine can count the wanted candles' time, and the beginning is no further back than the
    /// widenings allow.
    pub open spec fn wf(self) -> bool {
        &&& self.start.valid()
        &&& 0 < self.bar_secs
        &&& self.naive_span() <= i64::MAX
        &&& self.attempt <= MAX_WARMUP_BACKOFF_ATTEMPTS
        &&& 0 <= self.start.nanos - self.pull_from.nanos <= reach(self.attempt as nat)
    }

    /// What an attempt with so many candles comes to.
    pub open spec fn outcome(self, total: nat, warmup: nat) -> WarmupStep {
        let live = (total - warmup) as usize;
        if total == 0 {
            WarmupStep::NoCandles
        } else if live_verdict(self.live, live) is Changed {
            WarmupStep::LiveChanged { previous: self.live->0, current: live }
        } else if warmup >= self.want {
            WarmupStep::Enough
        } else if self.attempt >= MAX_WARMUP_BACKOFF_ATTEMPTS {
            WarmupStep::Short
        } else {
            WarmupStep::Again
        }
    }

    /// Where the next pull begins: where the density says, and at least the naive span further
    /// back.
    pub open spec fn further_back(self, warmup: nat) -> int {
        let by_density = self.pull_from.nanos - NANOS_PER_SECOND * step_back(
            pulled_span(self.start, self.pull_from, self.bar_secs as int),
            warmup,
            self.want as nat,
            self.bar_secs as int,
        );
        let by_span = self.pull_from.nanos - NANOS_PER_SECOND * self.naive_span();
        if by_density < by_span {
            by_density
        } else {
            by_span
        }
    }

    /// The first attempt: as many bars before the start as candles are wanted.
    pub fn new(start: Instant, bar_secs: i64, want: usize) -> (p: WarmupPull)
        requires
            start.valid(),
            0 < bar_secs,
            bar_secs * want <= i64::MAX,
        ensures
            p.start == start && p.bar_secs == bar_secs && p.want == want,
            p.pull_from.nanos == start.nanos - NANOS_PER_SECOND * (bar_secs * want),
            p.attempt == 0,
            p.live is None,
            p.wf(),
    {
        assert(0 <= bar_secs * want) by (nonlinear_arith) requires bar_secs > 0, want >= 0;
        let span: i128 = bar_secs as i128 * want as i128;
        WarmupPull {
            start,
            bar_secs,
            want,
            pull_from: Instant { nanos: start.nanos - NANOS_PER_SECOND * span },
            attempt: 0,
            live: None,
        }
    }

    /// Takes in an attempt: `total` candles, `warmup` of them before the start. Where it says to
    /// pull again, the beginning has moved back.
    pub fn step(&mut self, total: usize, warmup: usize) -> (step: WarmupStep)
        requires
            old(self).wf(),
            warmup <= total,
        ensures
            final(self).wf(),
            step == old(self).outcome(total as nat, warmup as nat),
            final(self).start == old(self).start,
            final(self).bar_secs == old(self).bar_secs && final(self).want == old(self).want,
            step is Again ==> {
                &&& final(self).pull_from.nanos == old(self).further_back(warmup as nat)
                &&& final(self).attempt == old(self).attempt + 1
            },
            !(step is Again) ==> final(self).pull_from == old(self).pull_from
                && final(self).attempt == old(self).attempt,
            final(self).live == if step is NoCandles || step is LiveChanged {
                old(self).live
            } else {
                Some((total - warmup) as usize)
            },
    {
        if total == 0 {
            return WarmupStep::NoCandles;
        }
        let live: usize = total - warmup;
        if let LiveCountVerdict::Changed { previous, current } = check_live_count(self.live, live) {
            return WarmupStep::LiveChanged { previous, current };
        }
        self.live = Some(live);
        if warmup >= self.want {
            return WarmupStep::Enough;
        }
        if self.attempt >= MAX_WARMUP_BACKOFF_ATTEMPTS {
            return WarmupStep::Short;
        }
        proof {
            reach_is_within_the_furthest(self.attempt as nat);
        }
        let by_density: Instant = next_pull_from(
            self.start,
            self.pull_from,
            warmup,
            self.want,
            self.bar_secs,
        );
        assert(0 <= self.bar_secs * self.want) by (nonlinear_arith)
            requires 0 < self.bar_secs, 0 <= self.want;
        let span: i128 = self.bar_secs as i128 * self.want as i128;
        let by_span: Instant = Instant { nanos: self.pull_from.nanos - NANOS_PER_SECOND * span };
        proof {
            steps_go_back(
                pulled_span(self.start, self.pull_from, self.bar_secs as int),
                warmup as nat,
                self.want as nat,
                self.bar_secs as int,
            );
        }
        self.pull_from = if by_density.nanos < by_span.nanos {
            by_density
        } else {
            by_span
        };
        self.attempt = self.attempt + 1;
        WarmupStep::Again
    }
}

proof fn steps_go_back(span: int, have: nat, want: nat, bar_secs: int)
    requires
        bar_secs > 0,
        span >= bar_secs,
    ensures
        bar_secs <= step_back(span, have, want, bar_secs) <= MAX_BACKOFF_SPAN_MUL * span,
{
}

/// A step back is at least one bar, so the pull always moves on, and at most four times the span,
/// so that a density measured inside a market gap cannot leap back by years.
pub proof fn a_step_back_is_bounded(span: int, have: nat, want: nat, bar_secs: int)
    requires
        bar_secs > 0,
        span >= bar_secs,
    ensures
        bar_secs <= step_back(span, have, want, bar_secs) <= MAX_BACKOFF_SPAN_MUL * span,
{
    steps_go_back(span, have, want, bar_secs);
}

/// Each attempt that pulls again begins further back than the last by at least the naive span and
/// at least a bar, and uses up one of the attempts that are left.
pub proof fn every_retry_reaches_further_back(p: WarmupPull, warmup: nat)
    requires
        p.wf(),
    ensures
        p.further_back(warmup) <= p.pull_from.nanos - NANOS_PER_SECOND * p.naive_span(),
        p.further_back(warmup) <= p.pull_from.nanos - NANOS_PER_SECOND * p.bar_secs,
        forall|total: nat|
            #[trigger] p.outcome(total, warmup) is Again ==> p.attempt
                < MAX_WARMUP_BACKOFF_ATTEMPTS,
{
    steps_go_back(
        pulled_span(p.start, p.pull_from, p.bar_secs as int),
        warmup,
        p.want as nat,
        p.bar_secs as int,
    );
}

/// An accepted pull has the live candles that every attempt before it had.
pub proof fn an_accepted_pull_keeps_the_live_window(p: WarmupPull, total: nat, warmup: nat)
    requires
        warmup <= total <= usize::MAX,
        p.live is Some,
        p.outcome(total, warmup) is Enough || p.outcome(total, warmup) is Short,
    ensures
        p.live == Some((total - warmup) as usize),
{
}

/// What an attempt comes to, by its counts: nothing without a candle; refused where the live candles
/// are not as many as before; enough with as many as wanted before the start; else short once six
/// widenings are used up, and else to be tried again.
pub proof fn an_attempt_is_judged_by_its_counts(p: WarmupPull, total: nat, warmup: nat)
    requires
        warmup <= total <= usize::MAX,
    ensures
        ({
            let live = total - warmup;
            let changed = p.live is Some && p.live->0 != live;
            let outcome = p.outcome(total, warmup);
            &&& outcome is NoCandles <==> total == 0
            &&& outcome is LiveChanged <==> total > 0 && changed
            &&& outcome matches WarmupStep::LiveChanged { previous, current } ==> Some(previous)
                == p.live && current == live
            &&& outcome is Enough <==> total > 0 && !changed && warmup >= p.want
            &&& outcome is Short <==> total > 0 && !changed && warmup < p.want && p.attempt >= 6
            &&& outcome is Again <==> total > 0 && !changed && warmup < p.want && p.attempt < 6
        }),
{
}

/// The candles before the start are those that open before it.
pub proof fn warmup_candles_open_before_the_start(candles: Seq<BidAskCandle>, start: Instant)
    ensures
        candles_before(candles, start) == candles.filter(
            |c: BidAskCandle| c.time.nanos < start.nanos,
        ).len(),
    decreases candles.len(),
{
    reveal(Seq::filter);
    if candles.len() > 0 {
        warmup_candles_open_before_the_start(candles.drop_last(), start);
    }
}

/// How far a step goes back: without a candle the whole span and a quarter of it, with enough
/// candles one bar, and otherwise what is missing at the density and a quarter of that, but no
/// further than four spans.
pub proof fn a_step_back_goes_by_what_is_missing(span: int, have: nat, want: nat, bar_secs: int)
    requires
        0 < bar_secs <= span,
    ensures
        have == 0 ==> step_back(span, have, want, bar_secs) == span + span / 4,
        missing_span(span, have, want) >= 0 ==> ({
            let missing = missing_span(span, have, want);
            let step = step_back(span, have, want, bar_secs);
            &&& missing + missing / 4 < bar_secs ==> step == bar_secs
            &&& bar_secs <= missing + missing / 4 <= 4 * span ==> step == missing + missing / 4
            &&& missing + missing / 4 > 4 * span ==> step == 4 * span
        }),
{
}

/// The next pull begins further back by the larger of two steps: that of the density, and the time
/// that the wanted candles would take without a gap.
pub proof fn the_larger_step_back_is_taken(p: WarmupPull, warmup: nat)
    ensures
        ({
            let span = pulled_span(p.start, p.pull_from, p.bar_secs as int);
            let by_density = step_back(span, warmup, p.want as nat, p.bar_secs as int);
            let by_span = p.bar_secs * p.want;
            let back = p.pull_from.nanos - p.further_back(warmup);
            &&& back >= by_density * 1_000_000_000 && back >= by_span * 1_000_000_000
            &&& back == by_density * 1_000_000_000 || back == by_span * 1_000_000_000
        }),
        p.start.nanos >= p.pull_from.nanos ==> ({
            let whole = (p.start.nanos - p.pull_from.nanos) / 1_000_000_000;
            let span = pulled_span(p.start, p.pull_from, p.bar_secs as int);
            span >= whole && span >= p.bar_secs && (span == whole || span == p.bar_secs)
        }),
{
}

/// Where the candles lie evenly, the missing ones take exactly as long as those that are there do,
/// each: the density is extrapolated without an error.
pub proof fn an_even_density_is_extrapolated(gap: nat, have: nat, want: nat)
    requires
        0 < have < want,
        gap * have < 0x20_0000_0000_0000,
        gap * (want - have) < 0x20_0000_0000_0000,
        gap < 0x20_0000_0000_0000,
        want < 0x20_0000_0000_0000,
    ensures
        missing_span((gap * have) as int, have, want) == gap * (want - have),
{
    let missing = (want - have) as nat;
    let all = gap * missing;
    small_integers_divide_and_multiply(gap, have);
    small_integers_divide_and_multiply(gap, missing);
    a_small_integer_is_exact(all);
    let exact = from_integer(all as int);
    a_ceiling_is_the_least_integer_above(exact);
    let one = vstd::arithmetic::power2::pow2(1074) as int;
    vstd::arithmetic::power2::lemma_pow2_pos(1074);
    let c = exact.ceiling();
    assert(c == all) by (nonlinear_arith)
        requires all * one <= c * one, all * one > (c - 1) * one, one > 0;
}

/// With as many candles as wanted nothing is missing, and the step back is a single bar.
pub proof fn nothing_missing_is_one_bar_back(span: nat, have: nat, want: nat, bar_secs: int)
    requires
        0 < have < 0x20_0000_0000_0000,
        want <= have,
        0 < bar_secs <= span < 0x20_0000_0000_0000,
    ensures
        step_back(span as int, have, want, bar_secs) == bar_secs,
{
    a_small_integer_is_exact(0);
    a_small_integer_is_exact(span);
    a_small_integer_is_exact(have);
    let density = quotient(from_integer(span as int), from_integer(have as int));
    let exact = product(density, from_integer(0));
    zero_times_is_zero(density, from_integer(0));
}

proof fn zero_times_is_zero(x: Float, zero: Float)
    requires
        zero.mag() == 0,
    ensures
        product(x, zero).nan() || (product(x, zero).finite() && product(x, zero).ceiling() == 0),
{
    zero_units();
    vstd::arithmetic::power2::lemma_pow2_pos(1074);
    let one = vstd::arithmetic::power2::pow2(1074);
    if x.finite() {
        a_product_is_the_exact_one_rounded(x, zero);
        assert(magnitude_units(x.mag()) * 0 == 0) by (nonlinear_arith);
        a_number_rounds_to_itself(0, one);
        assert(one * 0 == 0) by (nonlinear_arith);
        assert(product(x, zero).mag() == 0);
        assert(0nat / one == 0 && 0nat % one == 0) by (nonlinear_arith) requires one > 0;
    } else {
        special_numbers_add_and_multiply(x, zero);
    }
}

/// The live candles have changed exactly where there was a count before and it is another one.
pub proof fn a_changed_count_is_another_one(previous: Option<usize>, current: usize)
    ensures
        live_verdict(previous, current) is Changed <==> previous is Some && previous->0 != current,
        live_verdict(previous, current) matches LiveCountVerdict::Changed { previous: p, current: c }
            ==> previous == Some(p) && c == current,
{
}

} // verus!
