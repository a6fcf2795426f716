//! What a simulated outcome says of the candles, in the candles' own fields.
//!
//! The walks over a path are told here by what is true of the bar they end on and of every bar
//! before it, without a walk.
use vstd::prelude::*;
use crate::binary64::{difference, quotient, Float};
use crate::fill_laws::armed_by;
use crate::fill_sim::{
    armed_from, arms_exit, covered, covers, episodes_of, exit_from, fill_of, hits_stop, hits_target,
    least_gap, managed_stop, open_times, opening_in, outcome_with, stop_on_bar, takes_entry,
    target_first, zoom_request, ExitSearch, Fill, Order, PathBar, Resolved, ResolvedEntry,
    SimOutcome, SpreadWiden, ZoomWindow,
};
use crate::market::{breached, BidAskCandle, Direction};
use crate::time::Instant;

verus! {

/// A stop at this level is hit: a long sells on the bid, whose low is at the stop or below it; a
/// short buys on the ask, whose high is at the stop or above it.
pub open spec fn stop_touched(dir: Direction, c: BidAskCandle, stop: Float) -> bool {
    match dir {
        Direction::Long => c.bid_l.at_most(stop),
        Direction::Short => stop.at_most(c.ask_h),
    }
}

/// A target at this level is hit: the bid's high is at it or above it for a long, the ask's low at
/// it or below it for a short.
pub open spec fn target_touched(dir: Direction, c: BidAskCandle, target: Float) -> bool {
    match dir {
        Direction::Long => target.at_most(c.bid_h),
        Direction::Short => c.ask_l.at_most(target),
    }
}

/// The order at this price is reached: a long buys on the ask, which rises to a stop order and
/// falls to a limit order; a short sells on the bid, which falls to a stop order and rises to a
/// limit order.
pub open spec fn entry_touched(entry: ResolvedEntry, dir: Direction, c: BidAskCandle) -> bool {
    match (entry, dir) {
        (ResolvedEntry::Market { .. }, _) => true,
        (ResolvedEntry::Stop { trigger_price }, Direction::Long) => trigger_price.at_most(c.ask_h),
        (ResolvedEntry::Stop { trigger_price }, Direction::Short) => c.bid_l.at_most(trigger_price),
        (ResolvedEntry::Limit { trigger_price }, Direction::Long) => c.ask_l.at_most(trigger_price),
        (ResolvedEntry::Limit { trigger_price }, Direction::Short) => trigger_price.at_most(
            c.bid_h,
        ),
    }
}

/// The mid traded at the stop or past it.
pub open spec fn traded_past(dir: Direction, c: BidAskCandle, stop: Float) -> bool {
    match dir {
        Direction::Long => c.l.at_most(stop),
        Direction::Short => stop.at_most(c.h),
    }
}

/// The widen holds on a bar that opens at this time: it has begun and is not restored.
pub open spec fn governs(w: SpreadWiden, t: Instant) -> bool {
    w.effective_from.nanos <= t.nanos && (w.restored_at matches Some(r) ==> t.nanos < r.nanos)
}

/// Some widen holds on a bar that opens at this time.
pub open spec fn some_governs(episodes: Seq<SpreadWiden>, t: Instant) -> bool {
    exists|k: int| 0 <= k < episodes.len() && governs(#[trigger] episodes[k], t)
}

/// The bar's close arms break-even: it is past the level, the stop would not lie inside the noise,
/// and no widen holds on the bar.
pub open spec fn armed_on(bar: PathBar, episodes: Seq<SpreadWiden>) -> bool {
    &&& bar.marks.close_arms
    &&& !bar.marks.noise_blocks
    &&& !some_governs(episodes, bar.candle.time)
}

/// A bar from `start` on and before `j` has armed break-even.
pub open spec fn armed_before(
    path: Seq<PathBar>,
    episodes: Seq<SpreadWiden>,
    start: int,
    j: int,
) -> bool {
    exists|a: int| start <= a < j && armed_on(#[trigger] path[a], episodes)
}

/// The broker holds this stop on bar `j` of a position that is on since bar `start`: the level of
/// the first widen that holds there, else the break-even stop once an earlier bar has armed it,
/// else the placed stop.
pub open spec fn held_on(
    resolved: Resolved,
    path: Seq<PathBar>,
    episodes: Seq<SpreadWiden>,
    start: int,
    j: int,
    stop: Float,
) -> bool {
    let t = path[j].candle.time;
    if some_governs(episodes, t) {
        exists|k: int|
            {
                &&& 0 <= k < episodes.len()
                &&& governs(#[trigger] episodes[k], t)
                &&& stop == episodes[k].widened_stop
                &&& forall|l: int| 0 <= l < k ==> !governs(#[trigger] episodes[l], t)
            }
    } else if resolved.breakeven is Some && armed_before(path, episodes, start, j) {
        stop == resolved.breakeven->0.target_stop
    } else {
        stop == resolved.stop_loss
    }
}

/// The position is still on after the bars from `i` to `m`, the last not counted: none of them
/// reaches the target, or the stop that is held on it.
pub open spec fn open_through(
    resolved: Resolved,
    path: Seq<PathBar>,
    episodes: Seq<SpreadWiden>,
    start: int,
    i: int,
    m: int,
) -> bool {
    &&& forall|j: int|
        i <= j < m ==> !target_touched(
            resolved.direction,
            (#[trigger] path[j]).candle,
            resolved.take_profit,
        )
    &&& forall|j: int, stop: Float|
        i <= j < m && #[trigger] held_on(resolved, path, episodes, start, j, stop)
            ==> !stop_touched(resolved.direction, path[j].candle, stop)
}

/// The widen has begun before a bar that opens at this time, and is not restored.
pub open spec fn lasts_into(w: SpreadWiden, t: Instant) -> bool {
    w.effective_from.nanos < t.nanos && (w.restored_at matches Some(r) ==> t.nanos < r.nanos)
}

/// Some widen has begun before a bar that opens at this time, and is not restored.
pub open spec fn some_lasts_into(episodes: Seq<SpreadWiden>, t: Instant) -> bool {
    exists|k: int| 0 <= k < episodes.len() && lasts_into(#[trigger] episodes[k], t)
}

/// The broker holds this stop when bar `j` opens, before anything is widened on it.
pub open spec fn held_at_open(
    resolved: Resolved,
    path: Seq<PathBar>,
    episodes: Seq<SpreadWiden>,
    start: int,
    j: int,
    stop: Float,
) -> bool {
    let t = path[j].candle.time;
    if some_lasts_into(episodes, t) {
        exists|k: int|
            {
                &&& 0 <= k < episodes.len()
                &&& lasts_into(#[trigger] episodes[k], t)
                &&& stop == episodes[k].widened_stop
                &&& forall|l: int| 0 <= l < k ==> !lasts_into(#[trigger] episodes[l], t)
            }
    } else if resolved.breakeven is Some && armed_before(path, episodes, start, j) {
        stop == resolved.breakeven->0.target_stop
    } else {
        stop == resolved.stop_loss
    }
}

/// No bar from `start` to `end`, the last not counted, reaches the target, or the stop that is held
/// when it opens.
pub open spec fn unclosed(
    resolved: Resolved,
    path: Seq<PathBar>,
    episodes: Seq<SpreadWiden>,
    start: int,
    end: int,
) -> bool {
    &&& forall|x: int|
        start <= x < end ==> !target_touched(
            resolved.direction,
            (#[trigger] path[x]).candle,
            resolved.take_profit,
        )
    &&& forall|x: int, stop: Float|
        start <= x < end && #[trigger] held_at_open(resolved, path, episodes, start, x, stop)
            ==> !stop_touched(resolved.direction, path[x].candle, stop)
}

/// The bar calls for a widen: its spread can be measured, and it is in a learned spread hour or
/// leads into one, or it is at the New York close with a spread at the trigger or above it.
pub open spec fn calls_for_widen(bar: PathBar, pip_size: Float, trigger: Float) -> bool {
    let spread = quotient(difference(bar.candle.ask_c, bar.candle.bid_c), pip_size);
    spread.finite() && (bar.marks.widen_at is Some || bar.marks.ny_close_edge && trigger.at_most(
        spread,
    ))
}

/// The bar restores a stop that was widened on a bar at `widened_at`: its spread is four pips or
/// less, or twelve hours have gone by and the calendar lets the last resort act.
pub open spec fn normal_again(bar: PathBar, widened_at: Instant, pip_size: Float) -> bool {
    let spread = quotient(difference(bar.candle.ask_c, bar.candle.bid_c), pip_size);
    ||| spread.finite() && spread.at_most(Float { bits: 0x4010_0000_0000_0000 })
    ||| bar.candle.time.nanos - widened_at.nanos >= 12 * 3_600 * 1_000_000_000
        && bar.marks.backstop_clear
}

/// A stop widened on bar `j` is restored at this time: on the first later bar that restores it, or
/// never where none does.
pub open spec fn restored_first(
    path: Seq<PathBar>,
    j: int,
    pip_size: Float,
    restored_at: Option<Instant>,
) -> bool {
    let t = path[j].candle.time;
    match restored_at {
        Some(r) => exists|m: int|
            {
                &&& j < m < path.len()
                &&& (#[trigger] path[m]).candle.time == r
                &&& normal_again(path[m], t, pip_size)
                &&& forall|x: int| j < x < m ==> !normal_again(#[trigger] path[x], t, pip_size)
            },
        None => forall|m: int|
            j < m < path.len() ==> !normal_again(#[trigger] path[m], t, pip_size),
    }
}

/// The episode is the one that bar `j` starts: from the stop without a widen that is in force there,
/// to the level that the learned size gives in a spread hour and the live spread elsewhere.
pub open spec fn started_on(
    resolved: Resolved,
    path: Seq<PathBar>,
    pip_size: Float,
    episodes: Seq<SpreadWiden>,
    start: int,
    w: SpreadWiden,
    j: int,
) -> bool {
    let (c, marks) = (path[j].candle, path[j].marks);
    let armed = resolved.breakeven is Some && armed_before(path, episodes, start, j);
    &&& w.effective_from == c.time
    &&& w.widen_spread_pips == quotient(difference(c.ask_c, c.bid_c), pip_size)
    &&& match marks.widen_at {
        Some(at) => {
            &&& w.at == at
            &&& armed ==> w.widened_stop == marks.learned.from_breakeven
            &&& !armed ==> w.widened_stop == marks.learned.from_placed
        },
        None => {
            &&& w.at == c.time
            &&& armed ==> w.widened_stop == marks.clamped.from_breakeven
            &&& !armed ==> w.widened_stop == marks.clamped.from_placed
        },
    }
    &&& armed ==> w.original_stop == resolved.breakeven->0.target_stop
    &&& !armed ==> w.original_stop == resolved.stop_loss
    &&& restored_first(path, j, pip_size, w.restored_at)
}

/// A stop and a target are hit on the book that closes the position, by the book's low or high.
pub proof fn exits_are_on_the_closing_book(resolved: Resolved, c: BidAskCandle, stop: Float)
    ensures
        hits_stop(resolved, c, stop) == match resolved.direction {
            Direction::Long => c.bid_l.at_most(stop),
            Direction::Short => stop.at_most(c.ask_h),
        },
        hits_target(resolved, c) == match resolved.direction {
            Direction::Long => resolved.take_profit.at_most(c.bid_h),
            Direction::Short => c.ask_l.at_most(resolved.take_profit),
        },
{
}

/// A resting order fills on a bar after the fire bar, no later than its life allows, on which the
/// opening book reaches its price outside a spread hour, before which no bar did and no bar's mid
/// traded past its stop. It stays unfilled only where there is no such bar. A market order fills at
/// once.
pub proof fn a_fill_is_the_first_touch_of_the_opening_book(
    resolved: Resolved,
    order: Order,
    path: Seq<PathBar>,
)
    requires
        path.len() <= usize::MAX,
    ensures
        match (resolved.entry, fill_of(resolved, order, path)) {
            (ResolvedEntry::Market { reference_price }, fill) => fill == Some(
                Fill { fill_at: order.fired_at, entry_price: reference_price, start: 0 },
            ),
            (entry, Some(fill)) => {
                let i = fill.start as int;
                &&& 1 <= i < path.len()
                &&& order.expiry_bars matches Some(n) ==> i <= n
                &&& entry_touched(entry, resolved.direction, path[i].candle)
                &&& !path[i].marks.spread_hour
                &&& fill.fill_at == path[i].candle.time
                &&& match entry {
                    ResolvedEntry::Stop { trigger_price } => fill.entry_price == trigger_price,
                    ResolvedEntry::Limit { trigger_price } => fill.entry_price == trigger_price,
                    ResolvedEntry::Market { .. } => true,
                }
                &&& forall|j: int|
                    1 <= j < i ==> (!entry_touched(
                        entry,
                        resolved.direction,
                        (#[trigger] path[j]).candle,
                    ) || path[j].marks.spread_hour) && !traded_past(
                        resolved.direction,
                        path[j].candle,
                        resolved.stop_loss,
                    )
            },
            (entry, None) => forall|i: int|
                {
                    &&& 1 <= i < path.len()
                    &&& (order.expiry_bars matches Some(n) ==> i <= n)
                    &&& entry_touched(entry, resolved.direction, (#[trigger] path[i]).candle)
                    &&& !path[i].marks.spread_hour
                } ==> exists|j: int|
                    1 <= j < i && traded_past(
                        resolved.direction,
                        (#[trigger] path[j]).candle,
                        resolved.stop_loss,
                    ),
        },
{
    if !(resolved.entry is Market) {
        crate::fill_laws::a_resting_order_fills_on_the_first_touch_after_the_fire_bar(
            resolved,
            order,
            path,
        );
        if fill_of(resolved, order, path) is None {
            assert forall|i: int|
                {
                    &&& 1 <= i < path.len()
                    &&& (order.expiry_bars matches Some(n) ==> i <= n)
                    &&& entry_touched(resolved.entry, resolved.direction, (#[trigger] path[i]).candle)
                    &&& !path[i].marks.spread_hour
                } implies exists|j: int|
                1 <= j < i && traded_past(
                    resolved.direction,
                    (#[trigger] path[j]).candle,
                    resolved.stop_loss,
                ) by {
                assert(takes_entry(resolved, path[i]));
                let j = choose|j: int|
                    1 <= j < i && breached(
                        (#[trigger] path[j]).candle,
                        resolved.direction,
                        resolved.stop_loss,
                    );
                assert(traded_past(resolved.direction, path[j].candle, resolved.stop_loss));
            }
        }
    }
}

proof fn covering_is_governing(episodes: Seq<SpreadWiden>, t: Instant)
    ensures
        covered(episodes, t) == some_governs(episodes, t),
        forall|k: int| 0 <= k < episodes.len() ==> covers(#[trigger] episodes[k], t) == governs(
            episodes[k],
            t,
        ),
{
    if covered(episodes, t) {
        let k = choose|k: int| 0 <= k < episodes.len() && covers(#[trigger] episodes[k], t);
        assert(governs(episodes[k], t));
    }
    if some_governs(episodes, t) {
        let k = choose|k: int| 0 <= k < episodes.len() && governs(#[trigger] episodes[k], t);
        assert(covers(episodes[k], t));
    }
}

/// The stop in force is that of the first widen that holds, else the one without a widen.
pub proof fn the_first_widen_sets_the_stop(episodes: Seq<SpreadWiden>, t: Instant, base: Float)
    ensures
        match some_governs(episodes, t) {
            true => exists|k: int|
                {
                    &&& 0 <= k < episodes.len()
                    &&& governs(#[trigger] episodes[k], t)
                    &&& stop_on_bar(episodes, t, base) == episodes[k].widened_stop
                    &&& forall|l: int| 0 <= l < k ==> !governs(#[trigger] episodes[l], t)
                },
            false => stop_on_bar(episodes, t, base) == base,
        },
    decreases episodes.len(),
{
    if episodes.len() > 0 {
        assert(covers(episodes[0], t) == governs(episodes[0], t));
        if governs(episodes[0], t) {
            assert(some_governs(episodes, t));
        } else {
            let rest = episodes.drop_first();
            the_first_widen_sets_the_stop(rest, t, base);
            if some_governs(episodes, t) {
                let k = choose|k: int| 0 <= k < episodes.len() && governs(#[trigger] episodes[k], t);
                assert(rest[k - 1] == episodes[k]);
                assert(some_governs(rest, t));
                let r = choose|r: int|
                    {
                        &&& 0 <= r < rest.len()
                        &&& governs(#[trigger] rest[r], t)
                        &&& stop_on_bar(rest, t, base) == rest[r].widened_stop
                        &&& forall|l: int| 0 <= l < r ==> !governs(#[trigger] rest[l], t)
                    };
                assert(episodes[r + 1] == rest[r]);
                assert forall|l: int| 0 <= l < r + 1 implies !governs(#[trigger] episodes[l], t) by {
                    if l > 0 {
                        assert(episodes[l] == rest[l - 1]);
                    }
                }
            } else {
                if some_governs(rest, t) {
                    let r = choose|r: int| 0 <= r < rest.len() && governs(#[trigger] rest[r], t);
                    assert(episodes[r + 1] == rest[r]);
                    assert(false);
                }
            }
        }
    }
}

/// The exit search has break-even armed exactly once a bar before has armed it.
pub proof fn arming_is_by_an_earlier_bar(
    resolved: Resolved,
    path: Seq<PathBar>,
    episodes: Seq<SpreadWiden>,
    start: int,
    i: int,
)
    requires
        start <= i,
    ensures
        armed_by(resolved, path, episodes, start, i) == (resolved.breakeven is Some && armed_before(
            path,
            episodes,
            start,
            i,
        )),
    decreases i - start,
{
    if start < i {
        arming_is_by_an_earlier_bar(resolved, path, episodes, start, i - 1);
        covering_is_governing(episodes, path[i - 1].candle.time);
        if resolved.breakeven is Some && armed_before(path, episodes, start, i) {
            let a = choose|a: int| start <= a < i && armed_on(#[trigger] path[a], episodes);
            if a < i - 1 {
                assert(armed_before(path, episodes, start, i - 1));
            }
        }
        if armed_by(resolved, path, episodes, start, i) {
            if armed_by(resolved, path, episodes, start, i - 1) {
                let a = choose|a: int| start <= a < i - 1 && armed_on(#[trigger] path[a], episodes);
                assert(armed_on(path[a], episodes));
            } else {
                assert(armed_on(path[i - 1], episodes));
            }
        }
    }
}

/// One stop is held on a bar: the one that the exit search tests.
proof fn the_tested_stop_is_the_held_one(
    resolved: Resolved,
    path: Seq<PathBar>,
    episodes: Seq<SpreadWiden>,
    start: int,
    j: int,
)
    requires
        start <= j,
    ensures
        forall|stop: Float|
            #[trigger] held_on(resolved, path, episodes, start, j, stop) == (stop == stop_on_bar(
                episodes,
                path[j].candle.time,
                managed_stop(resolved, armed_by(resolved, path, episodes, start, j)),
            )),
{
    let t = path[j].candle.time;
    let base = managed_stop(resolved, armed_by(resolved, path, episodes, start, j));
    let tested = stop_on_bar(episodes, t, base);
    the_first_widen_sets_the_stop(episodes, t, base);
    arming_is_by_an_earlier_bar(resolved, path, episodes, start, j);
    assert forall|stop: Float|
        #[trigger] held_on(resolved, path, episodes, start, j, stop) == (stop == tested) by {
        if some_governs(episodes, t) {
            let k = choose|k: int|
                {
                    &&& 0 <= k < episodes.len()
                    &&& governs(#[trigger] episodes[k], t)
                    &&& tested == episodes[k].widened_stop
                    &&& forall|l: int| 0 <= l < k ==> !governs(#[trigger] episodes[l], t)
                };
            if held_on(resolved, path, episodes, start, j, stop) {
                let m = choose|m: int|
                    {
                        &&& 0 <= m < episodes.len()
                        &&& governs(#[trigger] episodes[m], t)
                        &&& stop == episodes[m].widened_stop
                        &&& forall|l: int| 0 <= l < m ==> !governs(#[trigger] episodes[l], t)
                    };
                assert(m == k);
            }
        }
    }
}

/// The exit search ends on the first bar that reaches the stop held on it, or the target.
proof fn a_search_ends_on_the_first_touch(
    resolved: Resolved,
    path: Seq<PathBar>,
    episodes: Seq<SpreadWiden>,
    start: int,
    i: int,
)
    requires
        0 <= start <= i,
    ensures
        ({
            let armed = armed_by(resolved, path, episodes, start, i);
            let (dir, target) = (resolved.direction, resolved.take_profit);
            match exit_from(resolved, path, episodes, i, armed) {
                ExitSearch::Open => open_through(
                    resolved,
                    path,
                    episodes,
                    start,
                    i,
                    path.len() as int,
                ),
                ExitSearch::Stop { at, stop } => exists|m: int|
                    {
                        &&& i <= m < path.len()
                        &&& (#[trigger] path[m]).candle.time == at
                        &&& open_through(resolved, path, episodes, start, i, m)
                        &&& held_on(resolved, path, episodes, start, m, stop)
                        &&& stop_touched(dir, path[m].candle, stop)
                        &&& !target_touched(dir, path[m].candle, target)
                    },
                ExitSearch::Target { at } => exists|m: int|
                    {
                        &&& i <= m < path.len()
                        &&& (#[trigger] path[m]).candle.time == at
                        &&& open_through(resolved, path, episodes, start, i, m)
                        &&& forall|stop: Float|
                            #[trigger] held_on(resolved, path, episodes, start, m, stop)
                                ==> !stop_touched(dir, path[m].candle, stop)
                        &&& target_touched(dir, path[m].candle, target)
                    },
                ExitSearch::Both { at, stop } => exists|m: int|
                    {
                        &&& i <= m < path.len()
                        &&& (#[trigger] path[m]).candle.time == at
                        &&& open_through(resolved, path, episodes, start, i, m)
                        &&& held_on(resolved, path, episodes, start, m, stop)
                        &&& stop_touched(dir, path[m].candle, stop)
                        &&& target_touched(dir, path[m].candle, target)
                    },
            }
        }),
    decreases path.len() - i,
{
    if i < path.len() {
        let armed = armed_by(resolved, path, episodes, start, i);
        let c = path[i].candle;
        let stop = stop_on_bar(episodes, c.time, managed_stop(resolved, armed));
        the_tested_stop_is_the_held_one(resolved, path, episodes, start, i);
        exits_are_on_the_closing_book(resolved, c, stop);
        assert(held_on(resolved, path, episodes, start, i, stop));
        assert(open_through(resolved, path, episodes, start, i, i));
        if !hits_stop(resolved, c, stop) && !hits_target(resolved, c) {
            a_search_ends_on_the_first_touch(resolved, path, episodes, start, i + 1);
            assert(armed_by(resolved, path, episodes, start, i + 1) == (armed || arms_exit(
                resolved,
                path[i],
                episodes,
            )));
            assert forall|m: int|
                i + 1 <= m && #[trigger] open_through(
                    resolved,
                    path,
                    episodes,
                    start,
                    i + 1,
                    m,
                ) implies open_through(resolved, path, episodes, start, i, m) by {
                assert forall|j: int, s: Float|
                    i <= j < m && #[trigger] held_on(
                        resolved,
                        path,
                        episodes,
                        start,
                        j,
                        s,
                    ) implies !stop_touched(resolved.direction, path[j].candle, s) by {
                    if j == i {
                        assert(s == stop);
                    }
                }
            }
        } else {
            assert(path[i].candle.time == c.time);
        }
    }
}

/// Sub-bar `k` settles a bar as a profit: it reaches the target and not the stop, and no sub-bar
/// before it reaches either.
pub open spec fn settles_as_profit(
    dir: Direction,
    subs: Seq<BidAskCandle>,
    stop: Float,
    target: Float,
    k: int,
) -> bool {
    &&& 0 <= k < subs.len()
    &&& target_touched(dir, subs[k], target)
    &&& !stop_touched(dir, subs[k], stop)
    &&& forall|j: int|
        0 <= j < k ==> !target_touched(dir, #[trigger] subs[j], target) && !stop_touched(
            dir,
            subs[j],
            stop,
        )
}

/// The finer candles settle a bar as a profit exactly where some sub-bar reaches the target and not
/// the stop, and every sub-bar before it reaches neither.
pub proof fn the_first_sub_bar_that_touches_decides(
    resolved: Resolved,
    subs: Seq<BidAskCandle>,
    stop: Float,
)
    ensures
        target_first(resolved, subs, stop) == exists|k: int|
            #[trigger] settles_as_profit(
                resolved.direction,
                subs,
                stop,
                resolved.take_profit,
                k,
            ),
    decreases subs.len(),
{
    let (dir, target) = (resolved.direction, resolved.take_profit);
    if subs.len() > 0 {
        exits_are_on_the_closing_book(resolved, subs[0], stop);
        let rest = subs.drop_first();
        the_first_sub_bar_that_touches_decides(resolved, rest, stop);
        if stop_touched(dir, subs[0], stop) {
            assert forall|k: int| !#[trigger] settles_as_profit(dir, subs, stop, target, k) by {
                if settles_as_profit(dir, subs, stop, target, k) {
                    assert(k == 0 || !stop_touched(dir, subs[0], stop));
                }
            }
        } else if target_touched(dir, subs[0], target) {
            assert(settles_as_profit(dir, subs, stop, target, 0));
        } else {
            if target_first(resolved, rest, stop) {
                let k = choose|k: int| #[trigger] settles_as_profit(dir, rest, stop, target, k);
                assert forall|j: int| 0 <= j < k + 1 implies !target_touched(
                    dir,
                    #[trigger] subs[j],
                    target,
                ) && !stop_touched(dir, subs[j], stop) by {
                    if j > 0 {
                        assert(subs[j] == rest[j - 1]);
                    }
                }
                assert(subs[k + 1] == rest[k]);
                assert(settles_as_profit(dir, subs, stop, target, k + 1));
            }
            assert forall|k: int| #[trigger]
                settles_as_profit(dir, subs, stop, target, k) implies target_first(
                resolved,
                rest,
                stop,
            ) by {
                assert(k != 0);
                assert(rest[k - 1] == subs[k]);
                assert forall|j: int| 0 <= j < k - 1 implies !target_touched(
                    dir,
                    #[trigger] rest[j],
                    target,
                ) && !stop_touched(dir, rest[j], stop) by {
                    assert(rest[j] == subs[j + 1]);
                }
                assert(settles_as_profit(dir, rest, stop, target, k - 1));
            }
        }
    }
}

/// This is the length of the bars from `start` on, in nanoseconds: the least of the gaps between
/// neighbours that are more than none, or zero where there is no such gap.
pub open spec fn is_bar_length(path: Seq<PathBar>, start: int, len: int) -> bool {
    &&& 0 <= len
    &&& forall|j: int|
        start <= j && j + 1 < path.len() && (#[trigger] path[j + 1]).candle.time.nanos
            > path[j].candle.time.nanos ==> 0 < len <= path[j + 1].candle.time.nanos
            - path[j].candle.time.nanos
    &&& len > 0 ==> exists|j: int|
        start <= j && j + 1 < path.len() && (#[trigger] path[j + 1]).candle.time.nanos
            - path[j].candle.time.nanos == len
}

/// The length that a window of finer candles is cut by is the length of the bars.
pub proof fn a_window_is_one_bar_long(path: Seq<PathBar>, start: int)
    requires
        0 <= start,
    ensures
        is_bar_length(path, start, least_gap(open_times(path), start)),
{
    let times = open_times(path);
    let len = least_gap(times, start);
    crate::fill_laws::the_bar_length_is_the_least_positive_gap(times, start);
    assert forall|j: int|
        start <= j && j + 1 < path.len() && (#[trigger] path[j + 1]).candle.time.nanos
            > path[j].candle.time.nanos implies 0 < len <= path[j + 1].candle.time.nanos
        - path[j].candle.time.nanos by {
        assert(times[j + 1] - times[j] > 0);
    }
    if len > 0 {
        let j = choose|j: int|
            start <= j && j + 1 < times.len() && #[trigger] times[j + 1] - times[j] == len;
        assert(path[j + 1].candle.time.nanos - path[j].candle.time.nanos == len);
    }
}

/// The finer candles of the bar at `at`, which is `len` long, settle it as a profit.
pub open spec fn finer_say_profit(
    resolved: Resolved,
    finer: spec_fn(ZoomWindow) -> Seq<BidAskCandle>,
    at: Instant,
    len: int,
    stop: Float,
) -> bool {
    &&& len > 0
    &&& exists|k: int|
        #[trigger] settles_as_profit(
            resolved.direction,
            finer(ZoomWindow { start: at, end: Instant { nanos: (at.nanos + len) as i128 } }),
            stop,
            resolved.take_profit,
            k,
        )
}

/// An outcome is what the candles show. The position runs through bars that reach neither the
/// target nor the stop held on them, and
/// - is taken at the target on the first bar that reaches it, on the closing book, and does not
///   reach the stop held there, or whose finer candles reach the target first;
/// - is stopped at the stop held on the first bar that reaches it, and does not reach the target or
///   whose finer candles do not show that the target came first;
/// - is open where no bar reaches either.
pub proof fn an_outcome_is_what_the_candles_show(
    resolved: Resolved,
    order: Order,
    pip_size: Float,
    path: Seq<PathBar>,
    finer: spec_fn(ZoomWindow) -> Seq<BidAskCandle>,
)
    ensures
        ({
            let fill = fill_of(resolved, order, path);
            let start = fill->0.start as int;
            let episodes = episodes_of(resolved, order, pip_size, path, order.widen_trigger_pips);
            let len = least_gap(open_times(path), start);
            let target = resolved.take_profit;
            match outcome_with(resolved, order, pip_size, path, finer) {
                SimOutcome::NeverFilled => fill is None,
                SimOutcome::FilledOpen { fill_at, entry_price } => {
                    &&& fill is Some
                    &&& fill_at == fill->0.fill_at && entry_price == fill->0.entry_price
                    &&& open_through(resolved, path, episodes, start, start, path.len() as int)
                },
                SimOutcome::TookProfit { fill_at, entry_price, exit_at, exit_price } => {
                    &&& fill is Some
                    &&& fill_at == fill->0.fill_at && entry_price == fill->0.entry_price
                    &&& exit_price == target
                    &&& exists|m: int|
                        {
                            &&& start <= m < path.len()
                            &&& (#[trigger] path[m]).candle.time == exit_at
                            &&& open_through(resolved, path, episodes, start, start, m)
                            &&& match resolved.direction {
                                Direction::Long => target.at_most(path[m].candle.bid_h),
                                Direction::Short => path[m].candle.ask_l.at_most(target),
                            }
                            &&& forall|stop: Float|
                                #[trigger] held_on(resolved, path, episodes, start, m, stop)
                                    && stop_touched(resolved.direction, path[m].candle, stop)
                                    ==> finer_say_profit(resolved, finer, exit_at, len, stop)
                        }
                },
                SimOutcome::StoppedOut { fill_at, entry_price, exit_at, exit_price } => {
                    &&& fill is Some
                    &&& fill_at == fill->0.fill_at && entry_price == fill->0.entry_price
                    &&& exists|m: int|
                        {
                            &&& start <= m < path.len()
                            &&& (#[trigger] path[m]).candle.time == exit_at
                            &&& open_through(resolved, path, episodes, start, start, m)
                            &&& held_on(resolved, path, episodes, start, m, exit_price)
                            &&& match resolved.direction {
                                Direction::Long => path[m].candle.bid_l.at_most(exit_price),
                                Direction::Short => exit_price.at_most(path[m].candle.ask_h),
                            }
                            &&& target_touched(resolved.direction, path[m].candle, target)
                                ==> !finer_say_profit(resolved, finer, exit_at, len, exit_price)
                        }
                },
                SimOutcome::Unresolved(_) => false,
                SimOutcome::Declined { .. } => false,
            }
        }),
{
    if let Some(fill) = fill_of(resolved, order, path) {
        let start = fill.start as int;
        let episodes = episodes_of(resolved, order, pip_size, path, order.widen_trigger_pips);
        let len = least_gap(open_times(path), start);
        a_search_ends_on_the_first_touch(resolved, path, episodes, start, start);
        match exit_from(resolved, path, episodes, start, false) {
            ExitSearch::Both { at, stop } => {
                let m = choose|m: int|
                    {
                        &&& start <= m < path.len()
                        &&& (#[trigger] path[m]).candle.time == at
                        &&& open_through(resolved, path, episodes, start, start, m)
                        &&& held_on(resolved, path, episodes, start, m, stop)
                        &&& stop_touched(resolved.direction, path[m].candle, stop)
                        &&& target_touched(
                            resolved.direction,
                            path[m].candle,
                            resolved.take_profit,
                        )
                    };
                assert(path[m].candle.time == at);
                the_tested_stop_is_the_held_one(resolved, path, episodes, start, m);
                if len > 0 {
                    let w = ZoomWindow {
                        start: at,
                        end: Instant { nanos: (at.nanos + len) as i128 },
                    };
                    the_first_sub_bar_that_touches_decides(resolved, finer(w), stop);
                }
            },
            _ => {},
        }
    }
}

/// Finer candles are asked for exactly where the bar that ends the search reaches both the target
/// and the stop held on it, and then for that bar alone, from its open to the next bar's.
pub proof fn finer_candles_are_asked_for_where_both_are_reached(
    resolved: Resolved,
    order: Order,
    pip_size: Float,
    path: Seq<PathBar>,
)
    ensures
        ({
            let fill = fill_of(resolved, order, path);
            let start = fill->0.start as int;
            let episodes = episodes_of(resolved, order, pip_size, path, order.widen_trigger_pips);
            let len = least_gap(open_times(path), start);
            match zoom_request(resolved, order, pip_size, path) {
                Some(w) => {
                    &&& fill is Some
                    &&& len > 0
                    &&& w.end.nanos == (w.start.nanos + len) as i128
                    &&& exists|m: int, stop: Float|
                        {
                            &&& start <= m < path.len()
                            &&& path[m].candle.time == w.start
                            &&& open_through(resolved, path, episodes, start, start, m)
                            &&& #[trigger] held_on(resolved, path, episodes, start, m, stop)
                            &&& stop_touched(resolved.direction, path[m].candle, stop)
                            &&& target_touched(
                                resolved.direction,
                                path[m].candle,
                                resolved.take_profit,
                            )
                        }
                },
                None => fill is None || len <= 0 || forall|m: int, stop: Float|
                    {
                        &&& start <= m < path.len()
                        &&& open_through(resolved, path, episodes, start, start, m)
                        &&& #[trigger] held_on(resolved, path, episodes, start, m, stop)
                        &&& stop_touched(resolved.direction, path[m].candle, stop)
                    } ==> !target_touched(resolved.direction, path[m].candle, resolved.take_profit),
            }
        }),
{
    if let Some(fill) = fill_of(resolved, order, path) {
        let start = fill.start as int;
        let episodes = episodes_of(resolved, order, pip_size, path, order.widen_trigger_pips);
        let len = least_gap(open_times(path), start);
        let (dir, target) = (resolved.direction, resolved.take_profit);
        a_search_ends_on_the_first_touch(resolved, path, episodes, start, start);
        match exit_from(resolved, path, episodes, start, false) {
            ExitSearch::Both { at, stop } => {
                let m = choose|m: int|
                    {
                        &&& start <= m < path.len()
                        &&& (#[trigger] path[m]).candle.time == at
                        &&& open_through(resolved, path, episodes, start, start, m)
                        &&& held_on(resolved, path, episodes, start, m, stop)
                        &&& stop_touched(dir, path[m].candle, stop)
                        &&& target_touched(dir, path[m].candle, target)
                    };
                assert(held_on(resolved, path, episodes, start, m, stop));
            },
            other => {
                assert forall|m: int, stop: Float|
                    {
                        &&& start <= m < path.len()
                        &&& open_through(resolved, path, episodes, start, start, m)
                        &&& #[trigger] held_on(resolved, path, episodes, start, m, stop)
                        &&& stop_touched(dir, path[m].candle, stop)
                    } implies !target_touched(dir, path[m].candle, target) by {
                    if target_touched(dir, path[m].candle, target) {
                        an_ended_search_ends_once(
                            resolved,
                            path,
                            episodes,
                            start,
                            start,
                            m,
                            stop,
                        );
                    }
                }
            },
        }
    }
}

/// A bar that reaches both, before which nothing is reached, ends the search there.
proof fn an_ended_search_ends_once(
    resolved: Resolved,
    path: Seq<PathBar>,
    episodes: Seq<SpreadWiden>,
    start: int,
    i: int,
    m: int,
    stop: Float,
)
    requires
        0 <= start <= i <= m < path.len(),
        open_through(resolved, path, episodes, start, i, m),
        held_on(resolved, path, episodes, start, m, stop),
        stop_touched(resolved.direction, path[m].candle, stop),
        target_touched(resolved.direction, path[m].candle, resolved.take_profit),
    ensures
        exit_from(
            resolved,
            path,
            episodes,
            i,
            armed_by(resolved, path, episodes, start, i),
        ) is Both,
    decreases m - i,
{
    let c = path[i].candle;
    let armed = armed_by(resolved, path, episodes, start, i);
    let tested = stop_on_bar(episodes, c.time, managed_stop(resolved, armed));
    the_tested_stop_is_the_held_one(resolved, path, episodes, start, i);
    exits_are_on_the_closing_book(resolved, c, tested);
    assert(held_on(resolved, path, episodes, start, i, tested));
    if i < m {
        assert(!target_touched(resolved.direction, path[i].candle, resolved.take_profit));
        an_ended_search_ends_once(resolved, path, episodes, start, i + 1, m, stop);
    }
}

/// The journal names the first bar whose close arms break-even while the position is on, and names
/// none only where there is no such bar.
proof fn arming_is_the_first_arming_close(
    resolved: Resolved,
    path: Seq<PathBar>,
    episodes: Seq<SpreadWiden>,
    start: int,
    i: int,
)
    requires
        0 <= start <= i,
        !armed_by(resolved, path, episodes, start, i),
    ensures
        match armed_from(resolved, path, episodes, i) {
            Some(t) => resolved.breakeven is Some && exists|m: int|
                {
                    &&& i <= m < path.len()
                    &&& (#[trigger] path[m]).candle.time == t
                    &&& armed_on(path[m], episodes)
                    &&& open_through(resolved, path, episodes, start, i, m + 1)
                    &&& forall|a: int| i <= a < m ==> !armed_on(#[trigger] path[a], episodes)
                },
            None => resolved.breakeven is None || forall|m: int|
                i <= m < path.len() && armed_on(#[trigger] path[m], episodes) ==> !open_through(
                    resolved,
                    path,
                    episodes,
                    start,
                    i,
                    m + 1,
                ),
        },
    decreases path.len() - i,
{
    if i < path.len() {
        let c = path[i].candle;
        let stop = stop_on_bar(episodes, c.time, resolved.stop_loss);
        the_tested_stop_is_the_held_one(resolved, path, episodes, start, i);
        exits_are_on_the_closing_book(resolved, c, stop);
        covering_is_governing(episodes, c.time);
        assert(held_on(resolved, path, episodes, start, i, stop));
        if hits_stop(resolved, c, stop) || hits_target(resolved, c) {
            assert forall|m: int|
                i <= m < path.len() && armed_on(#[trigger] path[m], episodes) implies !open_through(
                resolved,
                path,
                episodes,
                start,
                i,
                m + 1,
            ) by {
                if hits_target(resolved, c) {
                    assert(target_touched(
                        resolved.direction,
                        path[i].candle,
                        resolved.take_profit,
                    ));
                }
            }
        } else if arms_exit(resolved, path[i], episodes) {
            assert(armed_on(path[i], episodes));
            assert(open_through(resolved, path, episodes, start, i, i + 1));
        } else {
            assert(!armed_by(resolved, path, episodes, start, i + 1));
            arming_is_the_first_arming_close(resolved, path, episodes, start, i + 1);
            assert forall|m: int|
                i + 1 <= m && #[trigger] open_through(
                    resolved,
                    path,
                    episodes,
                    start,
                    i + 1,
                    m,
                ) implies open_through(resolved, path, episodes, start, i, m) by {
                assert forall|j: int, s: Float|
                    i <= j < m && #[trigger] held_on(
                        resolved,
                        path,
                        episodes,
                        start,
                        j,
                        s,
                    ) implies !stop_touched(resolved.direction, path[j].candle, s) by {
                    if j == i {
                        assert(s == stop);
                    }
                }
            }
            assert forall|m: int|
                i + 1 <= m && #[trigger] open_through(
                    resolved,
                    path,
                    episodes,
                    start,
                    i,
                    m,
                ) implies open_through(resolved, path, episodes, start, i + 1, m) by {}
            if armed_from(resolved, path, episodes, i + 1) is None && resolved.breakeven is Some {
                assert forall|m: int|
                    i <= m < path.len() && armed_on(#[trigger] path[m], episodes) implies !open_through(
                    resolved,
                    path,
                    episodes,
                    start,
                    i,
                    m + 1,
                ) by {
                    if m > i && open_through(resolved, path, episodes, start, i, m + 1) {
                        assert(open_through(resolved, path, episodes, start, i + 1, m + 1));
                    }
                }
            }
        }
    }
}

/// The journal names the first bar whose close arms break-even while the position is on: past the
/// level, outside the noise and outside every widen. It names none only where the enter carries no
/// rule, never fills, or no such bar comes before the exit.
pub proof fn the_journal_names_the_first_arming_close(
    resolved: Resolved,
    order: Order,
    pip_size: Float,
    path: Seq<PathBar>,
)
    ensures
        ({
            let fill = fill_of(resolved, order, path);
            let start = fill->0.start as int;
            let episodes = episodes_of(resolved, order, pip_size, path, order.widen_trigger_pips);
            match crate::fill_sim::arming_bar(resolved, order, pip_size, path) {
                Some(t) => {
                    &&& order.breakeven && resolved.breakeven is Some && fill is Some
                    &&& exists|m: int|
                        {
                            &&& start <= m < path.len()
                            &&& (#[trigger] path[m]).candle.time == t
                            &&& armed_on(path[m], episodes)
                            &&& open_through(resolved, path, episodes, start, start, m + 1)
                            &&& forall|a: int|
                                start <= a < m ==> !armed_on(#[trigger] path[a], episodes)
                        }
                },
                None => !order.breakeven || resolved.breakeven is None || fill is None || forall|
                    m: int,
                |
                    start <= m < path.len() && armed_on(#[trigger] path[m], episodes)
                        ==> !open_through(resolved, path, episodes, start, start, m + 1),
            }
        }),
{
    if let Some(fill) = fill_of(resolved, order, path) {
        let episodes = episodes_of(resolved, order, pip_size, path, order.widen_trigger_pips);
        arming_is_the_first_arming_close(
            resolved,
            path,
            episodes,
            fill.start as int,
            fill.start as int,
        );
    }
}

/// A source that holds candles serves those that open in the window, the end left out, each once
/// and in their order.
pub proof fn a_window_is_served_from_the_candles_in_it(
    bars: Seq<BidAskCandle>,
    start: Instant,
    end: Instant,
)
    ensures
        opening_in(bars, start, end) == bars.filter(
            |c: BidAskCandle| start.nanos <= c.time.nanos && c.time.nanos < end.nanos,
        ),
    decreases bars.len(),
{
    reveal(Seq::filter);
    if bars.len() > 0 {
        a_window_is_served_from_the_candles_in_it(bars.drop_last(), start, end);
    }
}

/// The length of a path's bars in whole seconds is the least gap between neighbours' whole seconds
/// that is more than none, or zero where there is none.
pub proof fn bar_seconds_are_the_least_gap(path: Seq<PathBar>)
    ensures
        ({
            let len = least_gap(crate::fill_sim::open_seconds(path), 0);
            let at = |j: int| path[j].candle.time.nanos as int / 1_000_000_000;
            &&& len >= 0
            &&& forall|j: int|
                0 <= j && j + 1 < path.len() && #[trigger] at(j + 1) > at(j) ==> 0 < len <= at(j + 1)
                    - at(j)
            &&& len > 0 ==> exists|j: int|
                0 <= j && j + 1 < path.len() && #[trigger] at(j + 1) - at(j) == len
        }),
{
    let times = crate::fill_sim::open_seconds(path);
    let len = least_gap(times, 0);
    let at = |j: int| path[j].candle.time.nanos as int / 1_000_000_000;
    crate::fill_laws::the_bar_length_is_the_least_positive_gap(times, 0);
    assert forall|j: int|
        0 <= j && j + 1 < path.len() && #[trigger] at(j + 1) > at(j) implies 0 < len <= at(j + 1)
        - at(j) by {
        assert(times[j + 1] - times[j] > 0);
    }
    if len > 0 {
        let j = choose|j: int|
            0 <= j && j + 1 < times.len() && #[trigger] times[j + 1] - times[j] == len;
        assert(at(j + 1) - at(j) == len);
    }
}

} // verus!
