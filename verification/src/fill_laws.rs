//! What holds of the fill simulator as a whole.
use vstd::prelude::*;
use crate::binary64::{difference, quotient, Float};
use crate::exit_laws::{
    arming_is_by_an_earlier_bar, calls_for_widen, exits_are_on_the_closing_book, governs,
    held_at_open, lasts_into, normal_again, restored_first, some_governs, some_lasts_into,
    started_on, stop_touched, target_touched, the_first_widen_sets_the_stop, traded_past, unclosed,
};
use crate::fill_sim::{
    armed_from, arms, arms_exit, covered, covers, effective_bracket, episode_at, episodes_from,
    episodes_of, exit_from, fill_of, first_veto, floor_of, floor_spread, front_door, hits_stop,
    hits_target, least_gap, live_bars, managed_stop, opening_in, opens_widen, outcome_with,
    pending_fill, restored_from, restores, still_widened, stop_on_bar, sweep_from, sweeps,
    takes_entry, usable_pip, zoom_request, BracketReject, EntryFloor, EntryLevelVeto, Order,
    PathBar, Resolved, SimOutcome, SlWiden, SpreadWiden, SweepReason, ZoomWindow,
};
use crate::market::{breached, BidAskCandle, Direction};
use crate::time::Instant;

verus! {

/// The first bar that fills is the one before which none fills and none breaches.
proof fn pending_fill_is_first(resolved: Resolved, path: Seq<PathBar>, end: int, i: int)
    ensures
        match pending_fill(resolved, path, end, i) {
            Some(f) => {
                &&& i <= f < end
                &&& takes_entry(resolved, path[f])
                &&& forall|j: int|
                    i <= j < f ==> !takes_entry(resolved, #[trigger] path[j]) && !breached(
                        path[j].candle,
                        resolved.direction,
                        resolved.stop_loss,
                    )
            },
            None => forall|f: int|
                i <= f < end && takes_entry(resolved, #[trigger] path[f]) ==> exists|j: int|
                    i <= j < f && breached(
                        (#[trigger] path[j]).candle,
                        resolved.direction,
                        resolved.stop_loss,
                    ),
        },
    decreases end - i,
{
    if i < end && !takes_entry(resolved, path[i]) {
        if breached(path[i].candle, resolved.direction, resolved.stop_loss) {
            assert forall|f: int| i <= f < end && takes_entry(resolved, #[trigger] path[f]) implies exists|
                j: int,
            |
                i <= j < f && breached(
                    (#[trigger] path[j]).candle,
                    resolved.direction,
                    resolved.stop_loss,
                ) by {
                assert(breached(path[i].candle, resolved.direction, resolved.stop_loss));
            }
        } else {
            pending_fill_is_first(resolved, path, end, i + 1);
            if pending_fill(resolved, path, end, i + 1) is None {
                assert forall|f: int| i <= f < end && takes_entry(resolved, #[trigger] path[f]) implies exists|
                    j: int,
                |
                    i <= j < f && breached(
                        (#[trigger] path[j]).candle,
                        resolved.direction,
                        resolved.stop_loss,
                    ) by {
                    let j = choose|j: int|
                        i + 1 <= j < f && breached(
                            (#[trigger] path[j]).candle,
                            resolved.direction,
                            resolved.stop_loss,
                        );
                    assert(breached(path[j].candle, resolved.direction, resolved.stop_loss));
                }
            }
        }
    }
}

/// A resting order fills on the first bar after the fire bar, within its life, that reaches its
/// trigger outside a spread hour, and only if no bar before that one traded past its stop. It
/// never fills on the fire bar.
pub proof fn a_resting_order_fills_on_the_first_touch_after_the_fire_bar(
    resolved: Resolved,
    order: Order,
    path: Seq<PathBar>,
)
    requires
        !(resolved.entry is Market),
        path.len() <= usize::MAX,
    ensures
        match fill_of(resolved, order, path) {
            Some(fill) => {
                &&& 1 <= fill.start < live_bars(order, path.len() as int)
                &&& takes_entry(resolved, path[fill.start as int])
                &&& fill.fill_at == path[fill.start as int].candle.time
                &&& fill.entry_price == resolved.entry.price()
                &&& forall|j: int|
                    1 <= j < fill.start ==> !takes_entry(resolved, #[trigger] path[j]) && !breached(
                        path[j].candle,
                        resolved.direction,
                        resolved.stop_loss,
                    )
            },
            None => forall|f: int|
                1 <= f < live_bars(order, path.len() as int) && takes_entry(
                    resolved,
                    #[trigger] path[f],
                ) ==> exists|j: int|
                    1 <= j < f && breached(
                        (#[trigger] path[j]).candle,
                        resolved.direction,
                        resolved.stop_loss,
                    ),
        },
{
    pending_fill_is_first(resolved, path, live_bars(order, path.len() as int), 1);
}

/// A resting order that the sweep cancels for a breached stop does not fill on a later bar.
pub proof fn a_swept_order_does_not_fill_later(
    resolved: Resolved,
    order: Order,
    path: Seq<PathBar>,
    j: int,
)
    requires
        !(resolved.entry is Market),
        path.len() <= usize::MAX,
        1 <= j < path.len(),
        breached(path[j].candle, resolved.direction, resolved.stop_loss),
    ensures
        match fill_of(resolved, order, path) {
            Some(fill) => fill.start <= j,
            None => true,
        },
{
    pending_fill_is_first(resolved, path, live_bars(order, path.len() as int), 1);
}

/// The sweep names the first bar that trips any of its reasons, and that bar's first reason.
pub proof fn the_first_tripping_bar_is_swept(
    resolved: Resolved,
    order: Order,
    path: Seq<PathBar>,
    i: int,
)
    requires
        0 <= i,
    ensures
        match sweep_from(resolved, order, path, i) {
            Some((reason, at)) => exists|k: int|
                {
                    &&& i <= k < path.len()
                    &&& #[trigger] sweeps(resolved, order, path[k]) == Some(reason)
                    &&& at == path[k].candle.time
                    &&& forall|j: int|
                        i <= j < k ==> #[trigger] sweeps(resolved, order, path[j]) is None
                },
            None => forall|j: int|
                i <= j < path.len() ==> #[trigger] sweeps(resolved, order, path[j]) is None,
        },
    decreases path.len() - i,
{
    if i < path.len() {
        match sweeps(resolved, order, path[i]) {
            Some(reason) => {
                assert(sweeps(resolved, order, path[i]) == Some(reason));
            },
            None => {
                the_first_tripping_bar_is_swept(resolved, order, path, i + 1);
                if let Some((reason, at)) = sweep_from(resolved, order, path, i + 1) {
                    let k = choose|k: int|
                        {
                            &&& i + 1 <= k < path.len()
                            &&& #[trigger] sweeps(resolved, order, path[k]) == Some(reason)
                            &&& at == path[k].candle.time
                            &&& forall|j: int|
                                i + 1 <= j < k ==> #[trigger] sweeps(resolved, order, path[j]) is None
                        };
                    assert(sweeps(resolved, order, path[k]) == Some(reason));
                }
            },
        }
    }
}

/// The bar length is a gap between two consecutive bars, and no positive gap is smaller; it is
/// zero exactly where there is no positive gap.
pub proof fn the_bar_length_is_the_least_positive_gap(times: Seq<int>, i: int)
    requires
        0 <= i,
    ensures
        least_gap(times, i) >= 0,
        forall|j: int|
            i <= j && j + 1 < times.len() && #[trigger] times[j + 1] - times[j] > 0
                ==> 0 < least_gap(times, i) <= times[j + 1] - times[j],
        least_gap(times, i) > 0 ==> exists|j: int|
            i <= j && j + 1 < times.len() && #[trigger] times[j + 1] - times[j] == least_gap(times, i),
    decreases times.len() - i,
{
    if i + 1 < times.len() {
        the_bar_length_is_the_least_positive_gap(times, i + 1);
        if least_gap(times, i) > 0 {
            if least_gap(times, i) == times[i + 1] - times[i] {
                assert(i <= i && times[i + 1] - times[i] == least_gap(times, i));
            } else {
                let j = choose|j: int|
                    i + 1 <= j && j + 1 < times.len() && #[trigger] times[j + 1] - times[j]
                        == least_gap(times, i + 1);
                assert(times[j + 1] - times[j] == least_gap(times, i));
            }
        }
    }
}

/// Two sources of finer candles that agree on the one window that the search asks for give the
/// same outcome. What a source serves does not change what is asked of it, so fetching only that
/// window scores as fetching everything does.
pub proof fn the_outcome_depends_on_the_requested_window_alone(
    resolved: Resolved,
    order: Order,
    pip_size: Float,
    path: Seq<PathBar>,
    one: spec_fn(ZoomWindow) -> Seq<BidAskCandle>,
    other: spec_fn(ZoomWindow) -> Seq<BidAskCandle>,
)
    requires
        zoom_request(resolved, order, pip_size, path) matches Some(w) ==> one(w) == other(w),
    ensures
        outcome_with(resolved, order, pip_size, path, one) == outcome_with(
            resolved,
            order,
            pip_size,
            path,
            other,
        ),
{
}

/// Finer candles change an outcome only from a stop-out to a take-profit on the same bar, and only
/// where the search asked for them. A source that serves none leaves the stop.
pub proof fn finer_candles_only_turn_a_stop_into_a_profit(
    resolved: Resolved,
    order: Order,
    pip_size: Float,
    path: Seq<PathBar>,
    finer: spec_fn(ZoomWindow) -> Seq<BidAskCandle>,
)
    ensures
        ({
            let with = outcome_with(resolved, order, pip_size, path, finer);
            let without = outcome_with(
                resolved,
                order,
                pip_size,
                path,
                |w: ZoomWindow| Seq::empty(),
            );
            with == without || {
                &&& zoom_request(resolved, order, pip_size, path) is Some
                &&& without matches SimOutcome::StoppedOut { fill_at, entry_price, exit_at, .. }
                    && with == SimOutcome::TookProfit {
                    fill_at,
                    entry_price,
                    exit_at,
                    exit_price: resolved.take_profit,
                }
            }
        }),
{
}

/// A source whose window comes back empty leaves the pessimistic stop.
pub proof fn an_uncovered_window_is_a_stop(
    resolved: Resolved,
    order: Order,
    pip_size: Float,
    path: Seq<PathBar>,
    finer: spec_fn(ZoomWindow) -> Seq<BidAskCandle>,
)
    requires
        zoom_request(resolved, order, pip_size, path) matches Some(w) && finer(w).len() == 0,
    ensures
        outcome_with(resolved, order, pip_size, path, finer) is StoppedOut,
{
}

/// Each episode but the last is restored, at or before the bar that starts the next one.
pub open spec fn in_turn(episodes: Seq<SpreadWiden>) -> bool {
    forall|k: int, next: int|
        0 <= k && next == k + 1 && next < episodes.len() ==> ((
        #[trigger] episodes[k]).restored_at matches Some(r) && r.nanos <= (
        #[trigger] episodes[next]).effective_from.nanos)
}

proof fn scanned_in_turn(
    resolved: Resolved,
    path: Seq<PathBar>,
    pip_size: Float,
    trigger: Float,
    i: int,
    armed: bool,
    found: Seq<SpreadWiden>,
)
    requires
        in_turn(found),
    ensures
        in_turn(episodes_from(resolved, path, pip_size, trigger, i, armed, found)),
    decreases path.len() - i,
{
    if i < path.len() {
        let c = path[i].candle;
        let in_force = stop_on_bar(found, c.time, managed_stop(resolved, armed));
        if hits_stop(resolved, c, in_force) || hits_target(resolved, c) {
        } else if still_widened(found, c.time) {
            scanned_in_turn(resolved, path, pip_size, trigger, i + 1, armed, found);
        } else if opens_widen(path[i], pip_size, trigger) {
            let more = found.push(episode_at(resolved, path, pip_size, i, armed));
            assert forall|k: int, next: int|
                0 <= k && next == k + 1 && next < more.len() implies ((
            #[trigger] more[k]).restored_at matches Some(r) && r.nanos <= (
            #[trigger] more[next]).effective_from.nanos) by {
                if next < found.len() {
                    assert(more[k] == found[k] && more[next] == found[next]);
                } else {
                    assert(found.last() == more[k]);
                }
            }
            scanned_in_turn(resolved, path, pip_size, trigger, i + 1, armed, more);
        } else {
            scanned_in_turn(
                resolved,
                path,
                pip_size,
                trigger,
                i + 1,
                armed || arms(resolved, path[i]),
                found,
            );
        }
    }
}

/// A stop is widened again only once the last widen is restored: the episodes follow one another
/// and do not overlap.
pub proof fn episodes_do_not_overlap(
    resolved: Resolved,
    order: Order,
    pip_size: Float,
    path: Seq<PathBar>,
    trigger: Float,
)
    ensures
        in_turn(episodes_of(resolved, order, pip_size, path, trigger)),
{
    if let Some(fill) = fill_of(resolved, order, path) {
        scanned_in_turn(
            resolved,
            path,
            pip_size,
            trigger,
            fill.start as int,
            false,
            Seq::empty(),
        );
    }
}

/// The open-times of the path ascend.
pub open spec fn ascending(path: Seq<PathBar>) -> bool {
    forall|i: int, j: int|
        0 <= i < j < path.len() ==> (#[trigger] path[i]).candle.time.nanos < (
        #[trigger] path[j]).candle.time.nanos
}

/// Whether the exit search has break-even armed when it comes to bar `i`.
pub open spec fn armed_by(
    resolved: Resolved,
    path: Seq<PathBar>,
    episodes: Seq<SpreadWiden>,
    start: int,
    i: int,
) -> bool
    decreases i - start,
{
    if i <= start {
        false
    } else {
        armed_by(resolved, path, episodes, start, i - 1) || arms_exit(
            resolved,
            path[i - 1],
            episodes,
        )
    }
}

/// The episodes found before bar `i`: none starts at or after it, and they follow one another.
#[verifier::opaque]
spec fn found_before(path: Seq<PathBar>, found: Seq<SpreadWiden>, i: int) -> bool {
    &&& in_turn(found)
    &&& forall|k: int|
        0 <= k < found.len() ==> (#[trigger] found[k]).effective_from.nanos
            < path[i].candle.time.nanos
    &&& forall|k: int, j: int|
        0 <= k < j < found.len() ==> (#[trigger] found[k]).effective_from.nanos <= (
        #[trigger] found[j]).effective_from.nanos
}

/// Before bar `i`, exactly an unrestored last episode covers it.
proof fn covering_is_being_widened(path: Seq<PathBar>, found: Seq<SpreadWiden>, i: int)
    requires
        found_before(path, found, i),
    ensures
        covered(found, path[i].candle.time) == still_widened(found, path[i].candle.time),
{
    reveal(found_before);
    let t = path[i].candle.time;
    if found.len() > 0 {
        let last = found.len() - 1;
        assert(found[last] == found.last());
        assert(found[last].effective_from.nanos < t.nanos);
        if covered(found, t) {
            let k = choose|k: int| 0 <= k < found.len() && covers(#[trigger] found[k], t);
            if k < last {
                assert(found[k].restored_at is Some);
                assert(found[k + 1].effective_from.nanos < t.nanos);
            }
        }
        if still_widened(found, t) {
            assert(covers(found[last], t));
        }
    }
}

/// The scan only adds episodes, each on a bar from `i` on.
proof fn scan_adds_later_episodes(
    resolved: Resolved,
    path: Seq<PathBar>,
    pip_size: Float,
    trigger: Float,
    i: int,
    armed: bool,
    found: Seq<SpreadWiden>,
)
    requires
        ascending(path),
        0 <= i,
    ensures
        ({
            let all = episodes_from(resolved, path, pip_size, trigger, i, armed, found);
            &&& found.is_prefix_of(all)
            &&& forall|k: int|
                found.len() <= k < all.len() ==> exists|j: int|
                    i <= j < path.len() && (#[trigger] path[j]).candle.time
                        == (#[trigger] all[k]).effective_from
        }),
    decreases path.len() - i,
{
    let all = episodes_from(resolved, path, pip_size, trigger, i, armed, found);
    if i < path.len() {
        let c = path[i].candle;
        let in_force = stop_on_bar(found, c.time, managed_stop(resolved, armed));
        if hits_stop(resolved, c, in_force) || hits_target(resolved, c) {
            assert(found =~= all);
        } else if still_widened(found, c.time) {
            scan_adds_later_episodes(resolved, path, pip_size, trigger, i + 1, armed, found);
        } else if opens_widen(path[i], pip_size, trigger) {
            let more = found.push(episode_at(resolved, path, pip_size, i, armed));
            scan_adds_later_episodes(resolved, path, pip_size, trigger, i + 1, armed, more);
            assert(found =~= all.subrange(0, found.len() as int)) by {
                assert(more =~= all.subrange(0, more.len() as int));
                assert forall|k: int| 0 <= k < found.len() implies found[k] == all[k] by {
                    assert(more[k] == all.subrange(0, more.len() as int)[k]);
                }
            }
            assert forall|k: int| found.len() <= k < all.len() implies exists|j: int|
                i <= j < path.len() && (#[trigger] path[j]).candle.time == (
                #[trigger] all[k]).effective_from by {
                if k == found.len() {
                    assert(more[k] == all.subrange(0, more.len() as int)[k]);
                    assert(path[i].candle.time == all[k].effective_from);
                } else {
                    let j = choose|j: int|
                        i + 1 <= j < path.len() && (#[trigger] path[j]).candle.time
                            == all[k].effective_from;
                    assert(path[j].candle.time == all[k].effective_from);
                }
            }
        } else {
            scan_adds_later_episodes(
                resolved,
                path,
                pip_size,
                trigger,
                i + 1,
                armed || arms(resolved, path[i]),
                found,
            );
        }
    } else {
        assert(found =~= all);
    }
}

/// A restore falls on a later bar.
proof fn restored_later(path: Seq<PathBar>, i: int, widened_at: Instant, pip_size: Float)
    requires
        0 <= i,
    ensures
        restored_from(path, i, widened_at, pip_size) matches Some(r) ==> exists|j: int|
            i <= j < path.len() && (#[trigger] path[j]).candle.time == r,
    decreases path.len() - i,
{
    if i < path.len() && !restores(path[i], widened_at, pip_size) {
        restored_later(path, i + 1, widened_at, pip_size);
        if let Some(r) = restored_from(path, i + 1, widened_at, pip_size) {
            let j = choose|j: int| i + 1 <= j < path.len() && (#[trigger] path[j]).candle.time == r;
            assert(path[j].candle.time == r);
        }
    } else if i < path.len() {
        assert(path[i].candle.time == path[i].candle.time);
    }
}

/// The episode starts at some bar, from the stop that the exit search holds there.
pub open spec fn widens_the_held_stop(
    resolved: Resolved,
    path: Seq<PathBar>,
    pip_size: Float,
    episodes: Seq<SpreadWiden>,
    start: int,
    k: int,
) -> bool {
    exists|j: int|
        start <= j < path.len() && episodes[k] == #[trigger] episode_at(
            resolved,
            path,
            pip_size,
            j,
            armed_by(resolved, path, episodes, start, j),
        )
}

/// The bar that starts an episode is covered by it.
proof fn a_starting_bar_is_covered(
    resolved: Resolved,
    path: Seq<PathBar>,
    pip_size: Float,
    i: int,
    armed: bool,
)
    requires
        ascending(path),
        0 <= i < path.len(),
    ensures
        covers(episode_at(resolved, path, pip_size, i, armed), path[i].candle.time),
{
    let t = path[i].candle.time;
    restored_later(path, i + 1, t, pip_size);
    if let Some(r) = restored_from(path, i + 1, t, pip_size) {
        let j = choose|j: int| i + 1 <= j < path.len() && (#[trigger] path[j]).candle.time == r;
        assert(path[i].candle.time.nanos < path[j].candle.time.nanos);
    }
}

proof fn covered_in_extension(found: Seq<SpreadWiden>, all: Seq<SpreadWiden>, t: Instant)
    requires
        found.is_prefix_of(all),
        covered(found, t),
    ensures
        covered(all, t),
{
    let k = choose|k: int| 0 <= k < found.len() && covers(#[trigger] found[k], t);
    assert(found[k] == all.subrange(0, found.len() as int)[k]);
    assert(covers(all[k], t));
}

/// Episodes that start on later bars do not cover bar `i`.
proof fn uncovered_in_extension(
    path: Seq<PathBar>,
    found: Seq<SpreadWiden>,
    all: Seq<SpreadWiden>,
    i: int,
)
    requires
        ascending(path),
        0 <= i < path.len(),
        found.is_prefix_of(all),
        !covered(found, path[i].candle.time),
        forall|k: int|
            found.len() <= k < all.len() ==> exists|j: int|
                i + 1 <= j < path.len() && (#[trigger] path[j]).candle.time == (
                #[trigger] all[k]).effective_from,
    ensures
        !covered(all, path[i].candle.time),
{
    let t = path[i].candle.time;
    if covered(all, t) {
        let k = choose|k: int| 0 <= k < all.len() && covers(#[trigger] all[k], t);
        if k < found.len() {
            assert(found[k] == all.subrange(0, found.len() as int)[k]);
            assert(covers(found[k], t));
        } else {
            let j = choose|j: int|
                i + 1 <= j < path.len() && (#[trigger] path[j]).candle.time
                    == all[k].effective_from;
            assert(path[i].candle.time.nanos < path[j].candle.time.nanos);
        }
        assert(false);
    }
}

/// An episode that starts on bar `i` keeps the found ones in turn.
proof fn found_before_next(path: Seq<PathBar>, found: Seq<SpreadWiden>, next: SpreadWiden, i: int)
    requires
        ascending(path),
        0 <= i,
        i + 1 < path.len(),
        found_before(path, found, i),
        !still_widened(found, path[i].candle.time),
        next.effective_from == path[i].candle.time,
    ensures
        found_before(path, found.push(next), i + 1),
{
    reveal(found_before);
    let more = found.push(next);
    assert(path[i].candle.time.nanos < path[i + 1].candle.time.nanos);
    assert forall|k: int, after: int|
        0 <= k && after == k + 1 && after < more.len() implies ((
    #[trigger] more[k]).restored_at matches Some(r) && r.nanos <= (
    #[trigger] more[after]).effective_from.nanos) by {
        if after < found.len() {
            assert(more[k] == found[k] && more[after] == found[after]);
        } else {
            assert(found.last() == more[k]);
        }
    }
}

/// What bar `i` of the scan makes of break-even: covered by an episode where a widen lasts or
/// starts, and by none otherwise.
proof fn scan_step(
    resolved: Resolved,
    path: Seq<PathBar>,
    pip_size: Float,
    trigger: Float,
    i: int,
    armed: bool,
    found: Seq<SpreadWiden>,
    all: Seq<SpreadWiden>,
)
    requires
        ascending(path),
        0 <= i < path.len(),
        all == episodes_from(resolved, path, pip_size, trigger, i, armed, found),
        found_before(path, found, i),
        !scan_ends(resolved, path, i, armed, found),
    ensures
        ({
            let t = path[i].candle.time;
            let next = episode_at(resolved, path, pip_size, i, armed);
            if still_widened(found, t) {
                &&& covered(all, t)
                &&& all == episodes_from(resolved, path, pip_size, trigger, i + 1, armed, found)
                &&& i + 1 < path.len() ==> found_before(path, found, i + 1)
            } else if opens_widen(path[i], pip_size, trigger) {
                &&& covered(all, t)
                &&& found.len() < all.len()
                &&& all[found.len() as int] == next
                &&& all == episodes_from(
                    resolved,
                    path,
                    pip_size,
                    trigger,
                    i + 1,
                    armed,
                    found.push(next),
                )
                &&& i + 1 < path.len() ==> found_before(path, found.push(next), i + 1)
            } else {
                &&& !covered(all, t)
                &&& all == episodes_from(
                    resolved,
                    path,
                    pip_size,
                    trigger,
                    i + 1,
                    armed || arms(resolved, path[i]),
                    found,
                )
                &&& i + 1 < path.len() ==> found_before(path, found, i + 1)
            }
        }),
{
    reveal(found_before);
    let t = path[i].candle.time;
    let next = episode_at(resolved, path, pip_size, i, armed);
    covering_is_being_widened(path, found, i);
    if i + 1 < path.len() {
        assert(path[i].candle.time.nanos < path[i + 1].candle.time.nanos);
    }
    if still_widened(found, t) {
        scan_adds_later_episodes(resolved, path, pip_size, trigger, i + 1, armed, found);
        covered_in_extension(found, all, t);
    } else if opens_widen(path[i], pip_size, trigger) {
        let more = found.push(next);
        scan_adds_later_episodes(resolved, path, pip_size, trigger, i + 1, armed, more);
        assert(more[found.len() as int] == all.subrange(0, more.len() as int)[found.len() as int]);
        a_starting_bar_is_covered(resolved, path, pip_size, i, armed);
        assert(covers(all[found.len() as int], t));
        if i + 1 < path.len() {
            found_before_next(path, found, next, i);
        }
    } else {
        let later = armed || arms(resolved, path[i]);
        scan_adds_later_episodes(resolved, path, pip_size, trigger, i + 1, later, found);
        uncovered_in_extension(path, found, all, i);
    }
}

/// The scan ends at bar `i`.
spec fn scan_ends(
    resolved: Resolved,
    path: Seq<PathBar>,
    i: int,
    armed: bool,
    found: Seq<SpreadWiden>,
) -> bool {
    let c = path[i].candle;
    hits_stop(resolved, c, stop_on_bar(found, c.time, managed_stop(resolved, armed)))
        || hits_target(resolved, c)
}

/// [`widens_the_held_stop`], kept folded.
#[verifier::opaque]
spec fn held_stop_widened(
    resolved: Resolved,
    path: Seq<PathBar>,
    pip_size: Float,
    episodes: Seq<SpreadWiden>,
    start: int,
    k: int,
) -> bool {
    widens_the_held_stop(resolved, path, pip_size, episodes, start, k)
}

proof fn widened_where_it_starts(
    resolved: Resolved,
    path: Seq<PathBar>,
    pip_size: Float,
    episodes: Seq<SpreadWiden>,
    start: int,
    k: int,
    j: int,
)
    requires
        start <= j < path.len(),
        episodes[k] == episode_at(
            resolved,
            path,
            pip_size,
            j,
            armed_by(resolved, path, episodes, start, j),
        ),
    ensures
        held_stop_widened(resolved, path, pip_size, episodes, start, k),
{
    reveal(held_stop_widened);
}

proof fn scan_agrees_with_exit_search(
    resolved: Resolved,
    path: Seq<PathBar>,
    pip_size: Float,
    trigger: Float,
    start: int,
    i: int,
    armed: bool,
    found: Seq<SpreadWiden>,
    all: Seq<SpreadWiden>,
)
    requires
        ascending(path),
        0 <= start <= i,
        all == episodes_from(resolved, path, pip_size, trigger, i, armed, found),
        i < path.len() ==> found_before(path, found, i),
        armed == armed_by(resolved, path, all, start, i),
        forall|k: int|
            0 <= k < found.len() ==> #[trigger] held_stop_widened(
                resolved,
                path,
                pip_size,
                all,
                start,
                k,
            ),
    ensures
        forall|k: int|
            0 <= k < all.len() ==> #[trigger] held_stop_widened(
                resolved,
                path,
                pip_size,
                all,
                start,
                k,
            ),
    decreases path.len() - i,
{
    if i < path.len() && !scan_ends(resolved, path, i, armed, found) {
        let bar = path[i];
        let t = bar.candle.time;
        scan_step(resolved, path, pip_size, trigger, i, armed, found, all);
        let (later, more) = if still_widened(found, t) {
            (armed, found)
        } else if opens_widen(bar, pip_size, trigger) {
            let next = episode_at(resolved, path, pip_size, i, armed);
            widened_where_it_starts(
                resolved,
                path,
                pip_size,
                all,
                start,
                found.len() as int,
                i,
            );
            (armed, found.push(next))
        } else {
            (armed || arms(resolved, bar), found)
        };
        assert(later == armed_by(resolved, path, all, start, i + 1));
        scan_agrees_with_exit_search(
            resolved,
            path,
            pip_size,
            trigger,
            start,
            i + 1,
            later,
            more,
            all,
        );
    }
}

/// The scan for episodes and the exit search agree on break-even. Each episode is widened from,
/// and restored to, the stop that the exit search holds on the bar that starts it: the placed one,
/// or the break-even one where an earlier bar outside every episode has armed it.
pub proof fn an_episode_widens_the_stop_that_the_exit_search_holds(
    resolved: Resolved,
    order: Order,
    pip_size: Float,
    path: Seq<PathBar>,
    trigger: Float,
)
    requires
        ascending(path),
        fill_of(resolved, order, path) is Some,
    ensures
        ({
            let start = fill_of(resolved, order, path)->0.start as int;
            let episodes = episodes_of(resolved, order, pip_size, path, trigger);
            forall|k: int|
                0 <= k < episodes.len() ==> #[trigger] widens_the_held_stop(
                    resolved,
                    path,
                    pip_size,
                    episodes,
                    start,
                    k,
                )
        }),
{
    reveal(found_before);
    let start = fill_of(resolved, order, path)->0.start as int;
    if usable_pip(pip_size) {
        scan_agrees_with_exit_search(
            resolved,
            path,
            pip_size,
            trigger,
            start,
            start,
            false,
            Seq::empty(),
            episodes_of(resolved, order, pip_size, path, trigger),
        );
        let episodes = episodes_of(resolved, order, pip_size, path, trigger);
        assert forall|k: int| 0 <= k < episodes.len() implies #[trigger] widens_the_held_stop(
            resolved,
            path,
            pip_size,
            episodes,
            start,
            k,
        ) by {
            assert(held_stop_widened(resolved, path, pip_size, episodes, start, k));
            reveal(held_stop_widened);
        }
    }
}

/// The restore is on the first later bar that restores.
proof fn a_restore_is_the_first(path: Seq<PathBar>, j: int, i: int, pip_size: Float)
    requires
        0 <= j < i,
        forall|x: int|
            j < x < i && x < path.len() ==> !normal_again(
                #[trigger] path[x],
                path[j].candle.time,
                pip_size,
            ),
    ensures
        restored_first(
            path,
            j,
            pip_size,
            restored_from(path, i, path[j].candle.time, pip_size),
        ),
    decreases path.len() - i,
{
    let t = path[j].candle.time;
    if i < path.len() {
        assert(restores(path[i], t, pip_size) == normal_again(path[i], t, pip_size));
        if restores(path[i], t, pip_size) {
            assert(path[i].candle.time == path[i].candle.time);
        } else {
            a_restore_is_the_first(path, j, i + 1, pip_size);
        }
    }
}

/// The stop that the scan tests on bar `i` is the one held when the bar opens.
proof fn the_scan_tests_the_stop_at_open(
    resolved: Resolved,
    path: Seq<PathBar>,
    start: int,
    i: int,
    found: Seq<SpreadWiden>,
    all: Seq<SpreadWiden>,
)
    requires
        ascending(path),
        0 <= start <= i < path.len(),
        found_before(path, found, i),
        found.is_prefix_of(all),
        forall|k: int|
            found.len() <= k < all.len() ==> exists|j: int|
                i <= j < path.len() && (#[trigger] path[j]).candle.time == (
                #[trigger] all[k]).effective_from,
    ensures
        forall|stop: Float|
            #[trigger] held_at_open(resolved, path, all, start, i, stop) == (stop == stop_on_bar(
                found,
                path[i].candle.time,
                managed_stop(resolved, armed_by(resolved, path, all, start, i)),
            )),
        some_lasts_into(all, path[i].candle.time) == still_widened(found, path[i].candle.time),
{
    reveal(found_before);
    let t = path[i].candle.time;
    let base = managed_stop(resolved, armed_by(resolved, path, all, start, i));
    let tested = stop_on_bar(found, t, base);
    assert forall|k: int| 0 <= k < all.len() implies lasts_into(#[trigger] all[k], t) == (k
        < found.len() && governs(found[k], t)) by {
        if k < found.len() {
            assert(found[k] == all.subrange(0, found.len() as int)[k]);
        } else {
            let j = choose|j: int|
                i <= j < path.len() && (#[trigger] path[j]).candle.time == all[k].effective_from;
            assert(i < j ==> path[i].candle.time.nanos < path[j].candle.time.nanos);
        }
    }
    the_first_widen_sets_the_stop(found, t, base);
    arming_is_by_an_earlier_bar(resolved, path, all, start, i);
    covering_is_being_widened(path, found, i);
    if some_governs(found, t) {
        let k = choose|k: int| 0 <= k < found.len() && governs(#[trigger] found[k], t);
        assert(lasts_into(all[k], t));
        assert(covers(found[k], t));
    }
    if some_lasts_into(all, t) {
        let k = choose|k: int| 0 <= k < all.len() && lasts_into(#[trigger] all[k], t);
        assert(governs(found[k], t));
        assert(covers(found[k], t));
    }
    if covered(found, t) {
        let k = choose|k: int| 0 <= k < found.len() && covers(#[trigger] found[k], t);
        assert(governs(found[k], t));
    }
    assert forall|stop: Float|
        #[trigger] held_at_open(resolved, path, all, start, i, stop) == (stop == tested) by {
        if some_governs(found, t) {
            let k = choose|k: int|
                {
                    &&& 0 <= k < found.len()
                    &&& governs(#[trigger] found[k], t)
                    &&& tested == found[k].widened_stop
                    &&& forall|l: int| 0 <= l < k ==> !governs(#[trigger] found[l], t)
                };
            assert(found[k] == all.subrange(0, found.len() as int)[k]);
            assert(lasts_into(all[k], t));
            assert forall|l: int| 0 <= l < k implies !lasts_into(#[trigger] all[l], t) by {
                assert(!governs(found[l], t));
            }
            if held_at_open(resolved, path, all, start, i, stop) {
                let m = choose|m: int|
                    {
                        &&& 0 <= m < all.len()
                        &&& lasts_into(#[trigger] all[m], t)
                        &&& stop == all[m].widened_stop
                        &&& forall|l: int| 0 <= l < m ==> !lasts_into(#[trigger] all[l], t)
                    };
                assert(m == k);
            }
        }
    }
}

/// Bar `j` starts the episode, with the position on and something to widen for.
spec fn starts_there(
    resolved: Resolved,
    path: Seq<PathBar>,
    pip_size: Float,
    trigger: Float,
    all: Seq<SpreadWiden>,
    start: int,
    k: int,
    j: int,
) -> bool {
    &&& start <= j < path.len()
    &&& all[k] == episode_at(
        resolved,
        path,
        pip_size,
        j,
        armed_by(resolved, path, all, start, j),
    )
    &&& opens_widen(path[j], pip_size, trigger)
    &&& unclosed(resolved, path, all, start, j + 1)
    &&& !some_lasts_into(all, path[j].candle.time)
}

/// Some bar starts the episode.
spec fn starts_somewhere(
    resolved: Resolved,
    path: Seq<PathBar>,
    pip_size: Float,
    trigger: Float,
    all: Seq<SpreadWiden>,
    start: int,
    k: int,
) -> bool {
    exists|j: int| #[trigger] starts_there(resolved, path, pip_size, trigger, all, start, k, j)
}

proof fn the_scan_finds_what_the_bars_call_for(
    resolved: Resolved,
    path: Seq<PathBar>,
    pip_size: Float,
    trigger: Float,
    start: int,
    i: int,
    armed: bool,
    found: Seq<SpreadWiden>,
    all: Seq<SpreadWiden>,
)
    requires
        ascending(path),
        0 <= start <= i,
        all == episodes_from(resolved, path, pip_size, trigger, i, armed, found),
        i < path.len() ==> found_before(path, found, i),
        armed == armed_by(resolved, path, all, start, i),
        unclosed(resolved, path, all, start, i),
    ensures
        forall|k: int|
            found.len() <= k < all.len() ==> #[trigger] starts_somewhere(
                resolved,
                path,
                pip_size,
                trigger,
                all,
                start,
                k,
            ),
        forall|j: int|
            i <= j < path.len() && opens_widen(#[trigger] path[j], pip_size, trigger) && unclosed(
                resolved,
                path,
                all,
                start,
                j + 1,
            ) && !some_lasts_into(all, path[j].candle.time) ==> exists|k: int|
                0 <= k < all.len() && (#[trigger] all[k]).effective_from == path[j].candle.time,
    decreases path.len() - i,
{
    if i < path.len() {
        let bar = path[i];
        let t = bar.candle.time;
        scan_adds_later_episodes(resolved, path, pip_size, trigger, i, armed, found);
        the_scan_tests_the_stop_at_open(resolved, path, start, i, found, all);
        let tested = stop_on_bar(found, t, managed_stop(resolved, armed));
        exits_are_on_the_closing_book(resolved, bar.candle, tested);
        assert(held_at_open(resolved, path, all, start, i, tested));
        if scan_ends(resolved, path, i, armed, found) {
            assert forall|j: int|
                i <= j < path.len() && opens_widen(#[trigger] path[j], pip_size, trigger) implies !unclosed(
                resolved,
                path,
                all,
                start,
                j + 1,
            ) by {
                if hits_target(resolved, bar.candle) {
                    assert(target_touched(
                        resolved.direction,
                        path[i].candle,
                        resolved.take_profit,
                    ));
                }
            }
        } else {
            scan_step(resolved, path, pip_size, trigger, i, armed, found, all);
            assert(unclosed(resolved, path, all, start, i + 1)) by {
                assert forall|x: int, s: Float|
                    start <= x < i + 1 && #[trigger] held_at_open(
                        resolved,
                        path,
                        all,
                        start,
                        x,
                        s,
                    ) implies !stop_touched(resolved.direction, path[x].candle, s) by {
                    if x == i {
                        assert(s == tested);
                    }
                }
            }
            let (later, more) = if still_widened(found, t) {
                (armed, found)
            } else if opens_widen(bar, pip_size, trigger) {
                (armed, found.push(episode_at(resolved, path, pip_size, i, armed)))
            } else {
                (armed || arms(resolved, bar), found)
            };
            assert(later == armed_by(resolved, path, all, start, i + 1));
            the_scan_finds_what_the_bars_call_for(
                resolved,
                path,
                pip_size,
                trigger,
                start,
                i + 1,
                later,
                more,
                all,
            );
            if !still_widened(found, t) && opens_widen(bar, pip_size, trigger) {
                let n = found.len() as int;
                assert(starts_there(resolved, path, pip_size, trigger, all, start, n, i));
                assert(all[n].effective_from == t);
            }
        }
    }
}

/// Some bar calls for the widen, with the position on and no other widen lasting, and the episode is
/// the one that this bar starts.
pub open spec fn called_for(
    resolved: Resolved,
    path: Seq<PathBar>,
    pip_size: Float,
    trigger: Float,
    episodes: Seq<SpreadWiden>,
    start: int,
    w: SpreadWiden,
) -> bool {
    exists|j: int|
        {
            &&& start <= j < path.len()
            &&& #[trigger] started_on(resolved, path, pip_size, episodes, start, w, j)
            &&& calls_for_widen(path[j], pip_size, trigger)
            &&& unclosed(resolved, path, episodes, start, j + 1)
            &&& !some_lasts_into(episodes, path[j].candle.time)
        }
}

proof fn a_started_episode_is_called_for(
    resolved: Resolved,
    path: Seq<PathBar>,
    pip_size: Float,
    trigger: Float,
    all: Seq<SpreadWiden>,
    start: int,
    k: int,
)
    requires
        0 <= start,
        starts_somewhere(resolved, path, pip_size, trigger, all, start, k),
    ensures
        called_for(resolved, path, pip_size, trigger, all, start, all[k]),
{
    let j = choose|j: int|
        #[trigger] starts_there(resolved, path, pip_size, trigger, all, start, k, j);
    arming_is_by_an_earlier_bar(resolved, path, all, start, j);
    a_restore_is_the_first(path, j, j + 1, pip_size);
    assert(started_on(resolved, path, pip_size, all, start, all[k], j));
}

proof fn the_episodes_are_scanned(
    resolved: Resolved,
    order: Order,
    pip_size: Float,
    path: Seq<PathBar>,
    trigger: Float,
)
    requires
        ascending(path),
        fill_of(resolved, order, path) is Some,
        usable_pip(pip_size),
    ensures
        ({
            let start = fill_of(resolved, order, path)->0.start as int;
            let all = episodes_of(resolved, order, pip_size, path, trigger);
            &&& forall|k: int|
                0 <= k < all.len() ==> #[trigger] starts_somewhere(
                    resolved,
                    path,
                    pip_size,
                    trigger,
                    all,
                    start,
                    k,
                )
            &&& forall|j: int|
                start <= j < path.len() && opens_widen(#[trigger] path[j], pip_size, trigger)
                    && unclosed(resolved, path, all, start, j + 1) && !some_lasts_into(
                    all,
                    path[j].candle.time,
                ) ==> exists|k: int|
                    0 <= k < all.len() && (#[trigger] all[k]).effective_from == path[j].candle.time
        }),
{
    let start = fill_of(resolved, order, path)->0.start as int;
    assert(start < path.len() ==> found_before(path, Seq::empty(), start)) by {
        reveal(found_before);
    }
    the_scan_finds_what_the_bars_call_for(
        resolved,
        path,
        pip_size,
        trigger,
        start,
        start,
        false,
        Seq::empty(),
        episodes_of(resolved, order, pip_size, path, trigger),
    );
}

/// Every episode is started by a bar: with the position on and no widen lasting, the bar calls for
/// one, and the episode is what the bar's own fields give. Without a usable pip there is none.
pub proof fn every_episode_is_called_for(
    resolved: Resolved,
    order: Order,
    pip_size: Float,
    path: Seq<PathBar>,
    trigger: Float,
)
    requires
        ascending(path),
        fill_of(resolved, order, path) is Some,
    ensures
        ({
            let start = fill_of(resolved, order, path)->0.start as int;
            let episodes = episodes_of(resolved, order, pip_size, path, trigger);
            &&& !(pip_size.finite() && pip_size.units() > 0) ==> episodes.len() == 0
            &&& forall|k: int|
                0 <= k < episodes.len() ==> called_for(
                    resolved,
                    path,
                    pip_size,
                    trigger,
                    episodes,
                    start,
                    #[trigger] episodes[k],
                )
        }),
{
    let start = fill_of(resolved, order, path)->0.start as int;
    let episodes = episodes_of(resolved, order, pip_size, path, trigger);
    if usable_pip(pip_size) {
        the_episodes_are_scanned(resolved, order, pip_size, path, trigger);
        assert forall|k: int| 0 <= k < episodes.len() implies called_for(
            resolved,
            path,
            pip_size,
            trigger,
            episodes,
            start,
            #[trigger] episodes[k],
        ) by {
            a_started_episode_is_called_for(
                resolved,
                path,
                pip_size,
                trigger,
                episodes,
                start,
                k,
            );
        }
    }
}

/// Every bar that calls for a widen, with the position on and no widen lasting, starts an episode.
pub proof fn every_call_for_a_widen_is_answered(
    resolved: Resolved,
    order: Order,
    pip_size: Float,
    path: Seq<PathBar>,
    trigger: Float,
    j: int,
)
    requires
        ascending(path),
        fill_of(resolved, order, path) is Some,
        pip_size.finite(),
        pip_size.units() > 0,
        fill_of(resolved, order, path)->0.start <= j < path.len(),
        calls_for_widen(path[j], pip_size, trigger),
        ({
            let start = fill_of(resolved, order, path)->0.start as int;
            let episodes = episodes_of(resolved, order, pip_size, path, trigger);
            unclosed(resolved, path, episodes, start, j + 1) && !some_lasts_into(
                episodes,
                path[j].candle.time,
            )
        }),
    ensures
        exists|k: int|
            0 <= k < episodes_of(resolved, order, pip_size, path, trigger).len() && (
            #[trigger] episodes_of(resolved, order, pip_size, path, trigger)[k]).effective_from
                == path[j].candle.time,
{
    the_episodes_are_scanned(resolved, order, pip_size, path, trigger);
    assert(opens_widen(path[j], pip_size, trigger));
}

/// An order that never fills has no episode.
pub proof fn no_position_no_episode(
    resolved: Resolved,
    order: Order,
    pip_size: Float,
    path: Seq<PathBar>,
    trigger: Float,
)
    requires
        fill_of(resolved, order, path) is None,
    ensures
        episodes_of(resolved, order, pip_size, path, trigger).len() == 0,
{
}

/// The sweep cancels a resting order on the first bar after the fire bar that is past the alert
/// window, on which the bar expiry is due, that lies in the blackout, or whose mid trades past the
/// stop; of several reasons on that bar it gives the first of these. It cancels nothing only where
/// no bar has a reason.
pub proof fn a_sweep_is_for_the_first_reason(resolved: Resolved, order: Order, path: Seq<PathBar>)
    ensures
        match sweep_from(resolved, order, path, 1) {
            Some((reason, at)) => exists|k: int|
                {
                    let late = order.not_after.nanos < path[k].candle.time.nanos;
                    let (due, shut) = (path[k].marks.expiry_due, path[k].marks.blackout);
                    let past = traded_past(
                        resolved.direction,
                        path[k].candle,
                        resolved.stop_loss,
                    );
                    &&& 1 <= k < path.len()
                    &&& (#[trigger] path[k]).candle.time == at
                    &&& reason is Expired <==> late
                    &&& reason is BarExpiry <==> due && !late
                    &&& reason is Blackout <==> shut && !due && !late
                    &&& reason is SlBreached <==> past && !shut && !due && !late
                    &&& forall|j: int|
                        1 <= j < k ==> order.not_after.nanos >= (
                        #[trigger] path[j]).candle.time.nanos && !path[j].marks.expiry_due
                            && !path[j].marks.blackout && !traded_past(
                            resolved.direction,
                            path[j].candle,
                            resolved.stop_loss,
                        )
                },
            None => forall|j: int|
                1 <= j < path.len() ==> order.not_after.nanos >= (
                #[trigger] path[j]).candle.time.nanos && !path[j].marks.expiry_due
                    && !path[j].marks.blackout && !traded_past(
                    resolved.direction,
                    path[j].candle,
                    resolved.stop_loss,
                ),
        },
{
    the_first_tripping_bar_is_swept(resolved, order, path, 1);
    assert forall|j: int| 1 <= j < path.len() && #[trigger] sweeps(
        resolved,
        order,
        path[j],
    ) is None implies order.not_after.nanos >= path[j].candle.time.nanos
        && !path[j].marks.expiry_due && !path[j].marks.blackout && !traded_past(
        resolved.direction,
        path[j].candle,
        resolved.stop_loss,
    ) by {}
    if let Some((reason, at)) = sweep_from(resolved, order, path, 1) {
        let k = choose|k: int|
            {
                &&& 1 <= k < path.len()
                &&& #[trigger] sweeps(resolved, order, path[k]) == Some(reason)
                &&& at == path[k].candle.time
                &&& forall|j: int| 1 <= j < k ==> #[trigger] sweeps(resolved, order, path[j]) is None
            };
        assert(path[k].candle.time == at);
        assert forall|j: int| 1 <= j < k implies order.not_after.nanos >= (
        #[trigger] path[j]).candle.time.nanos && !path[j].marks.expiry_due
            && !path[j].marks.blackout && !traded_past(
            resolved.direction,
            path[j].candle,
            resolved.stop_loss,
        ) by {
            assert(sweeps(resolved, order, path[j]) is None);
        }
    } else {
        assert forall|j: int| 1 <= j < path.len() implies order.not_after.nanos >= (
        #[trigger] path[j]).candle.time.nanos && !path[j].marks.expiry_due
            && !path[j].marks.blackout && !traded_past(
            resolved.direction,
            path[j].candle,
            resolved.stop_loss,
        ) by {
            assert(sweeps(resolved, order, path[j]) is None);
        }
    }
}

/// The bracket that an enter is placed with keeps every level but the stop, and the stop too unless
/// the floor moves it where there is a spread. An enter is refused for its resolver's reason, else
/// for the first veto that it is past, else where there is a spread and the floor rejects it; and
/// for nothing else.
pub proof fn a_placed_bracket_is_the_resolved_one_floored(
    resolution: Result<Resolved, String>,
    vetos: Seq<EntryLevelVeto>,
    path: Seq<PathBar>,
    supplied: Option<Float>,
    verdict: SlWiden,
)
    ensures
        ({
            let measured = supplied is Some || path.len() > 0;
            let vetoed = exists|v: int| 0 <= v < vetos.len() && (#[trigger] vetos[v]).past;
            match effective_bracket(resolution, vetos, path, supplied, verdict) {
                Err(BracketReject::Unresolved(reason)) => resolution == Err::<Resolved, String>(
                    reason,
                ),
                Err(BracketReject::LevelVeto(name)) => resolution is Ok && exists|v: int|
                    {
                        &&& 0 <= v < vetos.len()
                        &&& (#[trigger] vetos[v]).past
                        &&& vetos[v].name == name
                        &&& forall|u: int| 0 <= u < v ==> !(#[trigger] vetos[u]).past
                    },
                Err(BracketReject::FloorRejected) => resolution is Ok && !vetoed && measured
                    && verdict is Reject,
                Ok(placed) => {
                    let r = resolution->Ok_0;
                    &&& resolution is Ok
                    &&& !vetoed
                    &&& !(measured && verdict is Reject)
                    &&& placed.direction == r.direction && placed.entry == r.entry
                    &&& placed.take_profit == r.take_profit && placed.min_r == r.min_r
                    &&& placed.breakeven == r.breakeven
                    &&& match verdict {
                        SlWiden::Widened { new_stop_loss } => if measured {
                            placed.stop_loss == new_stop_loss
                        } else {
                            placed.stop_loss == r.stop_loss
                        },
                        _ => placed.stop_loss == r.stop_loss,
                    }
                },
            }
        }),
{
    the_first_veto_is_the_first_past(vetos, 0);
}

proof fn the_first_veto_is_the_first_past(vetos: Seq<EntryLevelVeto>, i: int)
    requires
        0 <= i,
    ensures
        match first_veto(vetos, i) {
            Some(name) => exists|v: int|
                {
                    &&& i <= v < vetos.len()
                    &&& (#[trigger] vetos[v]).past
                    &&& vetos[v].name == name
                    &&& forall|u: int| i <= u < v ==> !(#[trigger] vetos[u]).past
                },
            None => forall|v: int| i <= v < vetos.len() ==> !(#[trigger] vetos[v]).past,
        },
    decreases vetos.len() - i,
{
    if i < vetos.len() {
        if vetos[i].past {
            assert(vetos[i].name == vetos[i].name);
        } else {
            the_first_veto_is_the_first_past(vetos, i + 1);
        }
    }
}

/// The spread that sizes the floor is the one supplied, else the fire bar's close on the ask less
/// that on the bid. In print it is in pips, or no number without a usable pip; a floor without a
/// spread is of none.
pub proof fn a_floor_is_sized_by_the_entry_spread(
    pip_size: Float,
    path: Seq<PathBar>,
    supplied: Option<Float>,
    verdict: SlWiden,
)
    ensures
        ({
            let spread = match supplied {
                Some(s) => s,
                None => difference(path[0].candle.ask_c, path[0].candle.bid_c),
            };
            let usable = pip_size.finite() && pip_size.units() > 0;
            match floor_of(pip_size, floor_spread(path, supplied), verdict) {
                EntryFloor::Rejected => verdict is Reject && (supplied is Some || path.len() > 0),
                EntryFloor::Applied { spread_pips } => if supplied is None && path.len() == 0 {
                    spread_pips.bits == 0
                } else {
                    &&& !(verdict is Reject)
                    &&& usable ==> spread_pips == quotient(spread, pip_size)
                    &&& !usable ==> spread_pips.nan()
                },
            }
        }),
{
}

/// `other` lies no nearer to price than `stop`.
pub open spec fn no_nearer(dir: Direction, other: Float, stop: Float) -> bool {
    match dir {
        Direction::Long => other.at_most(stop),
        Direction::Short => stop.at_most(other),
    }
}

/// Where widened stops lie no nearer to price than the managed stop, a bar that reaches the stop
/// in force reaches the managed stop too: a widen only ever protects.
pub proof fn a_widen_only_protects(
    resolved: Resolved,
    c: BidAskCandle,
    episodes: Seq<SpreadWiden>,
    base: Float,
)
    requires
        forall|k: int|
            0 <= k < episodes.len() ==> no_nearer(
                resolved.direction,
                (#[trigger] episodes[k]).widened_stop,
                base,
            ),
    ensures
        hits_stop(resolved, c, stop_on_bar(episodes, c.time, base)) ==> hits_stop(
            resolved,
            c,
            base,
        ),
    decreases episodes.len(),
{
    if episodes.len() > 0 {
        assert(no_nearer(resolved.direction, episodes[0].widened_stop, base));
        let rest = episodes.drop_first();
        assert forall|k: int| 0 <= k < rest.len() implies no_nearer(
            resolved.direction,
            (#[trigger] rest[k]).widened_stop,
            base,
        ) by {
            assert(rest[k] == episodes[k + 1]);
        }
        a_widen_only_protects(resolved, c, rest, base);
    }
}

/// The journal and the scored outcome agree on break-even. Where the journal names an arming bar,
/// that bar is the first to arm, and the exit search goes on from the bar after it with break-even
/// armed. Where it names none, the exit search never holds the break-even stop: it ends as it would
/// without the rule.
pub proof fn the_named_arming_bar_is_where_the_stop_moves(
    resolved: Resolved,
    path: Seq<PathBar>,
    episodes: Seq<SpreadWiden>,
    i: int,
)
    requires
        0 <= i,
    ensures
        match armed_from(resolved, path, episodes, i) {
            Some(t) => exists|j: int|
                {
                    &&& i <= j < path.len()
                    &&& (#[trigger] path[j]).candle.time == t
                    &&& arms_exit(resolved, path[j], episodes)
                    &&& forall|l: int|
                        i <= l < j ==> !arms_exit(resolved, #[trigger] path[l], episodes)
                    &&& exit_from(resolved, path, episodes, i, false) == exit_from(
                        resolved,
                        path,
                        episodes,
                        j + 1,
                        true,
                    )
                },
            None => exit_from(resolved, path, episodes, i, false) == exit_from(
                Resolved { breakeven: None, ..resolved },
                path,
                episodes,
                i,
                false,
            ),
        },
    decreases path.len() - i,
{
    if i < path.len() {
        let c = path[i].candle;
        let stop = stop_on_bar(episodes, c.time, resolved.stop_loss);
        if hits_stop(resolved, c, stop) || hits_target(resolved, c) {
        } else if arms_exit(resolved, path[i], episodes) {
            assert(path[i].candle.time == c.time);
        } else {
            the_named_arming_bar_is_where_the_stop_moves(resolved, path, episodes, i + 1);
            if let Some(t) = armed_from(resolved, path, episodes, i + 1) {
                let j = choose|j: int|
                    {
                        &&& i + 1 <= j < path.len()
                        &&& (#[trigger] path[j]).candle.time == t
                        &&& arms_exit(resolved, path[j], episodes)
                        &&& forall|l: int|
                            i + 1 <= l < j ==> !arms_exit(resolved, #[trigger] path[l], episodes)
                        &&& exit_from(resolved, path, episodes, i + 1, false) == exit_from(
                            resolved,
                            path,
                            episodes,
                            j + 1,
                            true,
                        )
                    };
                assert(path[j].candle.time == t);
            }
        }
    }
}

/// Once armed, break-even stays armed: from any bar on, the stop without a widen is the break-even
/// stop whatever later closes do.
pub proof fn break_even_is_latched(
    resolved: Resolved,
    path: Seq<PathBar>,
    episodes: Seq<SpreadWiden>,
    start: int,
    i: int,
    j: int,
)
    requires
        i <= j,
        armed_by(resolved, path, episodes, start, i),
    ensures
        armed_by(resolved, path, episodes, start, j),
        resolved.breakeven matches Some(be) ==> managed_stop(
            resolved,
            armed_by(resolved, path, episodes, start, j),
        ) == be.target_stop,
    decreases j - i,
{
    if i < j {
        break_even_is_latched(resolved, path, episodes, start, i, j - 1);
    }
}

/// Fetching only the candles of a window is enough for it: what is fetched of a series serves the
/// window as the whole series does.
pub proof fn fetching_a_window_serves_it(bars: Seq<BidAskCandle>, start: Instant, end: Instant)
    ensures
        opening_in(opening_in(bars, start, end), start, end) == opening_in(bars, start, end),
    decreases bars.len(),
{
    if bars.len() > 0 {
        let before = bars.drop_last();
        fetching_a_window_serves_it(before, start, end);
        let t = bars.last().time;
        if start.nanos <= t.nanos < end.nanos {
            let picked = opening_in(before, start, end);
            assert(picked.push(bars.last()).drop_last() =~= picked);
        }
    }
}

/// The lazy zoom scores as the eager one: simulated with only the candles of the requested window,
/// an enter ends as it does with the whole finer series.
pub proof fn the_lazy_zoom_scores_as_the_eager_one(
    resolved: Resolved,
    order: Order,
    pip_size: Float,
    path: Seq<PathBar>,
    series: Seq<BidAskCandle>,
    window: ZoomWindow,
)
    requires
        zoom_request(resolved, order, pip_size, path) matches Some(w) ==> w == window,
    ensures
        outcome_with(
            resolved,
            order,
            pip_size,
            path,
            |w: ZoomWindow| opening_in(opening_in(series, window.start, window.end), w.start, w.end),
        ) == outcome_with(
            resolved,
            order,
            pip_size,
            path,
            |w: ZoomWindow| opening_in(series, w.start, w.end),
        ),
{
    fetching_a_window_serves_it(series, window.start, window.end);
}

/// An enter that never became an order is reported with its reason: what the resolver said, the
/// veto's name, or that the floor left too small a reward. One that did is reported as what was
/// simulated, and as nothing else.
pub proof fn an_enter_is_reported_as_what_became_of_it(
    bracket: Result<Resolved, BracketReject>,
    order: Order,
    pip_size: Float,
    path: Seq<PathBar>,
    outcome: SimOutcome,
)
    requires
        front_door(bracket, order, pip_size, path, outcome),
    ensures
        bracket is Ok <==> !(outcome is Unresolved) && !(outcome is Declined),
        outcome matches SimOutcome::Unresolved(reason) ==> bracket == Err::<
            Resolved,
            BracketReject,
        >(BracketReject::Unresolved(reason)),
        outcome matches SimOutcome::Declined { name } ==> bracket == Err::<Resolved, BracketReject>(
            BracketReject::LevelVeto(name),
        ) || (bracket matches Err(BracketReject::FloorRejected) && name@
            == "sl-widen-below-min-r"@),
        outcome is NeverFilled ==> bracket is Ok && fill_of(bracket->Ok_0, order, path) is None,
        bracket is Ok && fill_of(bracket->Ok_0, order, path) is None ==> outcome is NeverFilled,
{
}

/// A bar sweeps a resting order for the first of its reasons: past the alert window, bar expiry due,
/// blackout, mid past the stop; and not where it has none.
pub proof fn a_bar_sweeps_for_its_first_reason(resolved: Resolved, order: Order, bar: PathBar)
    ensures
        sweeps(resolved, order, bar) == if bar.candle.time.nanos > order.not_after.nanos {
            Some(SweepReason::Expired)
        } else if bar.marks.expiry_due {
            Some(SweepReason::BarExpiry)
        } else if bar.marks.blackout {
            Some(SweepReason::Blackout)
        } else if traded_past(resolved.direction, bar.candle, resolved.stop_loss) {
            Some(SweepReason::SlBreached)
        } else {
            None
        },
{
}

} // verus!
