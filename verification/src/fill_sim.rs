//! What the broker would have done with one fired enter: a candle-driven fill simulator.
//!
//! A pending order fills on the first bar after the fire bar whose entry book reaches its
//! trigger; the first bar from there on whose exit book reaches the stop or the target closes the
//! position. On the way the stop may move twice over. Break-even moves it to the entry price from
//! the bar after the one that closes far enough towards the target. A spread hour moves it away
//! from price until the spread recovers, once per hour (a *widen episode*). A bar that reaches
//! both stop and target is settled by its finer sub-bars, and as a stop where they cannot tell.
//!
//! What the instrument's calendar and the break-even rule say of each bar comes with the bar, in
//! [`BarMarks`]; the walk itself only compares prices and times.
use vstd::prelude::*;
use crate::binary64::{difference, quotient, Float};
use crate::exit_laws::{exits_are_on_the_closing_book, stop_touched, target_touched};
use crate::market::{
    book_for, book_of, book_reaches, breach_detected, breached, profit_side, reaches,
    stop_approach, stop_side, tp_approach, Approach, BidAskCandle, Book, Direction, Leg,
};
use crate::time::Instant;

verus! {

/// The spread at or under which a widened stop is restored, as a binary64 pattern: 4 pips.
pub const RECOVERED_PIPS_BITS: u64 = 0x4010_0000_0000_0000;

/// A widened stop is restored at the latest this long after its bar, outside spread hours: 12 h.
pub const SAFETY_FORCE_RESTORE_NANOS: i128 = 43_200_000_000_000;

/// How the position is entered, with the price of the resting order.
#[derive(Clone, Copy, Debug, PartialEq, Eq, Structural)]
pub enum ResolvedEntry {
    /// Fills at once, at the fire bar's close.
    Market { reference_price: Float },
    /// Rests beyond the market in the trade's direction.
    Stop { trigger_price: Float },
    /// Rests on the near side of the market.
    Limit { trigger_price: Float },
}

/// A break-even rule, resolved: where the stop goes once a close arms it.
#[derive(Clone, Copy, Debug, PartialEq, Eq, Structural)]
pub struct Breakeven {
    pub target_stop: Float,
}

/// The tick that order prices are rounded to: the instrument's where it is known, else its pip, a
/// coarser grid.
pub fn replay_tick(tick_size: Option<Float>, pip_size: Float) -> (tick: Float)
    ensures
        tick == match tick_size {
            Some(t) => t,
            None => pip_size,
        },
{
    match tick_size {
        Some(t) => t,
        None => pip_size,
    }
}

/// The bracket that the broker holds: entry, stop and target levels.
#[derive(Clone, Copy, Debug, PartialEq, Eq)]
pub struct Resolved {
    pub direction: Direction,
    pub entry: ResolvedEntry,
    pub stop_loss: Float,
    pub take_profit: Float,
    pub min_r: Float,
    pub breakeven: Option<Breakeven>,
}

/// What the fill test and the sweep read of the fired enter besides its levels.
#[derive(Clone, Copy, Debug, PartialEq, Eq)]
pub struct Order {
    /// The fire bar's time, at which a market entry fills.
    pub fired_at: Instant,
    /// How many bars after the fire bar the resting order lives; `None` for no limit.
    pub expiry_bars: Option<u64>,
    /// The end of the alert window.
    pub not_after: Instant,
    /// The enter carries a break-even rule.
    pub breakeven: bool,
    /// The spread, in pips, that counts as elevated on this instrument.
    pub widen_trigger_pips: Float,
}

/// Where a widen of some size moves a stop.
#[derive(Clone, Copy, Debug, PartialEq, Eq, Structural)]
pub struct WidenLevels {
    /// Where it moves the placed stop.
    pub from_placed: Float,
    /// Where it moves the break-even stop.
    pub from_breakeven: Float,
}

/// What the instrument's calendar and the break-even rule say of one bar.
#[derive(Clone, Copy, Debug, PartialEq, Eq)]
pub struct BarMarks {
    /// The bar is dominated by a learned spread hour: a touch on it is no fill.
    pub spread_hour: bool,
    /// The bar's close is past the level that arms break-even.
    pub close_arms: bool,
    /// Judged over the bars from the fill to this one, the break-even stop lies inside the noise.
    pub noise_blocks: bool,
    /// When the bar is in a learned spread hour or leads into one: the moment the stop is widened.
    pub widen_at: Option<Instant>,
    /// The bar is at the close of the New York session.
    pub ny_close_edge: bool,
    /// Where a widen on this bar moves the stop by the size learned for its spread hour.
    pub learned: WidenLevels,
    /// Where a widen on this bar moves the stop by the bar's own spread, clamped.
    pub clamped: WidenLevels,
    /// The bar is outside every spread hour, so the last-resort restore may act on it.
    pub backstop_clear: bool,
    /// The bar lies in the instrument's market-hours blackout.
    pub blackout: bool,
    /// The order's bar-based cancel time has come.
    pub expiry_due: bool,
}

/// One bar of the path that follows the fired enter. The first bar of a path is the fire bar.
#[derive(Clone, Copy, Debug, PartialEq, Eq)]
pub struct PathBar {
    pub candle: BidAskCandle,
    pub marks: BarMarks,
}

/// What happened to one fired enter over the path.
#[derive(Debug, PartialEq, Eq)]
pub enum SimOutcome {
    /// The pending order never filled.
    NeverFilled,
    /// Filled, and neither stop nor target was reached.
    FilledOpen { fill_at: Instant, entry_price: Float },
    /// Filled, then the stop was hit.
    StoppedOut { fill_at: Instant, entry_price: Float, exit_at: Instant, exit_price: Float },
    /// Filled, then the target was hit.
    TookProfit { fill_at: Instant, entry_price: Float, exit_at: Instant, exit_price: Float },
    /// The intent could not be resolved to levels.
    Unresolved(String),
    /// The entry was declined before an order was placed.
    Declined { name: String },
}

/// A located fill: when and where, and the index of the first bar of the exit search.
#[derive(Clone, Copy, Debug, PartialEq, Eq, Structural)]
pub struct Fill {
    pub fill_at: Instant,
    pub entry_price: Float,
    pub start: usize,
}

impl ResolvedEntry {
    /// The price of the entry order.
    pub open spec fn price(self) -> Float {
        match self {
            ResolvedEntry::Market { reference_price } => reference_price,
            ResolvedEntry::Stop { trigger_price } => trigger_price,
            ResolvedEntry::Limit { trigger_price } => trigger_price,
        }
    }

    /// The price of the entry order.
    pub fn reference_price(self) -> (p: Float)
        ensures
            p == self.price(),
    {
        match self {
            ResolvedEntry::Market { reference_price } => reference_price,
            ResolvedEntry::Stop { trigger_price } => trigger_price,
            ResolvedEntry::Limit { trigger_price } => trigger_price,
        }
    }
}

/// The side that price approaches the entry order from: a stop lies ahead of the trade, a limit
/// behind it.
pub open spec fn entry_side(entry: ResolvedEntry, dir: Direction) -> Approach {
    if (entry is Limit) == (dir == Direction::Short) {
        Approach::FromBelow
    } else {
        Approach::FromAbove
    }
}

/// The bar fills the resting order: its entry book reaches the trigger, outside a spread hour.
pub open spec fn takes_entry(resolved: Resolved, bar: PathBar) -> bool {
    &&& reaches(
        bar.candle,
        book_of(Leg::Entry, resolved.direction),
        resolved.entry.price(),
        entry_side(resolved.entry, resolved.direction),
    )
    &&& !bar.marks.spread_hour
}

/// How many bars of the path the resting order may live through, the fire bar counted.
pub open spec fn live_bars(order: Order, len: int) -> int {
    match order.expiry_bars {
        Some(n) => if 1 + n < len {
            1 + n
        } else {
            len
        },
        None => len,
    }
}

/// The first bar from `i` on, below `end`, that fills the order, unless an earlier one trades
/// past its stop: the order is cancelled at that bar's close.
pub open spec fn pending_fill(resolved: Resolved, path: Seq<PathBar>, end: int, i: int) -> Option<
    int,
>
    decreases end - i,
{
    if i >= end {
        None
    } else if takes_entry(resolved, path[i]) {
        Some(i)
    } else if breached(path[i].candle, resolved.direction, resolved.stop_loss) {
        None
    } else {
        pending_fill(resolved, path, end, i + 1)
    }
}

/// Where the entry fills: a market order on the fire bar, a resting one on a later bar.
pub open spec fn fill_of(resolved: Resolved, order: Order, path: Seq<PathBar>) -> Option<Fill> {
    if resolved.entry is Market {
        Some(Fill { fill_at: order.fired_at, entry_price: resolved.entry.price(), start: 0 })
    } else {
        match pending_fill(resolved, path, live_bars(order, path.len() as int), 1) {
            Some(i) => Some(
                Fill {
                    fill_at: path[i].candle.time,
                    entry_price: resolved.entry.price(),
                    start: i as usize,
                },
            ),
            None => None,
        }
    }
}

/// Finds where the entry order fills; `None` where it never does.
pub fn find_fill(resolved: &Resolved, order: &Order, path: &[PathBar]) -> (fill: Option<Fill>)
    ensures
        fill == fill_of(*resolved, *order, path@),
        fill matches Some(f) ==> f.start <= path@.len() && f.entry_price == resolved.entry.price(),
{
    let trigger: Float = resolved.entry.reference_price();
    let side: Approach = match (resolved.entry, resolved.direction) {
        (ResolvedEntry::Market { .. }, _) => {
            return Some(Fill { fill_at: order.fired_at, entry_price: trigger, start: 0 });
        },
        (ResolvedEntry::Stop { .. }, Direction::Long) => Approach::FromBelow,
        (ResolvedEntry::Stop { .. }, Direction::Short) => Approach::FromAbove,
        (ResolvedEntry::Limit { .. }, Direction::Long) => Approach::FromAbove,
        (ResolvedEntry::Limit { .. }, Direction::Short) => Approach::FromBelow,
    };
    let book: Book = book_for(Leg::Entry, resolved.direction);
    let len: usize = path.len();
    let end: usize = match order.expiry_bars {
        Some(n) => if len > 1 && n < (len - 1) as u64 {
            n as usize + 1
        } else {
            len
        },
        None => len,
    };
    let mut i: usize = 1;
    while i < end
        invariant
            1 <= i,
            end <= len == path@.len(),
            end == live_bars(*order, len as int),
            book == book_of(Leg::Entry, resolved.direction),
            trigger == resolved.entry.price(),
            side == entry_side(resolved.entry, resolved.direction),
            pending_fill(*resolved, path@, end as int, 1) == pending_fill(
                *resolved,
                path@,
                end as int,
                i as int,
            ),
            !(resolved.entry is Market),
        decreases end - i,
    {
        let bar: PathBar = path[i];
        if book_reaches(&bar.candle, book, trigger, side) && !bar.marks.spread_hour {
            return Some(Fill { fill_at: bar.candle.time, entry_price: trigger, start: i });
        }
        if breach_detected(&bar.candle, resolved.direction, resolved.stop_loss) {
            return None;
        }
        i = i + 1;
    }
    None
}

/// A spread-hour widen of an open position's stop, and its restore.
#[derive(Clone, Copy, Debug, PartialEq, Eq)]
pub struct SpreadWiden {
    /// The moment the stop is widened, possibly inside the bar.
    pub at: Instant,
    /// Open-time of the bar from which the widened stop governs.
    pub effective_from: Instant,
    /// The stop in force before the widen, to which the restore goes back.
    pub original_stop: Float,
    /// The spread on that bar, in pips.
    pub widen_spread_pips: Float,
    /// The stop after the widen.
    pub widened_stop: Float,
    /// Open-time of the bar from which the original stop governs again; `None` where the path
    /// ends first.
    pub restored_at: Option<Instant>,
}

/// The spread of a bar in pips.
pub open spec fn spread_pips(bar: PathBar, pip_size: Float) -> Float {
    quotient(difference(bar.candle.ask_c, bar.candle.bid_c), pip_size)
}

/// The spread is back to normal on the bar, or the last-resort restore may act on it.
pub open spec fn restores(bar: PathBar, widened_at: Instant, pip_size: Float) -> bool {
    let spread = spread_pips(bar, pip_size);
    ||| spread.finite() && spread.at_most(Float { bits: RECOVERED_PIPS_BITS })
    ||| bar.candle.time.nanos >= widened_at.nanos + SAFETY_FORCE_RESTORE_NANOS
        && bar.marks.backstop_clear
}

/// The time of the first bar from `i` on that restores a stop widened at `widened_at`.
pub open spec fn restored_from(
    path: Seq<PathBar>,
    i: int,
    widened_at: Instant,
    pip_size: Float,
) -> Option<Instant>
    decreases path.len() - i,
{
    if i >= path.len() {
        None
    } else if restores(path[i], widened_at, pip_size) {
        Some(path[i].candle.time)
    } else {
        restored_from(path, i + 1, widened_at, pip_size)
    }
}

/// The episode governs the stop on a bar that opens at `t`.
pub open spec fn covers(w: SpreadWiden, t: Instant) -> bool {
    t.nanos >= w.effective_from.nanos && match w.restored_at {
        Some(r) => t.nanos < r.nanos,
        None => true,
    }
}

/// Some episode governs the stop on a bar that opens at `t`.
pub open spec fn covered(episodes: Seq<SpreadWiden>, t: Instant) -> bool {
    exists|k: int| 0 <= k < episodes.len() && covers(#[trigger] episodes[k], t)
}

/// The stop in force on a bar that opens at `t`: that of the first episode that governs it, else
/// `base`.
pub open spec fn stop_on_bar(episodes: Seq<SpreadWiden>, t: Instant, base: Float) -> Float
    decreases episodes.len(),
{
    if episodes.len() == 0 {
        base
    } else if covers(episodes[0], t) {
        episodes[0].widened_stop
    } else {
        stop_on_bar(episodes.drop_first(), t, base)
    }
}

/// The last widen has not been restored by `t`, so another one may not start.
pub open spec fn still_widened(episodes: Seq<SpreadWiden>, t: Instant) -> bool {
    episodes.len() > 0 && match episodes.last().restored_at {
        Some(r) => t.nanos < r.nanos,
        None => true,
    }
}

/// The stop without a widen: the placed one, or the entry price once break-even is armed.
pub open spec fn managed_stop(resolved: Resolved, armed: bool) -> Float {
    match resolved.breakeven {
        Some(be) => if armed {
            be.target_stop
        } else {
            resolved.stop_loss
        },
        None => resolved.stop_loss,
    }
}

/// The bar's close arms break-even, where no widen lasts: there is a rule to arm, the close is past
/// its level, and the stop that it would give is not inside the noise.
pub open spec fn arms(resolved: Resolved, bar: PathBar) -> bool {
    resolved.breakeven is Some && bar.marks.close_arms && !bar.marks.noise_blocks
}

/// The bar starts a widen: it is in a learned spread hour, or at the New York close with a spread
/// at the trigger. Without a spread to measure it starts none.
pub open spec fn opens_widen(bar: PathBar, pip_size: Float, trigger: Float) -> bool {
    let spread = spread_pips(bar, pip_size);
    spread.finite() && (bar.marks.widen_at is Some || (bar.marks.ny_close_edge && trigger.at_most(
        spread,
    )))
}

/// Where a widen on the bar moves the stop: by the size learned for a spread hour that the bar is in
/// or leads into, else by its own spread, clamped; from the break-even stop where it is armed, else
/// from the placed one.
pub open spec fn widened_level(marks: BarMarks, armed: bool) -> Float {
    let levels = if marks.widen_at is Some {
        marks.learned
    } else {
        marks.clamped
    };
    if armed {
        levels.from_breakeven
    } else {
        levels.from_placed
    }
}

/// The episode that the bar at `i` starts.
pub open spec fn episode_at(
    resolved: Resolved,
    path: Seq<PathBar>,
    pip_size: Float,
    i: int,
    armed: bool,
) -> SpreadWiden {
    let bar = path[i];
    SpreadWiden {
        at: match bar.marks.widen_at {
            Some(at) => at,
            None => bar.candle.time,
        },
        effective_from: bar.candle.time,
        original_stop: managed_stop(resolved, armed),
        widen_spread_pips: spread_pips(bar, pip_size),
        widened_stop: widened_level(bar.marks, armed),
        restored_at: restored_from(path, i + 1, bar.candle.time, pip_size),
    }
}

/// The exit book reaches the stop on the bar.
pub open spec fn hits_stop(resolved: Resolved, c: BidAskCandle, stop: Float) -> bool {
    reaches(c, book_of(Leg::Exit, resolved.direction), stop, stop_side(resolved.direction))
}

/// The exit book reaches the target on the bar.
pub open spec fn hits_target(resolved: Resolved, c: BidAskCandle) -> bool {
    reaches(
        c,
        book_of(Leg::Exit, resolved.direction),
        resolved.take_profit,
        profit_side(resolved.direction),
    )
}

/// The episodes of an open position, scanned from bar `i` with those found so far. The scan ends
/// with the position: at the first bar that reaches the target or the stop then in force. While a
/// widen lasts, no other starts and no close arms break-even; nor does the close of the bar that
/// starts one.
pub open spec fn episodes_from(
    resolved: Resolved,
    path: Seq<PathBar>,
    pip_size: Float,
    trigger: Float,
    i: int,
    armed: bool,
    found: Seq<SpreadWiden>,
) -> Seq<SpreadWiden>
    decreases path.len() - i,
{
    if i >= path.len() {
        found
    } else {
        let c = path[i].candle;
        let in_force = stop_on_bar(found, c.time, managed_stop(resolved, armed));
        if hits_stop(resolved, c, in_force) || hits_target(resolved, c) {
            found
        } else if still_widened(found, c.time) {
            episodes_from(resolved, path, pip_size, trigger, i + 1, armed, found)
        } else if opens_widen(path[i], pip_size, trigger) {
            episodes_from(
                resolved,
                path,
                pip_size,
                trigger,
                i + 1,
                armed,
                found.push(episode_at(resolved, path, pip_size, i, armed)),
            )
        } else {
            episodes_from(
                resolved,
                path,
                pip_size,
                trigger,
                i + 1,
                armed || arms(resolved, path[i]),
                found,
            )
        }
    }
}

/// A pip size that spreads can be measured in.
pub open spec fn usable_pip(pip_size: Float) -> bool {
    pip_size.finite() && pip_size.units() > 0
}

/// Every widen episode that the open position lives through, in order.
pub open spec fn episodes_of(
    resolved: Resolved,
    order: Order,
    pip_size: Float,
    path: Seq<PathBar>,
    trigger: Float,
) -> Seq<SpreadWiden> {
    match fill_of(resolved, order, path) {
        Some(fill) if usable_pip(pip_size) => episodes_from(
            resolved,
            path,
            pip_size,
            trigger,
            fill.start as int,
            false,
            Seq::empty(),
        ),
        _ => Seq::empty(),
    }
}

/// The bars of a path are at calendar times.
pub open spec fn timed(path: Seq<PathBar>) -> bool {
    forall|k: int| 0 <= k < path.len() ==> (#[trigger] path[k]).candle.time.valid()
}

/// The spread of a bar in pips.
fn pips_of(bar: &PathBar, pip_size: Float) -> (spread: Float)
    ensures
        spread == spread_pips(*bar, pip_size),
{
    bar.candle.ask_c.minus(bar.candle.bid_c).over(pip_size)
}

/// When a stop widened at `widened_at` is restored: the first bar from `from` on whose spread is
/// back to normal, or that the last-resort timer may act on.
pub fn restore_bar(path: &[PathBar], from: usize, widened_at: Instant, pip_size: Float) -> (r:
    Option<Instant>)
    requires
        widened_at.valid(),
        from <= path@.len(),
    ensures
        r == restored_from(path@, from as int, widened_at, pip_size),
{
    let safety_at: i128 = widened_at.nanos + SAFETY_FORCE_RESTORE_NANOS;
    let mut i: usize = from;
    while i < path.len()
        invariant
            i <= path@.len(),
            safety_at == widened_at.nanos + SAFETY_FORCE_RESTORE_NANOS,
            restored_from(path@, from as int, widened_at, pip_size) == restored_from(
                path@,
                i as int,
                widened_at,
                pip_size,
            ),
        decreases path@.len() - i,
    {
        let bar: PathBar = path[i];
        let spread: Float = pips_of(&bar, pip_size);
        if spread.is_finite() && spread.le(Float { bits: RECOVERED_PIPS_BITS }) {
            return Some(bar.candle.time);
        }
        if bar.candle.time.nanos >= safety_at && bar.marks.backstop_clear {
            return Some(bar.candle.time);
        }
        i = i + 1;
    }
    None
}

/// The stop in force on a bar that opens at `t`.
fn stop_at(episodes: &Vec<SpreadWiden>, t: Instant, base: Float) -> (stop: Float)
    ensures
        stop == stop_on_bar(episodes@, t, base),
{
    let mut k: usize = 0;
    assert(episodes@.skip(0) =~= episodes@);
    while k < episodes.len()
        invariant
            k <= episodes@.len(),
            stop_on_bar(episodes@, t, base) == stop_on_bar(episodes@.skip(k as int), t, base),
        decreases episodes@.len() - k,
    {
        let w: SpreadWiden = episodes[k];
        assert(episodes@.skip(k as int)[0] == w);
        assert(episodes@.skip(k as int).drop_first() =~= episodes@.skip(k + 1));
        if is_covering(&w, t) {
            return w.widened_stop;
        }
        k = k + 1;
    }
    base
}

/// Whether the episode governs the stop on a bar that opens at `t`.
fn is_covering(w: &SpreadWiden, t: Instant) -> (b: bool)
    ensures
        b == covers(*w, t),
{
    t.nanos >= w.effective_from.nanos && match w.restored_at {
        Some(r) => t.nanos < r.nanos,
        None => true,
    }
}

/// Whether some episode governs the stop on a bar that opens at `t`.
fn is_covered(episodes: &Vec<SpreadWiden>, t: Instant) -> (b: bool)
    ensures
        b == covered(episodes@, t),
{
    let mut k: usize = 0;
    while k < episodes.len()
        invariant
            k <= episodes@.len(),
            forall|j: int| 0 <= j < k ==> !covers(#[trigger] episodes@[j], t),
        decreases episodes@.len() - k,
    {
        if is_covering(&episodes[k], t) {
            return true;
        }
        k = k + 1;
    }
    false
}

/// The stop without a widen.
fn managed(resolved: &Resolved, armed: bool) -> (stop: Float)
    ensures
        stop == managed_stop(*resolved, armed),
{
    match resolved.breakeven {
        Some(be) => if armed {
            be.target_stop
        } else {
            resolved.stop_loss
        },
        None => resolved.stop_loss,
    }
}

/// Whether the bar's close arms break-even, where no widen lasts.
fn is_arming(resolved: &Resolved, bar: &PathBar) -> (b: bool)
    ensures
        b == arms(*resolved, *bar),
{
    resolved.breakeven.is_some() && bar.marks.close_arms && !bar.marks.noise_blocks
}

fn reaches_stop(resolved: &Resolved, c: &BidAskCandle, stop: Float) -> (b: bool)
    ensures
        b == hits_stop(*resolved, *c, stop),
{
    let dir: Direction = resolved.direction;
    book_reaches(c, book_for(Leg::Exit, dir), stop, stop_approach(dir))
}

fn reaches_target(resolved: &Resolved, c: &BidAskCandle) -> (b: bool)
    ensures
        b == hits_target(*resolved, *c),
{
    let dir: Direction = resolved.direction;
    book_reaches(c, book_for(Leg::Exit, dir), resolved.take_profit, tp_approach(dir))
}

/// Every widen and restore that the open position lives through, in order. Empty where the order
/// never fills or the pip size is unusable.
pub fn widen_episodes_at_resolved(
    resolved: &Resolved,
    order: &Order,
    pip_size: Float,
    path: &[PathBar],
    widen_trigger_pips: Float,
) -> (episodes: Vec<SpreadWiden>)
    requires
        timed(path@),
    ensures
        episodes@ == episodes_of(*resolved, *order, pip_size, path@, widen_trigger_pips),
{
    let mut episodes: Vec<SpreadWiden> = Vec::new();
    let zero: Float = Float { bits: 0 };
    proof {
        crate::binary64::zero_units();
    }
    if !pip_size.is_finite() || pip_size.le(zero) {
        return episodes;
    }
    let start: usize = match find_fill(resolved, order, path) {
        Some(fill) => fill.start,
        None => {
            return episodes;
        },
    };
    let mut armed: bool = false;
    let mut i: usize = start;
    assert(episodes@ =~= Seq::<SpreadWiden>::empty());
    while i < path.len()
        invariant
            timed(path@),
            i <= path@.len(),
            episodes_from(
                *resolved,
                path@,
                pip_size,
                widen_trigger_pips,
                start as int,
                false,
                Seq::empty(),
            ) == episodes_from(
                *resolved,
                path@,
                pip_size,
                widen_trigger_pips,
                i as int,
                armed,
                episodes@,
            ),
        ensures
            episodes@ == episodes_from(
                *resolved,
                path@,
                pip_size,
                widen_trigger_pips,
                start as int,
                false,
                Seq::empty(),
            ),
        decreases path@.len() - i,
    {
        let bar: PathBar = path[i];
        let t: Instant = bar.candle.time;
        let in_force: Float = stop_at(&episodes, t, managed(resolved, armed));
        if reaches_stop(resolved, &bar.candle, in_force) || reaches_target(resolved, &bar.candle) {
            break;
        }
        let busy: bool = if episodes.len() > 0 {
            match episodes[episodes.len() - 1].restored_at {
                Some(r) => t.nanos < r.nanos,
                None => true,
            }
        } else {
            false
        };
        if !busy {
            let spread: Float = pips_of(&bar, pip_size);
            let opens: bool = spread.is_finite() && (bar.marks.widen_at.is_some() || (
            bar.marks.ny_close_edge && widen_trigger_pips.le(spread)));
            if opens {
                let (at, levels): (Instant, WidenLevels) = match bar.marks.widen_at {
                    Some(at) => (at, bar.marks.learned),
                    None => (t, bar.marks.clamped),
                };
                let widened_stop: Float = if armed {
                    levels.from_breakeven
                } else {
                    levels.from_placed
                };
                let episode: SpreadWiden = SpreadWiden {
                    at,
                    effective_from: t,
                    original_stop: managed(resolved, armed),
                    widen_spread_pips: spread,
                    widened_stop,
                    restored_at: restore_bar(path, i + 1, t, pip_size),
                };
                episodes.push(episode);
            } else if is_arming(resolved, &bar) {
                armed = true;
            }
        }
        i = i + 1;
    }
    episodes
}

/// The first widen of the open position, if it lives through one.
pub fn widened_stop_at_resolved(
    resolved: &Resolved,
    order: &Order,
    pip_size: Float,
    path: &[PathBar],
    widen_trigger_pips: Float,
) -> (widen: Option<SpreadWiden>)
    requires
        timed(path@),
    ensures
        ({
            let episodes = episodes_of(*resolved, *order, pip_size, path@, widen_trigger_pips);
            widen == if episodes.len() > 0 {
                Some(episodes[0])
            } else {
                None
            }
        }),
{
    let episodes: Vec<SpreadWiden> = widen_episodes_at_resolved(
        resolved,
        order,
        pip_size,
        path,
        widen_trigger_pips,
    );
    if episodes.len() > 0 {
        Some(episodes[0])
    } else {
        None
    }
}

/// The least positive gap between consecutive times from `i` on; zero where there is none.
pub open spec fn least_gap(times: Seq<int>, i: int) -> int
    decreases times.len() - i,
{
    if i + 1 >= times.len() {
        0
    } else {
        let gap = times[i + 1] - times[i];
        let later = least_gap(times, i + 1);
        if gap > 0 && (later == 0 || gap < later) {
            gap
        } else {
            later
        }
    }
}

/// The open-times of a path, in nanoseconds.
pub open spec fn open_times(path: Seq<PathBar>) -> Seq<int> {
    path.map_values(|b: PathBar| b.candle.time.nanos as int)
}

/// The open-times of a path, in whole seconds.
pub open spec fn open_seconds(path: Seq<PathBar>) -> Seq<int> {
    path.map_values(|b: PathBar| b.candle.time.seconds())
}

/// The length of the bars from `from` on, in nanoseconds: the least positive gap between open
/// times, so that a session gap does not count. Zero where no two bars differ.
pub fn infer_bar_len(path: &[PathBar], from: usize) -> (len: i128)
    requires
        timed(path@),
        from <= path@.len(),
    ensures
        len == least_gap(open_times(path@), from as int),
        0 <= len < 0x8000_0000_0000_0000 * 1_000_000_000,
{
    let n: usize = path.len();
    let mut best: i128 = 0;
    let ghost times = open_times(path@);
    if n - from <= 1 {
        return 0;
    }
    let mut i: usize = n - 1;
    while i > from
        invariant
            n == path@.len() > 0,
            timed(path@),
            times == open_times(path@),
            from <= i < n,
            best == least_gap(times, i as int),
            0 <= best < 0x8000_0000_0000_0000 * 1_000_000_000,
        decreases i,
    {
        i = i - 1;
        assert(path@[i as int].candle.time.valid() && path@[i + 1].candle.time.valid());
        let gap: i128 = path[i + 1].candle.time.nanos - path[i].candle.time.nanos;
        if gap > 0 && (best == 0 || gap < best) {
            best = gap;
        }
    }
    best
}

/// The length of the bars of a path, in whole seconds.
pub fn bar_seconds_of(path: &[PathBar]) -> (secs: i64)
    requires
        timed(path@),
    ensures
        secs == least_gap(open_seconds(path@), 0),
{
    let n: usize = path.len();
    let mut best: i64 = 0;
    let ghost times = open_seconds(path@);
    if n == 0 {
        return 0;
    }
    let mut i: usize = n - 1;
    while i > 0
        invariant
            n == path@.len() > 0,
            timed(path@),
            times == open_seconds(path@),
            i < n,
            best == least_gap(times, i as int),
        decreases i,
    {
        i = i - 1;
        assert(path@[i as int].candle.time.valid() && path@[i + 1].candle.time.valid());
        let gap: i64 = path[i + 1].candle.time.timestamp() - path[i].candle.time.timestamp();
        if gap > 0 && (best == 0 || gap < best) {
            best = gap;
        }
    }
    best
}

/// A source of finer candles for the bars that reach both stop and target.
pub trait SubBars {
    /// The finer candles that the source has for bars that open in `start..end`, ascending. A source
    /// that does not say has none.
    open spec fn finer(&self, start: Instant, end: Instant) -> Seq<BidAskCandle> {
        Seq::empty()
    }

    /// The finer candles whose open-time falls in `start..end`, ascending. Empty where there are
    /// none.
    fn sub_bars(&self, start: Instant, end: Instant) -> (bars: Vec<BidAskCandle>)
        ensures
            bars@ == self.finer(start, end),
    ;
}

/// The source without finer candles.
pub struct NoZoom;

impl SubBars for NoZoom {
    open spec fn finer(&self, start: Instant, end: Instant) -> Seq<BidAskCandle> {
        Seq::empty()
    }

    fn sub_bars(&self, start: Instant, end: Instant) -> (bars: Vec<BidAskCandle>) {
        Vec::new()
    }
}

/// The candles that open in `start..end`, in their order.
pub open spec fn opening_in(bars: Seq<BidAskCandle>, start: Instant, end: Instant) -> Seq<
    BidAskCandle,
>
    decreases bars.len(),
{
    if bars.len() == 0 {
        Seq::empty()
    } else {
        let before = opening_in(bars.drop_last(), start, end);
        let t = bars.last().time;
        if start.nanos <= t.nanos < end.nanos {
            before.push(bars.last())
        } else {
            before
        }
    }
}

/// The source that serves candles it holds.
pub struct WindowSubBars {
    pub bars: Vec<BidAskCandle>,
}

impl WindowSubBars {
    pub fn new(bars: Vec<BidAskCandle>) -> (s: WindowSubBars)
        ensures
            s.bars == bars,
    {
        WindowSubBars { bars }
    }
}

impl SubBars for WindowSubBars {
    open spec fn finer(&self, start: Instant, end: Instant) -> Seq<BidAskCandle> {
        opening_in(self.bars@, start, end)
    }

    fn sub_bars(&self, start: Instant, end: Instant) -> (bars: Vec<BidAskCandle>) {
        let mut bars: Vec<BidAskCandle> = Vec::new();
        let mut i: usize = 0;
        assert(self.bars@.take(0) =~= Seq::<BidAskCandle>::empty());
        while i < self.bars.len()
            invariant
                i <= self.bars@.len(),
                bars@ == opening_in(self.bars@.take(i as int), start, end),
            decreases self.bars@.len() - i,
        {
            assert(self.bars@.take(i + 1).drop_last() =~= self.bars@.take(i as int));
            let c: BidAskCandle = self.bars[i];
            if start.nanos <= c.time.nanos && c.time.nanos < end.nanos {
                bars.push(c);
            }
            i = i + 1;
        }
        assert(self.bars@.take(i as int) =~= self.bars@);
        bars
    }
}

/// How the exit search over the coarse bars ends.
#[derive(Clone, Copy, Debug, PartialEq, Eq)]
pub enum ExitSearch {
    /// No bar reaches stop or target.
    Open,
    /// The bar at `at` reaches the stop alone, which lies at `stop`.
    Stop { at: Instant, stop: Float },
    /// The bar at `at` reaches the target alone.
    Target { at: Instant },
    /// The bar at `at` reaches both; the stop lies at `stop`.
    Both { at: Instant, stop: Float },
}

/// The bar's close arms break-even for the bars after it: no episode covers the bar.
pub open spec fn arms_exit(resolved: Resolved, bar: PathBar, episodes: Seq<SpreadWiden>) -> bool {
    arms(resolved, bar) && !covered(episodes, bar.candle.time)
}

/// The exit search from bar `i` on. Each bar is tested against the stop in force on it; only then
/// may its close arm break-even, so that the moved stop governs from the next bar.
pub open spec fn exit_from(
    resolved: Resolved,
    path: Seq<PathBar>,
    episodes: Seq<SpreadWiden>,
    i: int,
    armed: bool,
) -> ExitSearch
    decreases path.len() - i,
{
    if i >= path.len() {
        ExitSearch::Open
    } else {
        let c = path[i].candle;
        let stop = stop_on_bar(episodes, c.time, managed_stop(resolved, armed));
        match (hits_stop(resolved, c, stop), hits_target(resolved, c)) {
            (true, true) => ExitSearch::Both { at: c.time, stop },
            (true, false) => ExitSearch::Stop { at: c.time, stop },
            (false, true) => ExitSearch::Target { at: c.time },
            (false, false) => exit_from(
                resolved,
                path,
                episodes,
                i + 1,
                armed || arms_exit(resolved, path[i], episodes),
            ),
        }
    }
}

/// Walks the bars from `start` on to the exit.
pub fn search_exit(
    resolved: &Resolved,
    path: &[PathBar],
    episodes: &Vec<SpreadWiden>,
    start: usize,
) -> (exit: ExitSearch)
    requires
        start <= path@.len(),
    ensures
        exit == exit_from(*resolved, path@, episodes@, start as int, false),
{
    let mut armed: bool = false;
    let mut i: usize = start;
    while i < path.len()
        invariant
            i <= path@.len(),
            exit_from(*resolved, path@, episodes@, start as int, false) == exit_from(
                *resolved,
                path@,
                episodes@,
                i as int,
                armed,
            ),
        decreases path@.len() - i,
    {
        let bar: PathBar = path[i];
        let at: Instant = bar.candle.time;
        let stop: Float = stop_at(episodes, at, managed(resolved, armed));
        let hit_sl: bool = reaches_stop(resolved, &bar.candle, stop);
        let hit_tp: bool = reaches_target(resolved, &bar.candle);
        match (hit_sl, hit_tp) {
            (true, false) => {
                return ExitSearch::Stop { at, stop };
            },
            (false, true) => {
                return ExitSearch::Target { at };
            },
            (true, true) => {
                return ExitSearch::Both { at, stop };
            },
            (false, false) => {},
        }
        if is_arming(resolved, &bar) && !is_covered(episodes, at) {
            armed = true;
        }
        i = i + 1;
    }
    ExitSearch::Open
}

/// Of the sub-bars, the first that reaches either level reaches the target alone.
pub open spec fn target_first(resolved: Resolved, subs: Seq<BidAskCandle>, stop: Float) -> bool
    decreases subs.len(),
{
    if subs.len() == 0 || hits_stop(resolved, subs[0], stop) {
        false
    } else if hits_target(resolved, subs[0]) {
        true
    } else {
        target_first(resolved, subs.drop_first(), stop)
    }
}

/// Whether the sub-bars show that the target was hit before the stop. They do not where none
/// touches either, or the first that does touches both.
pub fn zoom_ambiguous_bar(resolved: &Resolved, subs: &Vec<BidAskCandle>, stop: Float) -> (profit:
    bool)
    ensures
        profit == target_first(*resolved, subs@, stop),
        profit == exists|k: int|
            {
                &&& 0 <= k < subs@.len()
                &&& target_touched(resolved.direction, #[trigger] subs@[k], resolved.take_profit)
                &&& !stop_touched(resolved.direction, subs@[k], stop)
                &&& forall|j: int|
                    0 <= j < k ==> !target_touched(
                        resolved.direction,
                        #[trigger] subs@[j],
                        resolved.take_profit,
                    ) && !stop_touched(resolved.direction, subs@[j], stop)
            },
{
    let mut k: usize = 0;
    assert(subs@.skip(0) =~= subs@);
    while k < subs.len()
        invariant
            k <= subs@.len(),
            target_first(*resolved, subs@, stop) == target_first(
                *resolved,
                subs@.skip(k as int),
                stop,
            ),
            forall|j: int|
                0 <= j < k ==> !target_touched(
                    resolved.direction,
                    #[trigger] subs@[j],
                    resolved.take_profit,
                ) && !stop_touched(resolved.direction, subs@[j], stop),
        decreases subs@.len() - k,
    {
        let sub_bar: BidAskCandle = subs[k];
        proof {
            exits_are_on_the_closing_book(*resolved, sub_bar, stop);
        }
        assert(subs@.skip(k as int)[0] == sub_bar);
        assert(subs@.skip(k as int).drop_first() =~= subs@.skip(k + 1));
        if reaches_stop(resolved, &sub_bar, stop) {
            return false;
        }
        if reaches_target(resolved, &sub_bar) {
            assert(target_touched(resolved.direction, subs@[k as int], resolved.take_profit));
            return true;
        }
        k = k + 1;
    }
    false
}

/// The span of a bar that reached both levels, for which finer candles are wanted.
#[derive(Clone, Copy, Debug, PartialEq, Eq, Structural)]
pub struct ZoomWindow {
    pub start: Instant,
    pub end: Instant,
}

/// The one window of finer candles that the exit search asks for: that of the bar that reaches
/// both levels, where the bar length is known.
pub open spec fn zoom_request(
    resolved: Resolved,
    order: Order,
    pip_size: Float,
    path: Seq<PathBar>,
) -> Option<ZoomWindow> {
    match fill_of(resolved, order, path) {
        Some(fill) => {
            let episodes = episodes_of(resolved, order, pip_size, path, order.widen_trigger_pips);
            let len = least_gap(open_times(path), fill.start as int);
            match exit_from(resolved, path, episodes, fill.start as int, false) {
                ExitSearch::Both { at, .. } if len > 0 => Some(
                    ZoomWindow { start: at, end: Instant { nanos: (at.nanos + len) as i128 } },
                ),
                _ => None,
            }
        },
        None => None,
    }
}

/// What happened to the enter, where `finer` gives the finer candles of a window.
pub open spec fn outcome_with(
    resolved: Resolved,
    order: Order,
    pip_size: Float,
    path: Seq<PathBar>,
    finer: spec_fn(ZoomWindow) -> Seq<BidAskCandle>,
) -> SimOutcome {
    match fill_of(resolved, order, path) {
        None => SimOutcome::NeverFilled,
        Some(fill) => {
            let (fill_at, entry_price) = (fill.fill_at, fill.entry_price);
            let profit = resolved.take_profit;
            let episodes = episodes_of(resolved, order, pip_size, path, order.widen_trigger_pips);
            match exit_from(resolved, path, episodes, fill.start as int, false) {
                ExitSearch::Open => SimOutcome::FilledOpen { fill_at, entry_price },
                ExitSearch::Stop { at, stop } => SimOutcome::StoppedOut {
                    fill_at,
                    entry_price,
                    exit_at: at,
                    exit_price: stop,
                },
                ExitSearch::Target { at } => SimOutcome::TookProfit {
                    fill_at,
                    entry_price,
                    exit_at: at,
                    exit_price: profit,
                },
                ExitSearch::Both { at, stop } => {
                    let window = zoom_request(resolved, order, pip_size, path);
                    if window is Some && target_first(resolved, finer(window->0), stop) {
                        SimOutcome::TookProfit {
                            fill_at,
                            entry_price,
                            exit_at: at,
                            exit_price: profit,
                        }
                    } else {
                        SimOutcome::StoppedOut {
                            fill_at,
                            entry_price,
                            exit_at: at,
                            exit_price: stop,
                        }
                    }
                },
            }
        },
    }
}

/// Simulates an enter whose bracket is resolved. A bar that reaches both stop and target is
/// settled by its finer sub-bars, and as a stop where they cannot tell. The exit is stamped with
/// the coarse bar's time either way.
pub fn simulate_fill_resolved_zoom<S: SubBars>(
    resolved: &Resolved,
    order: &Order,
    pip_size: Float,
    path: &[PathBar],
    sub_bars: &S,
) -> (outcome: SimOutcome)
    requires
        timed(path@),
    ensures
        outcome == outcome_with(
            *resolved,
            *order,
            pip_size,
            path@,
            |w: ZoomWindow| sub_bars.finer(w.start, w.end),
        ),
{
    let fill: Fill = match find_fill(resolved, order, path) {
        Some(fill) => fill,
        None => {
            return SimOutcome::NeverFilled;
        },
    };
    let (fill_at, entry_price): (Instant, Float) = (fill.fill_at, fill.entry_price);
    let episodes: Vec<SpreadWiden> = widen_episodes_at_resolved(
        resolved,
        order,
        pip_size,
        path,
        order.widen_trigger_pips,
    );
    let len: i128 = infer_bar_len(path, fill.start);
    match search_exit(resolved, path, &episodes, fill.start) {
        ExitSearch::Open => SimOutcome::FilledOpen { fill_at, entry_price },
        ExitSearch::Stop { at, stop } => SimOutcome::StoppedOut {
            fill_at,
            entry_price,
            exit_at: at,
            exit_price: stop,
        },
        ExitSearch::Target { at } => SimOutcome::TookProfit {
            fill_at,
            entry_price,
            exit_at: at,
            exit_price: resolved.take_profit,
        },
        ExitSearch::Both { at, stop } => {
            proof {
                exit_is_on_a_bar(*resolved, path@, episodes@, fill.start as int, false);
            }
            let profit: bool = if len <= 0 {
                false
            } else {
                let subs: Vec<BidAskCandle> = sub_bars.sub_bars(
                    at,
                    Instant { nanos: at.nanos + len },
                );
                zoom_ambiguous_bar(resolved, &subs, stop)
            };
            if profit {
                SimOutcome::TookProfit {
                    fill_at,
                    entry_price,
                    exit_at: at,
                    exit_price: resolved.take_profit,
                }
            } else {
                SimOutcome::StoppedOut { fill_at, entry_price, exit_at: at, exit_price: stop }
            }
        },
    }
}

/// The window of finer candles that a simulation asks for, if any: what a first pass without finer
/// candles finds out, so that only this window need be fetched.
pub fn zoom_window(resolved: &Resolved, order: &Order, pip_size: Float, path: &[PathBar]) -> (window:
    Option<ZoomWindow>)
    requires
        timed(path@),
    ensures
        window == zoom_request(*resolved, *order, pip_size, path@),
{
    let fill: Fill = match find_fill(resolved, order, path) {
        Some(fill) => fill,
        None => {
            return None;
        },
    };
    let episodes: Vec<SpreadWiden> = widen_episodes_at_resolved(
        resolved,
        order,
        pip_size,
        path,
        order.widen_trigger_pips,
    );
    let len: i128 = infer_bar_len(path, fill.start);
    match search_exit(resolved, path, &episodes, fill.start) {
        ExitSearch::Both { at, .. } => {
            proof {
                exit_is_on_a_bar(*resolved, path@, episodes@, fill.start as int, false);
            }
            if len > 0 {
                Some(ZoomWindow { start: at, end: Instant { nanos: at.nanos + len } })
            } else {
                None
            }
        },
        _ => None,
    }
}

/// An exit falls on a bar of the path.
proof fn exit_is_on_a_bar(
    resolved: Resolved,
    path: Seq<PathBar>,
    episodes: Seq<SpreadWiden>,
    i: int,
    armed: bool,
)
    requires
        timed(path),
        0 <= i,
    ensures
        match exit_from(resolved, path, episodes, i, armed) {
            ExitSearch::Open => true,
            ExitSearch::Stop { at, .. } => at.valid(),
            ExitSearch::Target { at } => at.valid(),
            ExitSearch::Both { at, .. } => at.valid(),
        },
    decreases path.len() - i,
{
    if i < path.len() {
        assert(path[i].candle.time.valid());
        exit_is_on_a_bar(
            resolved,
            path,
            episodes,
            i + 1,
            armed || arms_exit(resolved, path[i], episodes),
        );
    }
}

/// The simulation without finer candles.
pub fn simulate_fill_resolved(
    resolved: &Resolved,
    order: &Order,
    pip_size: Float,
    path: &[PathBar],
) -> (outcome: SimOutcome)
    requires
        timed(path@),
    ensures
        outcome == outcome_with(
            *resolved,
            *order,
            pip_size,
            path@,
            |w: ZoomWindow| Seq::empty(),
        ),
{
    let none: NoZoom = NoZoom;
    proof {
        assert((|w: ZoomWindow| none.finer(w.start, w.end)) =~= (|w: ZoomWindow|
            Seq::<BidAskCandle>::empty()));
    }
    simulate_fill_resolved_zoom(resolved, order, pip_size, path, &none)
}

/// The time of the first bar from `i` on whose close arms break-even outside every episode, before
/// the exit at the target or at the stop in force: the placed one, or an episode's.
pub open spec fn armed_from(
    resolved: Resolved,
    path: Seq<PathBar>,
    episodes: Seq<SpreadWiden>,
    i: int,
) -> Option<Instant>
    decreases path.len() - i,
{
    if i >= path.len() {
        None
    } else {
        let c = path[i].candle;
        let stop = stop_on_bar(episodes, c.time, resolved.stop_loss);
        if hits_stop(resolved, c, stop) || hits_target(resolved, c) {
            None
        } else if arms_exit(resolved, path[i], episodes) {
            Some(c.time)
        } else {
            armed_from(resolved, path, episodes, i + 1)
        }
    }
}

/// The time of the bar on which break-even arms, of an enter that carries a rule.
pub open spec fn arming_bar(
    resolved: Resolved,
    order: Order,
    pip_size: Float,
    path: Seq<PathBar>,
) -> Option<Instant> {
    match fill_of(resolved, order, path) {
        Some(fill) if order.breakeven => armed_from(
            resolved,
            path,
            episodes_of(resolved, order, pip_size, path, order.widen_trigger_pips),
            fill.start as int,
        ),
        _ => None,
    }
}

/// The bar on which break-even arms: the one after which the simulation holds the break-even stop.
/// `None` where the enter carries no rule, never fills, or exits before a close arms it.
pub fn breakeven_armed_at_resolved(
    resolved: &Resolved,
    order: &Order,
    pip_size: Float,
    path: &[PathBar],
) -> (armed_at: Option<Instant>)
    requires
        timed(path@),
    ensures
        armed_at == arming_bar(*resolved, *order, pip_size, path@),
{
    if !order.breakeven {
        return None;
    }
    let start: usize = match find_fill(resolved, order, path) {
        Some(fill) => fill.start,
        None => {
            return None;
        },
    };
    let episodes: Vec<SpreadWiden> = widen_episodes_at_resolved(
        resolved,
        order,
        pip_size,
        path,
        order.widen_trigger_pips,
    );
    search_arming(resolved, path, &episodes, start)
}

/// Walks the bars from `start` on to the one that arms break-even.
fn search_arming(
    resolved: &Resolved,
    path: &[PathBar],
    episodes: &Vec<SpreadWiden>,
    start: usize,
) -> (armed_at: Option<Instant>)
    requires
        start <= path@.len(),
    ensures
        armed_at == armed_from(*resolved, path@, episodes@, start as int),
{
    let mut i: usize = start;
    while i < path.len()
        invariant
            i <= path@.len(),
            armed_from(*resolved, path@, episodes@, start as int) == armed_from(
                *resolved,
                path@,
                episodes@,
                i as int,
            ),
        decreases path@.len() - i,
    {
        let bar: PathBar = path[i];
        let stop: Float = stop_at(episodes, bar.candle.time, resolved.stop_loss);
        if reaches_stop(resolved, &bar.candle, stop) || reaches_target(resolved, &bar.candle) {
            return None;
        }
        if is_arming(resolved, &bar) && !is_covered(episodes, bar.candle.time) {
            return Some(bar.candle.time);
        }
        i = i + 1;
    }
    None
}

/// Why the periodic sweep cancels a resting order.
#[derive(Clone, Copy, Debug, PartialEq, Eq, Structural)]
pub enum SweepReason {
    /// The alert window has closed.
    Expired,
    /// The bar-based cancel time has come.
    BarExpiry,
    /// The market is in its daily or weekend close.
    Blackout,
    /// Price has traded past the order's stop.
    SlBreached,
}

/// Why a bar makes the sweep cancel the order, the first reason in this order: alert window, bar
/// expiry, blackout, breached stop.
pub open spec fn sweeps(resolved: Resolved, order: Order, bar: PathBar) -> Option<SweepReason> {
    if order.not_after.nanos < bar.candle.time.nanos {
        Some(SweepReason::Expired)
    } else if bar.marks.expiry_due {
        Some(SweepReason::BarExpiry)
    } else if bar.marks.blackout {
        Some(SweepReason::Blackout)
    } else if breached(bar.candle, resolved.direction, resolved.stop_loss) {
        Some(SweepReason::SlBreached)
    } else {
        None
    }
}

/// The first sweep from bar `i` on, with its bar's time.
pub open spec fn sweep_from(resolved: Resolved, order: Order, path: Seq<PathBar>, i: int) -> Option<
    (SweepReason, Instant),
>
    decreases path.len() - i,
{
    if i >= path.len() {
        None
    } else {
        match sweeps(resolved, order, path[i]) {
            Some(reason) => Some((reason, path[i].candle.time)),
            None => sweep_from(resolved, order, path, i + 1),
        }
    }
}

/// Why and when the sweep would have cancelled a resting order. `None` where nothing sweeps it, or
/// where it never rests: a market entry, or an intent that does not resolve.
pub fn sweep_reason(resolved: &Option<Resolved>, order: &Order, path: &[PathBar]) -> (swept:
    Option<(SweepReason, Instant)>)
    ensures
        swept == match *resolved {
            Some(r) if !(r.entry is Market) => sweep_from(r, *order, path@, 1),
            _ => None,
        },
{
    let r: Resolved = match resolved {
        Some(r) => *r,
        None => {
            return None;
        },
    };
    if let ResolvedEntry::Market { .. } = r.entry {
        return None;
    }
    let mut i: usize = 1;
    while i < path.len()
        invariant
            1 <= i,
            sweep_from(r, *order, path@, 1) == sweep_from(r, *order, path@, i as int),
            *resolved == Some(r),
            !(r.entry is Market),
        decreases path@.len() - i,
    {
        let bar: PathBar = path[i];
        let t: Instant = bar.candle.time;
        if order.not_after.nanos < t.nanos {
            return Some((SweepReason::Expired, t));
        }
        if bar.marks.expiry_due {
            return Some((SweepReason::BarExpiry, t));
        }
        if bar.marks.blackout {
            return Some((SweepReason::Blackout, t));
        }
        if breach_detected(&bar.candle, r.direction, r.stop_loss) {
            return Some((SweepReason::SlBreached, t));
        }
        i = i + 1;
    }
    None
}

/// What the spread floor says of a bracket: a stop closer to the entry than ten spreads is moved
/// out to that distance, unless the reward is then too small for the risk.
#[derive(Clone, Copy, Debug, PartialEq, Eq, Structural)]
pub enum SlWiden {
    Unchanged,
    Widened { new_stop_loss: Float },
    Reject,
}

/// What the entry's spread floor came to.
#[derive(Clone, Copy, Debug, PartialEq, Eq, Structural)]
pub enum EntryFloor {
    /// The stop stands, or was moved out; the spread that sized it, in pips.
    Applied { spread_pips: Float },
    /// The entry is declined.
    Rejected,
}

/// The spread that the floor is sized by: the one supplied, else that of the fire bar's close.
pub open spec fn floor_spread(path: Seq<PathBar>, supplied: Option<Float>) -> Option<Float> {
    match supplied {
        Some(spread) => Some(spread),
        None => if path.len() > 0 {
            Some(difference(path[0].candle.ask_c, path[0].candle.bid_c))
        } else {
            None
        },
    }
}

/// The spread that the floor is sized by; `None` without a fire bar.
pub fn entry_spread(path: &[PathBar], supplied: Option<Float>) -> (spread: Option<Float>)
    ensures
        spread == floor_spread(path@, supplied),
{
    match supplied {
        Some(spread) => Some(spread),
        None => if path.len() > 0 {
            Some(path[0].candle.close_spread())
        } else {
            None
        },
    }
}

/// What the floor comes to at a spread, by its verdict.
pub open spec fn floor_of(pip_size: Float, spread: Option<Float>, verdict: SlWiden) -> EntryFloor {
    match spread {
        None => EntryFloor::Applied { spread_pips: Float { bits: 0 } },
        Some(price) => if verdict is Reject {
            EntryFloor::Rejected
        } else if usable_pip(pip_size) {
            EntryFloor::Applied { spread_pips: quotient(price, pip_size) }
        } else {
            EntryFloor::Applied { spread_pips: Float { bits: crate::binary64::NAN_BITS } }
        },
    }
}

/// The placed stop once the floor's verdict at a spread is applied.
pub open spec fn floored_stop(stop_loss: Float, spread: Option<Float>, verdict: SlWiden) -> Float {
    match verdict {
        SlWiden::Widened { new_stop_loss } if spread is Some => new_stop_loss,
        _ => stop_loss,
    }
}

/// Applies the entry's spread floor to the bracket. `verdict` is what the floor says of it at
/// [`entry_spread`]; without a fire bar there is no spread and nothing to apply.
pub fn apply_entry_spread_floor(
    resolved: &mut Resolved,
    pip_size: Float,
    path: &[PathBar],
    supplied: Option<Float>,
    verdict: SlWiden,
) -> (floor: EntryFloor)
    ensures
        floor == floor_of(pip_size, floor_spread(path@, supplied), verdict),
        *final(resolved) == (Resolved {
            stop_loss: floored_stop(
                old(resolved).stop_loss,
                floor_spread(path@, supplied),
                verdict,
            ),
            ..*old(resolved)
        }),
{
    let zero: Float = Float { bits: 0 };
    let price: Float = match entry_spread(path, supplied) {
        Some(price) => price,
        None => {
            return EntryFloor::Applied { spread_pips: zero };
        },
    };
    match verdict {
        SlWiden::Unchanged => {},
        SlWiden::Widened { new_stop_loss } => {
            resolved.stop_loss = new_stop_loss;
        },
        SlWiden::Reject => {
            return EntryFloor::Rejected;
        },
    }
    proof {
        crate::binary64::zero_units();
    }
    let spread_pips: Float = if pip_size.is_finite() && zero.lt(pip_size) {
        price.over(pip_size)
    } else {
        Float { bits: crate::binary64::NAN_BITS }
    };
    EntryFloor::Applied { spread_pips }
}

/// A level that bars the entry once price is past it.
pub struct EntryLevelVeto {
    pub name: String,
    /// The entry price is past the level.
    pub past: bool,
}

/// Why an enter never became an order.
pub enum BracketReject {
    /// The intent did not resolve to levels.
    Unresolved(String),
    /// The entry is past this veto's level.
    LevelVeto(String),
    /// The spread floor leaves too small a reward.
    FloorRejected,
}

/// The first veto from `i` on whose level the entry is past.
pub open spec fn first_veto(vetos: Seq<EntryLevelVeto>, i: int) -> Option<String>
    decreases vetos.len() - i,
{
    if i >= vetos.len() {
        None
    } else if vetos[i].past {
        Some(vetos[i].name)
    } else {
        first_veto(vetos, i + 1)
    }
}

/// The bracket that an enter is placed with, or why it is not: the resolver's error, then the
/// first level veto, then the spread floor.
pub open spec fn effective_bracket(
    resolution: Result<Resolved, String>,
    vetos: Seq<EntryLevelVeto>,
    path: Seq<PathBar>,
    supplied: Option<Float>,
    verdict: SlWiden,
) -> Result<Resolved, BracketReject> {
    match resolution {
        Err(reason) => Err(BracketReject::Unresolved(reason)),
        Ok(resolved) => match first_veto(vetos, 0) {
            Some(name) => Err(BracketReject::LevelVeto(name)),
            None => {
                let spread = floor_spread(path, supplied);
                if spread is Some && verdict is Reject {
                    Err(BracketReject::FloorRejected)
                } else {
                    Ok(
                        Resolved {
                            stop_loss: floored_stop(resolved.stop_loss, spread, verdict),
                            ..resolved
                        },
                    )
                }
            },
        },
    }
}

/// Resolves an enter to the bracket that it is placed with.
pub fn resolve_effective_bracket(
    resolution: Result<Resolved, String>,
    vetos: &Vec<EntryLevelVeto>,
    pip_size: Float,
    path: &[PathBar],
    supplied: Option<Float>,
    verdict: SlWiden,
) -> (bracket: Result<Resolved, BracketReject>)
    ensures
        bracket == effective_bracket(resolution, vetos@, path@, supplied, verdict),
{
    let mut resolved: Resolved = match resolution {
        Ok(resolved) => resolved,
        Err(reason) => {
            return Err(BracketReject::Unresolved(reason));
        },
    };
    let mut i: usize = 0;
    while i < vetos.len()
        invariant
            i <= vetos@.len(),
            first_veto(vetos@, 0) == first_veto(vetos@, i as int),
            resolution == Ok::<Resolved, String>(resolved),
        decreases vetos@.len() - i,
    {
        if vetos[i].past {
            return Err(BracketReject::LevelVeto(vetos[i].name.clone()));
        }
        i = i + 1;
    }
    match apply_entry_spread_floor(&mut resolved, pip_size, path, supplied, verdict) {
        EntryFloor::Rejected => Err(BracketReject::FloorRejected),
        EntryFloor::Applied { .. } => Ok(resolved),
    }
}

/// The name under which an enter is declined whose stop the spread floor refuses.
pub open spec fn floor_decline() -> Seq<char> {
    "sl-widen-below-min-r"@
}

/// The bar on which break-even arms, of an enter resolved from scratch. `None` where the enter never
/// became an order too.
pub fn breakeven_armed_at(
    resolution: Result<Resolved, String>,
    vetos: &Vec<EntryLevelVeto>,
    order: &Order,
    pip_size: Float,
    path: &[PathBar],
    supplied: Option<Float>,
    verdict: SlWiden,
) -> (armed_at: Option<Instant>)
    requires
        timed(path@),
    ensures
        armed_at == match effective_bracket(resolution, vetos@, path@, supplied, verdict) {
            Ok(resolved) => arming_bar(resolved, *order, pip_size, path@),
            Err(_) => None,
        },
{
    match resolve_effective_bracket(resolution, vetos, pip_size, path, supplied, verdict) {
        Ok(resolved) => breakeven_armed_at_resolved(&resolved, order, pip_size, path),
        Err(_) => None,
    }
}

/// The first widen of the open position, of an enter resolved from scratch. `None` where the enter
/// does not resolve, the spread floor refuses it or the pip size is unusable too. No level veto is
/// asked.
pub fn widened_stop_at(
    resolution: Result<Resolved, String>,
    order: &Order,
    pip_size: Float,
    path: &[PathBar],
    widen_trigger_pips: Float,
    supplied: Option<Float>,
    verdict: SlWiden,
) -> (widen: Option<SpreadWiden>)
    requires
        timed(path@),
    ensures
        widen == match effective_bracket(resolution, Seq::empty(), path@, supplied, verdict) {
            Ok(resolved) => {
                let episodes = episodes_of(resolved, *order, pip_size, path@, widen_trigger_pips);
                if episodes.len() > 0 {
                    Some(episodes[0])
                } else {
                    None
                }
            },
            Err(_) => None,
        },
{
    let none: Vec<EntryLevelVeto> = Vec::new();
    assert(none@ =~= Seq::empty());
    match resolve_effective_bracket(resolution, &none, pip_size, path, supplied, verdict) {
        Ok(resolved) => widened_stop_at_resolved(
            &resolved,
            order,
            pip_size,
            path,
            widen_trigger_pips,
        ),
        Err(_) => None,
    }
}

/// The outcome is that of a bracket: of the simulation, or of the rejection.
pub open spec fn front_door(
    bracket: Result<Resolved, BracketReject>,
    order: Order,
    pip_size: Float,
    path: Seq<PathBar>,
    outcome: SimOutcome,
) -> bool {
    match bracket {
        Ok(resolved) => outcome == outcome_with(
            resolved,
            order,
            pip_size,
            path,
            |w: ZoomWindow| Seq::empty(),
        ),
        Err(BracketReject::Unresolved(reason)) => outcome == SimOutcome::Unresolved(reason),
        Err(BracketReject::LevelVeto(name)) => outcome == (SimOutcome::Declined { name }),
        Err(BracketReject::FloorRejected) => outcome matches SimOutcome::Declined { name }
            && name@ == floor_decline(),
    }
}

/// Resolves an enter from scratch and simulates it, with the spread that sizes the floor.
pub fn simulate_fill_windowed(
    resolution: Result<Resolved, String>,
    vetos: &Vec<EntryLevelVeto>,
    order: &Order,
    pip_size: Float,
    path: &[PathBar],
    supplied: Option<Float>,
    verdict: SlWiden,
) -> (outcome: SimOutcome)
    requires
        timed(path@),
    ensures
        front_door(
            effective_bracket(resolution, vetos@, path@, supplied, verdict),
            *order,
            pip_size,
            path@,
            outcome,
        ),
{
    match resolve_effective_bracket(resolution, vetos, pip_size, path, supplied, verdict) {
        Ok(resolved) => simulate_fill_resolved(&resolved, order, pip_size, path),
        Err(BracketReject::Unresolved(reason)) => SimOutcome::Unresolved(reason),
        Err(BracketReject::LevelVeto(name)) => SimOutcome::Declined { name },
        Err(BracketReject::FloorRejected) => SimOutcome::Declined {
            name: "sl-widen-below-min-r".to_owned(),
        },
    }
}

/// [`simulate_fill_windowed`] with the floor sized by the fire bar's own spread.
pub fn simulate_fill(
    resolution: Result<Resolved, String>,
    vetos: &Vec<EntryLevelVeto>,
    order: &Order,
    pip_size: Float,
    path: &[PathBar],
    verdict: SlWiden,
) -> (outcome: SimOutcome)
    requires
        timed(path@),
    ensures
        front_door(
            effective_bracket(resolution, vetos@, path@, None, verdict),
            *order,
            pip_size,
            path@,
            outcome,
        ),
{
    simulate_fill_windowed(resolution, vetos, order, pip_size, path, None, verdict)
}

} // verus!
