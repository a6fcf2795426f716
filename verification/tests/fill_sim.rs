//! The fill simulator over hand-made candle paths. The instrument's calendar, the break-even rule
//! and the spread floor are stood in for by the functions at the top.
use chrono::Datelike;
use replay_candles::binary64::Float;
use replay_candles::fill_sim::{
    apply_entry_spread_floor, bar_seconds_of, breakeven_armed_at as armed_at,
    breakeven_armed_at_resolved, entry_spread, find_fill, infer_bar_len, replay_tick,
    resolve_effective_bracket, simulate_fill as simulate_placed, simulate_fill_resolved_zoom,
    sweep_reason as swept, widen_episodes_at_resolved, widened_stop_at as first_widen,
    widened_stop_at_resolved, zoom_window, BarMarks, BracketReject, Breakeven, EntryFloor,
    EntryLevelVeto, NoZoom, Order, PathBar, Resolved, ResolvedEntry, SimOutcome, SlWiden,
    SpreadWiden, SubBars, SweepReason, WidenLevels, WindowSubBars, ZoomWindow,
};
use replay_candles::market::{BidAskCandle, Direction};
use replay_candles::time::Instant;
use std::cell::RefCell;

const PIP: f64 = 0.0001;
const WIDEN_FLOOR_PIPS: f64 = 22.0;

fn fl(x: f64) -> Float {
    Float { bits: x.to_bits() }
}

fn num(x: Float) -> f64 {
    f64::from_bits(x.bits)
}

fn ts(s: &str) -> Instant {
    let t: chrono::DateTime<chrono::Utc> = s.parse().unwrap();
    Instant::from_seconds(t.timestamp())
}

fn candle(time: &str, o: f64, h: f64, l: f64, c: f64) -> BidAskCandle {
    BidAskCandle {
        time: ts(time),
        o: fl(o),
        h: fl(h),
        l: fl(l),
        c: fl(c),
        bid_o: fl(o),
        bid_h: fl(h),
        bid_l: fl(l),
        bid_c: fl(c),
        ask_o: fl(o),
        ask_h: fl(h),
        ask_l: fl(l),
        ask_c: fl(c),
    }
}

fn ba_candle(time: &str, bid_h: f64, bid_l: f64, ask_h: f64, ask_l: f64) -> BidAskCandle {
    BidAskCandle {
        time: ts(time),
        o: fl((bid_l + ask_h) / 2.0),
        h: fl((bid_h + ask_h) / 2.0),
        l: fl((bid_l + ask_l) / 2.0),
        c: fl((bid_l + ask_h) / 2.0),
        bid_o: fl(bid_l),
        bid_h: fl(bid_h),
        bid_l: fl(bid_l),
        bid_c: fl(bid_l),
        ask_o: fl(ask_h),
        ask_h: fl(ask_h),
        ask_l: fl(ask_l),
        ask_c: fl(ask_h),
    }
}

fn spread_fire_bar(time: &str, mid: f64, spread_price: f64) -> BidAskCandle {
    let half = spread_price / 2.0;
    BidAskCandle {
        time: ts(time),
        o: fl(mid),
        h: fl(mid + 0.0001),
        l: fl(mid - 0.0001),
        c: fl(mid),
        bid_o: fl(mid - half),
        bid_h: fl(mid - half + 0.0001),
        bid_l: fl(mid - half - 0.0001),
        bid_c: fl(mid - half),
        ask_o: fl(mid + half),
        ask_h: fl(mid + half + 0.0001),
        ask_l: fl(mid + half - 0.0001),
        ask_c: fl(mid + half),
    }
}

fn fire_bar() -> BidAskCandle {
    candle("2026-06-17T10:30:00Z", 1.1042, 1.1045, 1.1041, 1.1043)
}

/// An enter with its levels, and what the stand-ins need to know of it.
#[derive(Clone)]
struct Intent {
    instrument: &'static str,
    direction: Direction,
    entry: Result<ResolvedEntry, &'static str>,
    stop_loss: f64,
    take_profit: f64,
    threshold: Option<f64>,
    expiry_bars: Option<u64>,
    not_after: Instant,
    cancel_at: Option<Instant>,
    vetos: Vec<(&'static str, f64)>,
    fired_at: Instant,
}

fn stop(at: f64) -> Result<ResolvedEntry, &'static str> {
    Ok(ResolvedEntry::Stop { trigger_price: fl(at) })
}

/// A long stop-entry at 1.1050, stop 1.1000, target 1.1150.
fn long_stop_intent() -> Intent {
    Intent {
        instrument: "EUR_USD",
        direction: Direction::Long,
        entry: stop(1.1050),
        stop_loss: 1.1000,
        take_profit: 1.1150,
        threshold: None,
        expiry_bars: None,
        not_after: ts("2026-06-30T00:00:00Z"),
        cancel_at: None,
        vetos: Vec::new(),
        fired_at: ts("2026-06-17T10:00:00Z"),
    }
}

/// A short stop-entry at 1.1000, stop 1.1030, target 1.0950.
fn short_stop_intent() -> Intent {
    Intent {
        direction: Direction::Short,
        entry: stop(1.1000),
        stop_loss: 1.1030,
        take_profit: 1.0950,
        ..long_stop_intent()
    }
}

fn set_levels(intent: &mut Intent, entry: f64, sl: f64, tp: f64) {
    intent.entry = stop(entry);
    intent.stop_loss = sl;
    intent.take_profit = tp;
}

// --- the stand-ins -------------------------------------------------------------------------

fn hour(t: Instant) -> i128 {
    (t.nanos / 1_000_000_000).rem_euclid(86_400) / 3_600
}

fn month(t: Instant) -> u32 {
    let secs = (t.nanos / 1_000_000_000) as i64;
    chrono::DateTime::from_timestamp(secs, 0).unwrap().month()
}

fn weekday(t: Instant) -> chrono::Weekday {
    let secs = (t.nanos / 1_000_000_000) as i64;
    chrono::DateTime::from_timestamp(secs, 0).unwrap().weekday()
}

/// Five in the afternoon in New York.
fn ny_close_hour(t: Instant) -> i128 {
    if month(t) == 1 {
        22
    } else {
        21
    }
}

fn ny_close_edge(t: Instant) -> bool {
    hour(t) == ny_close_hour(t)
}

/// The share of the price that a learned spread hour widens by.
fn learned(instrument: &str) -> Option<f64> {
    match instrument {
        "GBP/AUD" => Some(0.00128),
        "EUR/USD" => Some(0.00045),
        _ => None,
    }
}

/// The moment that the stop is widened for a bar in or before a learned spread hour.
fn widen_instant(instrument: &str, t: Instant, bar_secs: i64) -> Option<Instant> {
    learned(instrument)?;
    let secs = t.nanos / 1_000_000_000;
    if ny_close_edge(t) {
        return Some(t);
    }
    let day = secs - secs.rem_euclid(86_400);
    let lead = day + ny_close_hour(t) * 3_600 - 1_800;
    if secs <= lead && lead < secs + bar_secs as i128 {
        Some(Instant { nanos: lead * 1_000_000_000 })
    } else {
        None
    }
}

fn widened(dir: Direction, from: f64, pips: f64) -> f64 {
    match dir {
        Direction::Long => from - pips * PIP,
        Direction::Short => from + pips * PIP,
    }
}

/// The market is closed from Friday 21:00 to Sunday 22:00 UTC.
fn weekend(t: Instant) -> bool {
    match weekday(t) {
        chrono::Weekday::Fri => hour(t) >= 21,
        chrono::Weekday::Sat => true,
        chrono::Weekday::Sun => hour(t) < 22,
        _ => false,
    }
}

fn arming_level(intent: &Intent, entry: f64) -> Option<f64> {
    intent.threshold.map(|t| entry + t * (intent.take_profit - entry))
}

fn close_arms(intent: &Intent, entry: f64, close: f64) -> bool {
    match arming_level(intent, entry) {
        Some(level) => match intent.direction {
            Direction::Long => close >= level,
            Direction::Short => close <= level,
        },
        None => false,
    }
}

/// The stop lies within a tenth of the average range of the last 24 bars from the close.
fn inside_noise(window: &[PathBar], stop: f64) -> bool {
    if window.len() < 24 {
        return false;
    }
    let tail = &window[window.len() - 24..];
    let atr = tail.iter().map(|b| num(b.candle.h) - num(b.candle.l)).sum::<f64>() / 24.0;
    let close = num(window[window.len() - 1].candle.c);
    (close - stop).abs() < 0.1 * atr
}

/// A stop closer than ten spreads is moved out, unless the reward is then below the risk.
fn floor_verdict(intent: &Intent, entry: f64, spread: Option<Float>) -> SlWiden {
    let Some(spread) = spread else {
        return SlWiden::Unchanged;
    };
    let wanted = 10.0 * num(spread);
    if (entry - intent.stop_loss).abs() >= wanted {
        return SlWiden::Unchanged;
    }
    if (intent.take_profit - entry).abs() / wanted < 1.0 {
        return SlWiden::Reject;
    }
    let new_stop = match intent.direction {
        Direction::Long => entry - wanted,
        Direction::Short => entry + wanted,
    };
    SlWiden::Widened { new_stop_loss: fl(new_stop) }
}

fn resolve(intent: &Intent) -> Result<Resolved, String> {
    let entry = intent.entry.map_err(|e| e.to_string())?;
    Ok(Resolved {
        direction: intent.direction,
        entry,
        stop_loss: fl(intent.stop_loss),
        take_profit: fl(intent.take_profit),
        min_r: fl(1.0),
        breakeven: intent.threshold.map(|_| Breakeven { target_stop: entry.reference_price() }),
    })
}

fn order(intent: &Intent) -> Order {
    Order {
        fired_at: intent.fired_at,
        expiry_bars: intent.expiry_bars,
        not_after: intent.not_after,
        breakeven: intent.threshold.is_some(),
        widen_trigger_pips: fl(WIDEN_FLOOR_PIPS),
    }
}

fn plain() -> BarMarks {
    BarMarks {
        spread_hour: false,
        close_arms: false,
        noise_blocks: false,
        widen_at: None,
        ny_close_edge: false,
        learned: WidenLevels { from_placed: fl(0.0), from_breakeven: fl(0.0) },
        clamped: WidenLevels { from_placed: fl(0.0), from_breakeven: fl(0.0) },
        backstop_clear: true,
        blackout: false,
        expiry_due: false,
    }
}

/// The path with its marks, for the bracket that is simulated.
fn marked(intent: &Intent, resolved: &Resolved, candles: &[BidAskCandle]) -> Vec<PathBar> {
    let mut path: Vec<PathBar> =
        candles.iter().map(|c| PathBar { candle: *c, marks: plain() }).collect();
    let secs = bar_seconds_of(&path);
    let entry = num(resolved.entry.reference_price());
    let placed = num(resolved.stop_loss);
    for bar in path.iter_mut() {
        let t = bar.candle.time;
        let spread = (num(bar.candle.ask_c) - num(bar.candle.bid_c)) / PIP;
        let widen_at = widen_instant(intent.instrument, t, secs);
        let dir = intent.direction;
        let hour = |from: f64| {
            let frac = learned(intent.instrument).unwrap_or(0.0);
            fl(widened(dir, from, (frac * from / PIP).max(spread)))
        };
        let live = |from: f64| fl(widened(dir, from, spread.clamp(22.0, 40.0)));
        bar.marks = BarMarks {
            spread_hour: ny_close_edge(t),
            close_arms: close_arms(intent, entry, num(bar.candle.c)),
            widen_at,
            ny_close_edge: ny_close_edge(t),
            learned: WidenLevels { from_placed: hour(placed), from_breakeven: hour(entry) },
            clamped: WidenLevels { from_placed: live(placed), from_breakeven: live(entry) },
            backstop_clear: !ny_close_edge(t),
            blackout: weekend(t),
            expiry_due: intent.cancel_at.is_some_and(|at| at.nanos <= t.nanos),
            ..plain()
        };
    }
    if let Some(fill) = find_fill(resolved, &order(intent), &path) {
        for i in fill.start..path.len() {
            path[i].marks.noise_blocks = inside_noise(&path[fill.start..=i], entry);
        }
    }
    path
}

fn vetos(intent: &Intent, entry: f64) -> Vec<EntryLevelVeto> {
    intent
        .vetos
        .iter()
        .map(|(name, level)| EntryLevelVeto { name: name.to_string(), past: entry >= *level })
        .collect()
}

fn bare(candles: &[BidAskCandle]) -> Vec<PathBar> {
    candles.iter().map(|c| PathBar { candle: *c, marks: plain() }).collect()
}

/// The bracket that the enter is placed with.
fn placed(intent: &Intent, candles: &[BidAskCandle]) -> Result<Resolved, BracketReject> {
    let resolution = resolve(intent);
    let path = bare(candles);
    let entry = resolution.as_ref().map(|r| num(r.entry.reference_price())).unwrap_or(0.0);
    let verdict = floor_verdict(intent, entry, entry_spread(&path, None));
    let barred = vetos(intent, entry);
    resolve_effective_bracket(resolution, &barred, fl(PIP), &path, None, verdict)
}

fn simulate_fill(intent: &Intent, candles: &[BidAskCandle]) -> SimOutcome {
    let (resolution, path, verdict) = from_scratch(intent, candles);
    let entry = resolution.as_ref().map(|r| num(r.entry.reference_price())).unwrap_or(0.0);
    simulate_placed(resolution, &vetos(intent, entry), &order(intent), fl(PIP), &path, verdict)
}

fn breakeven_armed_at(intent: &Intent, candles: &[BidAskCandle]) -> Option<Instant> {
    let (resolution, path, verdict) = from_scratch(intent, candles);
    let entry = resolution.as_ref().map(|r| num(r.entry.reference_price())).unwrap_or(0.0);
    let vetos = vetos(intent, entry);
    let armed = armed_at(resolution, &vetos, &order(intent), fl(PIP), &path, None, verdict);
    let placed_bracket = placed(intent, candles).ok()?;
    assert_eq!(
        armed,
        breakeven_armed_at_resolved(&placed_bracket, &order(intent), fl(PIP), &path)
    );
    armed
}

/// The intent's levels, its path with the marks of the bracket that it is placed with, and what
/// the spread floor says of it.
fn from_scratch(
    intent: &Intent,
    candles: &[BidAskCandle],
) -> (Result<Resolved, String>, Vec<PathBar>, SlWiden) {
    let resolution = resolve(intent);
    let entry = resolution.as_ref().map(|r| num(r.entry.reference_price())).unwrap_or(0.0);
    let verdict = floor_verdict(intent, entry, entry_spread(&bare(candles), None));
    let path = match placed(intent, candles) {
        Ok(resolved) => marked(intent, &resolved, candles),
        Err(_) => bare(candles),
    };
    (resolution, path, verdict)
}

fn widened_stop_at(intent: &Intent, candles: &[BidAskCandle], trigger: f64) -> Option<SpreadWiden> {
    let (resolution, path, verdict) = from_scratch(intent, candles);
    let widen =
        first_widen(resolution, &order(intent), fl(PIP), &path, fl(trigger), None, verdict);
    let resolved = placed(intent, candles).ok()?;
    assert_eq!(
        widen,
        widened_stop_at_resolved(&resolved, &order(intent), fl(PIP), &path, fl(trigger))
    );
    widen
}

fn episodes(intent: &Intent, candles: &[BidAskCandle]) -> Vec<SpreadWiden> {
    let resolved = resolve(intent).unwrap();
    let path = marked(intent, &resolved, candles);
    widen_episodes_at_resolved(&resolved, &order(intent), fl(PIP), &path, fl(22.0))
}

fn sweep_reason(intent: &Intent, candles: &[BidAskCandle]) -> Option<(SweepReason, Instant)> {
    let resolved = resolve(intent).ok();
    let path = match &resolved {
        Some(r) => marked(intent, r, candles),
        None => bare(candles),
    };
    swept(&resolved, &order(intent), &path)
}

fn near(x: Float, y: f64) -> bool {
    (num(x) - y).abs() < 1e-9
}

#[test]
fn prices_are_rounded_to_the_tick_or_else_to_the_pip() {
    assert_eq!(replay_tick(Some(fl(0.00001)), fl(PIP)), fl(0.00001));
    assert_eq!(replay_tick(None, fl(PIP)), fl(PIP));
}

#[test]
fn an_enter_that_is_never_placed_neither_arms_nor_widens() {
    let path = bare(&[fire_bar()]);
    let o = order(&short_stop_intent());
    let none = Vec::new();
    let bad = || Err("no level".to_string());
    let refused = SlWiden::Reject;
    let same = SlWiden::Unchanged;
    assert_eq!(armed_at(bad(), &none, &o, fl(PIP), &path, None, same), None);
    assert_eq!(first_widen(bad(), &o, fl(PIP), &path, fl(22.0), None, same), None);
    let good = || resolve(&short_stop_intent());
    assert_eq!(armed_at(good(), &none, &o, fl(PIP), &path, None, refused), None);
    assert_eq!(first_widen(good(), &o, fl(PIP), &path, fl(22.0), None, refused), None);
}

// --- entry floor ---------------------------------------------------------------------------

#[test]
fn entry_floor_prefers_supplied_window_spread_over_fire_bar() {
    let mut intent = short_stop_intent();
    set_levels(&mut intent, 1.1000, 1.1005, 1.0600);
    let fire = bare(&[ba_candle("2026-06-17T10:30:00Z", 1.0990, 1.0990, 1.1010, 1.1010)]);

    let mut r_fire = resolve(&intent).unwrap();
    let spread = entry_spread(&fire, None);
    let verdict = floor_verdict(&intent, 1.1000, spread);
    let out_fire = apply_entry_spread_floor(&mut r_fire, fl(PIP), &fire, None, verdict);
    assert!(matches!(out_fire, EntryFloor::Applied { .. }), "{out_fire:?}");
    assert!(near(r_fire.stop_loss, 1.1200), "fire-bar spread widens to 1.1200");

    let mut r_win = resolve(&intent).unwrap();
    let spread = entry_spread(&fire, Some(fl(0.0001)));
    let verdict = floor_verdict(&intent, 1.1000, spread);
    let out_win = apply_entry_spread_floor(&mut r_win, fl(PIP), &fire, Some(fl(0.0001)), verdict);
    assert_eq!(out_win, EntryFloor::Applied { spread_pips: fl(0.0001 / 0.0001) });
    assert!(near(r_win.stop_loss, 1.1010), "windowed spread widens to 1.1010");
}

#[test]
fn an_entry_floor_without_a_fire_bar_applies_nothing() {
    let mut r = resolve(&long_stop_intent()).unwrap();
    let before = r;
    let out = apply_entry_spread_floor(&mut r, fl(PIP), &[], None, SlWiden::Reject);
    assert_eq!(out, EntryFloor::Applied { spread_pips: fl(0.0) });
    assert_eq!(r, before);
    // An unusable pip size leaves the spread unmeasured.
    let out = apply_entry_spread_floor(&mut r, fl(0.0), &[], Some(fl(0.0002)), SlWiden::Unchanged);
    match out {
        EntryFloor::Applied { spread_pips } => assert!(num(spread_pips).is_nan()),
        EntryFloor::Rejected => panic!("an unchanged stop is not rejected"),
    }
}

// --- fills ---------------------------------------------------------------------------------

#[test]
fn stop_entry_fills_then_takes_profit() {
    let mut intent = long_stop_intent();
    intent.entry = Err("invalid geometry: long stop at or below close");
    let outcome = simulate_fill(&intent, &[]);
    assert!(matches!(outcome, SimOutcome::Unresolved(_)), "{outcome:?}");
}

#[test]
fn offset_stop_fills_then_tp_then_sl_paths() {
    let intent = long_stop_intent();
    let fills = candle("2026-06-17T11:00:00Z", 1.1042, 1.1055, 1.1041, 1.1052);
    let tp_path =
        [fire_bar(), fills, candle("2026-06-17T12:00:00Z", 1.1052, 1.1160, 1.1050, 1.1155)];
    match simulate_fill(&intent, &tp_path) {
        SimOutcome::TookProfit { entry_price, exit_price, .. } => {
            assert!(near(entry_price, 1.1050));
            assert!(near(exit_price, 1.1150));
        }
        other => panic!("expected TookProfit, got {other:?}"),
    }
    let sl_path =
        [fire_bar(), fills, candle("2026-06-17T12:00:00Z", 1.1050, 1.1051, 1.0995, 1.1000)];
    match simulate_fill(&intent, &sl_path) {
        SimOutcome::StoppedOut { exit_price, .. } => assert!(near(exit_price, 1.1000)),
        other => panic!("expected StoppedOut, got {other:?}"),
    }
    let no_fill = [fire_bar(), candle("2026-06-17T11:00:00Z", 1.1041, 1.1045, 1.1038, 1.1043)];
    assert_eq!(simulate_fill(&intent, &no_fill), SimOutcome::NeverFilled);
    let still_open =
        [fire_bar(), fills, candle("2026-06-17T12:00:00Z", 1.1052, 1.1060, 1.1048, 1.1055)];
    assert!(matches!(simulate_fill(&intent, &still_open), SimOutcome::FilledOpen { .. }));
}

#[test]
fn long_stop_fills_when_price_gaps_up_through_trigger() {
    let gap_up = [
        fire_bar(),
        candle("2026-06-17T11:00:00Z", 1.1052, 1.1060, 1.1051, 1.1058),
        candle("2026-06-17T12:00:00Z", 1.1058, 1.1160, 1.1056, 1.1155),
    ];
    match simulate_fill(&long_stop_intent(), &gap_up) {
        SimOutcome::TookProfit { entry_price, .. } => {
            assert!(near(entry_price, 1.1050), "fills at the stop trigger, not the gap-open price")
        }
        other => panic!("gapped-through long stop must fill, got {other:?}"),
    }
}

#[test]
fn short_stop_fills_when_price_gaps_down_through_trigger() {
    let gap_down = [
        fire_bar(),
        candle("2026-06-17T11:00:00Z", 1.0998, 1.0999, 1.0990, 1.0992),
        candle("2026-06-17T12:00:00Z", 1.0992, 1.0994, 1.0945, 1.0948),
    ];
    match simulate_fill(&short_stop_intent(), &gap_down) {
        SimOutcome::TookProfit { entry_price, .. } => assert!(near(entry_price, 1.1000)),
        other => panic!("gapped-through short stop must fill, got {other:?}"),
    }
}

#[test]
fn pending_stop_does_not_fill_on_a_spread_hour_bar() {
    let path = [
        candle("2026-06-17T20:00:00Z", 1.1042, 1.1045, 1.1041, 1.1043),
        candle("2026-06-17T21:00:00Z", 1.0998, 1.1002, 1.0990, 1.0995),
        candle("2026-06-17T23:00:00Z", 1.0999, 1.1001, 1.0992, 1.0996),
        candle("2026-06-18T00:00:00Z", 1.0994, 1.0996, 1.0945, 1.0948),
    ];
    match simulate_fill(&short_stop_intent(), &path) {
        SimOutcome::TookProfit { fill_at, entry_price, .. } => {
            assert_eq!(fill_at, ts("2026-06-17T23:00:00Z"));
            assert!(near(entry_price, 1.1000));
        }
        other => panic!("expected a clean-bar fill then TP, got {other:?}"),
    }
}

#[test]
fn pending_stop_fills_on_the_same_bar_off_a_spread_hour() {
    let path = [
        candle("2026-06-17T10:30:00Z", 1.1042, 1.1045, 1.1041, 1.1043),
        candle("2026-06-17T11:00:00Z", 1.0998, 1.1002, 1.0990, 1.0995),
        candle("2026-06-17T12:00:00Z", 1.0994, 1.0996, 1.0945, 1.0948),
    ];
    match simulate_fill(&short_stop_intent(), &path) {
        SimOutcome::TookProfit { fill_at, .. } => assert_eq!(fill_at, ts("2026-06-17T11:00:00Z")),
        other => panic!("expected an immediate fill then TP, got {other:?}"),
    }
}

#[test]
fn spread_hour_suppression_is_dst_invariant() {
    let mut intent = short_stop_intent();
    intent.instrument = "AUD_CHF";
    let summer_path = [
        candle("2026-07-09T20:00:00Z", 1.1042, 1.1045, 1.1041, 1.1043),
        candle("2026-07-09T21:00:00Z", 1.0998, 1.1002, 1.0990, 1.0995),
        candle("2026-07-09T23:00:00Z", 1.0999, 1.1001, 1.0992, 1.0996),
        candle("2026-07-10T00:00:00Z", 1.0994, 1.0996, 1.0945, 1.0948),
    ];
    match simulate_fill(&intent, &summer_path) {
        SimOutcome::TookProfit { fill_at, .. } => assert_eq!(fill_at, ts("2026-07-09T23:00:00Z")),
        other => panic!("summer: expected clean-bar fill then TP, got {other:?}"),
    }
    let winter_path = [
        candle("2026-01-15T21:00:00Z", 1.1042, 1.1045, 1.1041, 1.1043),
        candle("2026-01-15T22:00:00Z", 1.0998, 1.1002, 1.0990, 1.0995),
        candle("2026-01-15T23:00:00Z", 1.0999, 1.1001, 1.0992, 1.0996),
        candle("2026-01-16T00:00:00Z", 1.0994, 1.0996, 1.0945, 1.0948),
    ];
    match simulate_fill(&intent, &winter_path) {
        SimOutcome::TookProfit { fill_at, .. } => assert_eq!(fill_at, ts("2026-01-15T23:00:00Z")),
        other => panic!("winter: expected clean-bar fill then TP, got {other:?}"),
    }
}

#[test]
fn long_stops_out_when_price_gaps_down_through_sl() {
    let gap_sl = [
        fire_bar(),
        candle("2026-06-17T11:00:00Z", 1.1042, 1.1055, 1.1041, 1.1052),
        candle("2026-06-17T12:00:00Z", 1.0990, 1.0990, 1.0980, 1.0985),
    ];
    match simulate_fill(&long_stop_intent(), &gap_sl) {
        SimOutcome::StoppedOut { exit_price, .. } => assert!(near(exit_price, 1.1000)),
        other => panic!("gapped-through SL must stop out, got {other:?}"),
    }
}

#[test]
fn entry_level_veto_flips_loss_to_no_fill() {
    let mut intent = long_stop_intent();
    let sl_path = [
        fire_bar(),
        candle("2026-06-17T11:00:00Z", 1.1042, 1.1055, 1.1041, 1.1052),
        candle("2026-06-17T12:00:00Z", 1.1050, 1.1051, 1.0995, 1.1000),
    ];
    assert!(matches!(simulate_fill(&intent, &sl_path), SimOutcome::StoppedOut { .. }));
    intent.vetos = vec![("too-high", 1.1040)];
    assert_eq!(
        simulate_fill(&intent, &sl_path),
        SimOutcome::Declined { name: "too-high".to_string() }
    );
    intent.vetos = vec![("too-high", 1.1060)];
    assert!(matches!(simulate_fill(&intent, &sl_path), SimOutcome::StoppedOut { .. }));
}

const EDGE_TS: &str = "2026-03-12T21:00:00Z";
const NON_EDGE_TS: &str = "2026-03-12T10:00:00Z";

#[test]
fn wide_fire_bar_spread_trips_the_sl_floor_decline() {
    let path = [spread_fire_bar(NON_EDGE_TS, 1.1040, 0.0030)];
    assert_eq!(
        simulate_fill(&long_stop_intent(), &path),
        SimOutcome::Declined { name: "sl-widen-below-min-r".to_string() }
    );
}

#[test]
fn widened_sl_protects_the_leg_in_the_fill_path() {
    let fire = spread_fire_bar(NON_EDGE_TS, 1.1040, 0.0006);
    let fill_bar = ba_candle("2026-03-12T11:00:00Z", 1.1052, 1.1045, 1.1055, 1.1048);
    let dip_bar = ba_candle("2026-03-12T12:00:00Z", 1.1010, 1.0994, 1.1015, 1.0998);
    let out = simulate_fill(&long_stop_intent(), &[fire, fill_bar, dip_bar]);
    assert!(matches!(out, SimOutcome::FilledOpen { .. }), "leg must survive, got {out:?}");
}

#[test]
fn breakeven_armed_at_applies_the_sl_spread_floor() {
    let mut intent = long_stop_intent();
    intent.threshold = Some(0.5);
    let fire = spread_fire_bar(NON_EDGE_TS, 1.1040, 0.0006);
    let fill_bar = ba_candle("2026-03-12T11:00:00Z", 1.1052, 1.1045, 1.1055, 1.1048);
    let dip_bar = ba_candle("2026-03-12T12:00:00Z", 1.1010, 1.0994, 1.1015, 1.0998);
    let arm_bar = ba_candle("2026-03-12T13:00:00Z", 1.1110, 1.1103, 1.1112, 1.1105);
    let path = [fire, fill_bar, dip_bar, arm_bar];
    assert_eq!(breakeven_armed_at(&intent, &path), Some(arm_bar.time));
}

#[test]
fn mid_only_feed_never_blacks_out() {
    let path = [candle(EDGE_TS, 1.1040, 1.1041, 1.1039, 1.1040)];
    assert_eq!(simulate_fill(&long_stop_intent(), &path), SimOutcome::NeverFilled);
}

// --- break-even ----------------------------------------------------------------------------

#[test]
fn breakeven_scratches_a_leg_that_runs_50pct_then_reverses() {
    let mut intent = short_stop_intent();
    set_levels(&mut intent, 1.1000, 1.1040, 1.0900);
    let fill_bar = candle("2026-06-17T11:00:00Z", 1.1005, 1.1005, 1.0995, 1.1000);
    let runs_past_50 = candle("2026-06-17T12:00:00Z", 1.0990, 1.0992, 1.0935, 1.0940);
    let bounce = candle("2026-06-17T13:00:00Z", 1.0945, 1.1041, 1.0944, 1.1000);
    let path = [fire_bar(), fill_bar, runs_past_50, bounce];
    match simulate_fill(&intent, &path) {
        SimOutcome::StoppedOut { exit_price, .. } => assert!(near(exit_price, 1.1040)),
        other => panic!("no-BE: expected StoppedOut at original SL, got {other:?}"),
    }
    intent.threshold = Some(0.5);
    match simulate_fill(&intent, &path) {
        SimOutcome::StoppedOut { exit_price, entry_price, .. } => {
            assert!(near(exit_price, 1.1000));
            assert!((num(exit_price) - num(entry_price)).abs() < 1e-9);
        }
        other => panic!("BE: expected break-even stop-out at entry, got {other:?}"),
    }
}

fn quiet_bars(first: &str, n: i64, close: f64, range: f64) -> Vec<BidAskCandle> {
    let t0 = ts(first);
    (0..n)
        .map(|i| {
            let mut c = candle(first, close, close + range / 2.0, close - range / 2.0, close);
            c.time = Instant { nanos: t0.nanos + i as i128 * 3_600_000_000_000 };
            c
        })
        .collect()
}

#[test]
fn replay_refuses_a_breakeven_that_lands_inside_the_noise_floor() {
    let mut intent = short_stop_intent();
    set_levels(&mut intent, 1.1000, 1.1040, 1.0900);
    intent.threshold = Some(0.001);
    let mut path = vec![fire_bar()];
    path.push(candle("2026-06-17T11:00:00Z", 1.1005, 1.1006, 1.09985, 1.10010));
    path.extend(quiet_bars("2026-06-17T12:00:00Z", 30, 1.10010, 0.0020));
    path.push(candle("2026-06-18T18:00:00Z", 1.10010, 1.10015, 1.09985, 1.09990));
    path.push(candle("2026-06-18T19:00:00Z", 1.0999, 1.1045, 1.0998, 1.1042));
    match simulate_fill(&intent, &path) {
        SimOutcome::StoppedOut { exit_price, .. } => {
            assert!(near(exit_price, 1.1040), "exited at {}", num(exit_price))
        }
        other => panic!("expected a stop-out at the original SL, got {other:?}"),
    }
}

#[test]
fn replay_still_arms_a_breakeven_that_clears_the_noise_floor() {
    let mut intent = short_stop_intent();
    set_levels(&mut intent, 1.1000, 1.1040, 1.0900);
    intent.threshold = Some(0.5);
    let mut path = vec![fire_bar()];
    path.push(candle("2026-06-17T11:00:00Z", 1.1005, 1.1006, 1.09990, 1.09995));
    path.push(candle("2026-06-17T12:00:00Z", 1.0990, 1.0992, 1.0945, 1.0950));
    path.extend(quiet_bars("2026-06-17T13:00:00Z", 40, 1.09500, 0.0020));
    path.push(candle("2026-06-19T10:00:00Z", 1.0950, 1.1045, 1.0949, 1.1042));
    match simulate_fill(&intent, &path) {
        SimOutcome::StoppedOut { exit_price, entry_price, .. } => {
            assert!(near(exit_price, 1.1000), "exited at {}", num(exit_price));
            assert!((num(exit_price) - num(entry_price)).abs() < 1e-9, "a 0R scratch");
        }
        other => panic!("expected a break-even stop-out at entry, got {other:?}"),
    }
}

#[test]
fn replay_breakeven_fails_open_when_the_atr_is_unjudgeable() {
    let mut intent = short_stop_intent();
    set_levels(&mut intent, 1.1000, 1.1040, 1.0900);
    intent.threshold = Some(0.001);
    let path = [
        fire_bar(),
        candle("2026-06-17T11:00:00Z", 1.1005, 1.1006, 1.09985, 1.09990),
        candle("2026-06-17T12:00:00Z", 1.09990, 1.10450, 1.09980, 1.10420),
    ];
    match simulate_fill(&intent, &path) {
        SimOutcome::StoppedOut { exit_price, .. } => {
            assert!(near(exit_price, 1.1000), "exited at {}", num(exit_price))
        }
        other => panic!("expected a break-even stop-out at entry, got {other:?}"),
    }
}

#[test]
fn breakeven_armed_at_reports_the_arming_bar() {
    let mut intent = short_stop_intent();
    set_levels(&mut intent, 1.1000, 1.1040, 1.0900);
    intent.threshold = Some(0.5);
    let fill_bar = candle("2026-06-17T11:00:00Z", 1.1005, 1.1005, 1.0995, 1.1000);
    let runs_past_50 = candle("2026-06-17T12:00:00Z", 1.0990, 1.0992, 1.0935, 1.0940);
    let bounce = candle("2026-06-17T13:00:00Z", 1.0945, 1.1041, 1.0944, 1.1000);
    let path = [fire_bar(), fill_bar, runs_past_50, bounce];
    assert_eq!(breakeven_armed_at(&intent, &path), Some(runs_past_50.time));
}

#[test]
fn breakeven_armed_at_is_none_without_a_rule() {
    let mut intent = short_stop_intent();
    set_levels(&mut intent, 1.1000, 1.1040, 1.0900);
    let fill_bar = candle("2026-06-17T11:00:00Z", 1.1005, 1.1005, 1.0995, 1.1000);
    let runs_past_50 = candle("2026-06-17T12:00:00Z", 1.0990, 1.0992, 1.0935, 1.0940);
    assert_eq!(breakeven_armed_at(&intent, &[fire_bar(), fill_bar, runs_past_50]), None);
}

#[test]
fn breakeven_armed_at_is_none_when_stopped_before_arming() {
    let mut intent = short_stop_intent();
    set_levels(&mut intent, 1.1000, 1.1040, 1.0900);
    intent.threshold = Some(0.5);
    let fill_bar = candle("2026-06-17T11:00:00Z", 1.1005, 1.1005, 1.0995, 1.1000);
    let straight_to_sl = candle("2026-06-17T12:00:00Z", 1.1005, 1.1041, 1.1000, 1.1030);
    assert_eq!(breakeven_armed_at(&intent, &[fire_bar(), fill_bar, straight_to_sl]), None);
}

#[test]
fn breakeven_does_not_arm_on_a_wick() {
    let mut intent = short_stop_intent();
    set_levels(&mut intent, 1.1000, 1.1040, 1.0900);
    intent.threshold = Some(0.5);
    let fill_bar = candle("2026-06-17T11:00:00Z", 1.1005, 1.1005, 1.0995, 1.1000);
    let wick_only = candle("2026-06-17T12:00:00Z", 1.0990, 1.0992, 1.0935, 1.0960);
    let bounce = candle("2026-06-17T13:00:00Z", 1.0965, 1.1041, 1.0960, 1.1000);
    match simulate_fill(&intent, &[fire_bar(), fill_bar, wick_only, bounce]) {
        SimOutcome::StoppedOut { exit_price, .. } => assert!(near(exit_price, 1.1040)),
        other => panic!("expected StoppedOut at original SL (no BE arm), got {other:?}"),
    }
}

// --- widens --------------------------------------------------------------------------------

fn long_widen_intent() -> Intent {
    let mut intent = long_stop_intent();
    set_levels(&mut intent, 1.1000, 1.0950, 1.1100);
    intent
}

fn widen_fill_bar() -> BidAskCandle {
    candle("2026-06-17T11:00:00Z", 1.1000, 1.1001, 1.0999, 1.1000)
}

fn wide_at(time: &str) -> BidAskCandle {
    ba_candle(time, 1.10015, 1.10010, 1.10315, 1.10310)
}

fn tight_at(time: &str) -> BidAskCandle {
    ba_candle(time, 1.10010, 1.10005, 1.10030, 1.10025)
}

#[test]
fn widened_stop_at_baseline_is_the_floored_stop_not_the_signed_sl() {
    let mut intent = long_stop_intent();
    set_levels(&mut intent, 1.1000, 1.0995, 1.1100);
    let fire = ba_candle("2026-06-17T10:30:00Z", 1.10150, 1.10120, 1.10150, 1.10120);
    let path = [fire, widen_fill_bar(), wide_at("2026-06-17T21:00:00Z")];
    let widen = widened_stop_at(&intent, &path, WIDEN_FLOOR_PIPS)
        .expect("the NY-close-edge bar must trip the widen");
    assert!(near(widen.original_stop, 1.0970), "got {}", num(widen.original_stop));
    assert!(num(widen.widened_stop) < 1.0970);
}

#[test]
fn widened_stop_at_reports_the_widen_bar_for_a_long() {
    let wide = wide_at("2026-06-17T21:00:00Z");
    let spread_pips = (num(wide.ask_c) - num(wide.bid_c)) / 0.0001;
    let widen =
        widened_stop_at(&long_widen_intent(), &[fire_bar(), widen_fill_bar(), wide], WIDEN_FLOOR_PIPS)
            .expect("a 30.5-pip spread bar must trip the widen");
    assert_eq!(widen.at, wide.time);
    assert_eq!(num(widen.widen_spread_pips), spread_pips);
    assert!(near(widen.original_stop, 1.0950));
    assert!(near(widen.widened_stop, widened(Direction::Long, 1.0950, spread_pips)));
    assert!(num(widen.widened_stop) < 1.0950, "a long widen moves the SL DOWN");
}

#[test]
fn widened_stop_at_ignores_a_wide_bar_off_the_ny_close_edge() {
    let path = [fire_bar(), widen_fill_bar(), wide_at("2026-06-17T12:00:00Z")];
    assert_eq!(widened_stop_at(&long_widen_intent(), &path, WIDEN_FLOOR_PIPS), None);
}

#[test]
fn widened_stop_at_widens_on_the_ny_close_bar_not_the_first_wide_bar() {
    let on_edge = wide_at("2026-06-17T21:00:00Z");
    let path = [fire_bar(), widen_fill_bar(), wide_at("2026-06-17T12:00:00Z"), on_edge];
    let widen = widened_stop_at(&long_widen_intent(), &path, WIDEN_FLOOR_PIPS)
        .expect("the NY-close-edge bar must trip the widen");
    assert_eq!(widen.at, on_edge.time);
}

#[test]
fn widened_stop_at_uses_baked_p90_for_a_sampled_instrument() {
    let mut intent = long_widen_intent();
    intent.instrument = "EUR/USD";
    let tight = tight_at("2026-06-17T21:00:00Z");
    let widen =
        widened_stop_at(&intent, &[fire_bar(), widen_fill_bar(), tight], WIDEN_FLOOR_PIPS)
            .expect("the baked spread hour must trip the widen even on a tight-spread bar");
    assert_eq!(widen.at, tight.time);
    let baked = 0.00045 * num(widen.original_stop) / 0.0001;
    let expected = num(widen.original_stop) - baked * 0.0001;
    assert!(near(widen.widened_stop, expected), "got {}", num(widen.widened_stop));
    assert!(baked < WIDEN_FLOOR_PIPS, "baked p90 {baked} should be < 22p floor");
}

#[test]
fn widened_stop_at_reports_the_sub_candle_lead_instant_on_h1() {
    let mut intent = long_widen_intent();
    intent.instrument = "GBP/AUD";
    let path = [
        fire_bar(),
        candle("2026-07-13T11:00:00Z", 1.1000, 1.1001, 1.0999, 1.1000),
        tight_at("2026-07-13T20:00:00Z"),
        wide_at("2026-07-13T21:00:00Z"),
    ];
    assert_eq!(bar_seconds_of(&bare(&path)), 3600, "path must be H1-spaced");
    let widen = widened_stop_at(&intent, &path, WIDEN_FLOOR_PIPS)
        .expect("the widen must pre-arm ahead of the 21:00 spread hour");
    assert_eq!(widen.at, ts("2026-07-13T20:30:00Z"));
    assert_eq!(widen.effective_from, ts("2026-07-13T20:00:00Z"));
}

#[test]
fn simulate_fill_survives_spread_hour_spike_via_the_widened_stop() {
    let mut intent = short_stop_intent();
    intent.instrument = "GBP/AUD";
    let path = [
        fire_bar(),
        ba_candle("2026-07-13T19:00:00Z", 1.1000, 1.0999, 1.1002, 1.1001),
        tight_at("2026-07-13T20:00:00Z"),
        ba_candle("2026-07-13T21:00:00Z", 1.10330, 1.10300, 1.10350, 1.10320),
        ba_candle("2026-07-13T22:00:00Z", 1.09500, 1.09480, 1.09520, 1.09500),
    ];
    let widen = widened_stop_at(&intent, &path, 22.0)
        .expect("21:00Z spread hour must widen the short stop");
    assert!(num(widen.widened_stop) > 1.10350);
    assert!(num(widen.original_stop) <= 1.10300);
    match simulate_fill(&intent, &path) {
        SimOutcome::TookProfit { .. } => {}
        other => panic!("widen must save the trade → TookProfit, got {other:?}"),
    }
}

#[test]
fn simulate_fill_stops_out_at_the_widened_stop_when_the_spike_overruns_it() {
    let mut intent = short_stop_intent();
    intent.instrument = "GBP/AUD";
    let path = [
        fire_bar(),
        ba_candle("2026-07-13T19:00:00Z", 1.1000, 1.0999, 1.1002, 1.1001),
        tight_at("2026-07-13T20:00:00Z"),
        ba_candle("2026-07-13T21:00:00Z", 1.10560, 1.10500, 1.10600, 1.10520),
    ];
    let widen = widened_stop_at(&intent, &path, 22.0).expect("spread hour widens the stop");
    match simulate_fill(&intent, &path) {
        SimOutcome::StoppedOut { exit_price, .. } => {
            assert!(near(exit_price, num(widen.widened_stop)))
        }
        other => panic!("an overrun spike still stops out, got {other:?}"),
    }
}

#[test]
fn widened_stop_at_reports_restore_on_spread_recovery() {
    let wide = wide_at("2026-06-17T21:00:00Z");
    let recovered = tight_at("2026-06-17T22:00:00Z");
    let path = [fire_bar(), widen_fill_bar(), wide, recovered];
    let widen = widened_stop_at(&long_widen_intent(), &path, WIDEN_FLOOR_PIPS).unwrap();
    assert_eq!(widen.at, wide.time);
    assert_eq!(widen.restored_at, Some(recovered.time));
}

#[test]
fn widened_stop_at_restore_is_none_when_spread_stays_wide() {
    let path = [
        fire_bar(),
        widen_fill_bar(),
        wide_at("2026-06-17T21:00:00Z"),
        wide_at("2026-06-17T22:00:00Z"),
    ];
    let widen = widened_stop_at(&long_widen_intent(), &path, WIDEN_FLOOR_PIPS).unwrap();
    assert_eq!(widen.restored_at, None);
}

#[test]
fn widened_stop_at_restore_fires_on_the_safety_ceiling() {
    let safety = wide_at("2026-06-18T09:00:00Z");
    let path = [
        fire_bar(),
        widen_fill_bar(),
        wide_at("2026-06-17T21:00:00Z"),
        wide_at("2026-06-18T00:00:00Z"),
        safety,
    ];
    let widen = widened_stop_at(&long_widen_intent(), &path, WIDEN_FLOOR_PIPS).unwrap();
    assert_eq!(widen.restored_at, Some(safety.time));
}

#[test]
fn widened_stop_at_is_none_when_spread_stays_tight() {
    let path = [fire_bar(), widen_fill_bar(), tight_at("2026-06-17T12:00:00Z")];
    assert_eq!(widened_stop_at(&long_widen_intent(), &path, WIDEN_FLOOR_PIPS), None);
}

#[test]
fn widened_stop_at_is_none_when_stopped_before_widen() {
    let path = [
        fire_bar(),
        widen_fill_bar(),
        candle("2026-06-17T12:00:00Z", 1.0990, 1.0991, 1.0949, 1.0951),
        wide_at("2026-06-17T13:00:00Z"),
    ];
    assert_eq!(widened_stop_at(&long_widen_intent(), &path, WIDEN_FLOOR_PIPS), None);
}

#[test]
fn an_unusable_pip_size_widens_nothing() {
    let intent = long_widen_intent();
    let resolved = resolve(&intent).unwrap();
    let candles = [fire_bar(), widen_fill_bar(), wide_at("2026-06-17T21:00:00Z")];
    let path = marked(&intent, &resolved, &candles);
    for pip in [0.0, -0.0001, f64::NAN, f64::INFINITY] {
        let eps =
            widen_episodes_at_resolved(&resolved, &order(&intent), fl(pip), &path, fl(22.0));
        assert!(eps.is_empty(), "pip {pip}");
    }
}

#[test]
fn every_spread_hour_of_a_long_trade_widens_again() {
    let mut intent = long_widen_intent();
    intent.instrument = "EUR/USD";
    let path = [
        fire_bar(),
        widen_fill_bar(),
        wide_at("2026-06-17T21:00:00Z"),
        tight_at("2026-06-17T22:00:00Z"),
        wide_at("2026-06-18T21:00:00Z"),
        tight_at("2026-06-18T22:00:00Z"),
    ];
    let eps = episodes(&intent, &path);
    assert_eq!(eps.len(), 2);
    assert_eq!(eps[0].restored_at, Some(ts("2026-06-17T22:00:00Z")));
    assert_eq!(eps[1].effective_from, ts("2026-06-18T21:00:00Z"));
    assert!(eps[0].restored_at.unwrap().nanos <= eps[1].effective_from.nanos);
}

#[test]
fn ambiguous_candle_resolves_to_stop() {
    let both = [
        fire_bar(),
        candle("2026-06-17T11:00:00Z", 1.1042, 1.1055, 1.1041, 1.1052),
        candle("2026-06-17T12:00:00Z", 1.1050, 1.1160, 1.0995, 1.1100),
    ];
    assert!(matches!(simulate_fill(&long_stop_intent(), &both), SimOutcome::StoppedOut { .. }));
}

#[test]
fn short_sl_triggers_on_the_ask_book() {
    let intent = short_stop_intent();
    let sl_bar = ba_candle("2026-06-17T10:30:00Z", 1.1027, 1.1008, 1.1031, 1.1012);
    let fill_bar = ba_candle("2026-06-17T10:15:00Z", 1.1000, 1.0996, 1.1004, 1.1000);
    match simulate_fill(&intent, &[fire_bar(), fill_bar, sl_bar]) {
        SimOutcome::StoppedOut { exit_price, entry_price, .. } => {
            assert!(near(exit_price, 1.1030));
            assert!(near(entry_price, 1.1000));
        }
        other => panic!("expected ask-side stop-out, got {other:?}"),
    }
    let near_miss = ba_candle("2026-06-17T10:45:00Z", 1.1027, 1.1008, 1.1029, 1.1012);
    assert!(matches!(
        simulate_fill(&intent, &[fire_bar(), fill_bar, near_miss]),
        SimOutcome::FilledOpen { .. }
    ));
}

#[test]
fn atr_buffered_short_stop_fills_at_buffered_trigger() {
    let buffered_trigger = 1.1000 - (0.5 / 100.0) * 0.0040;
    let mut intent = short_stop_intent();
    intent.entry = stop(buffered_trigger);
    let fill_bar = ba_candle(
        "2026-06-17T10:15:00Z",
        buffered_trigger,
        buffered_trigger - 0.0010,
        buffered_trigger + 0.0004,
        buffered_trigger,
    );
    match simulate_fill(&intent, &[fire_bar(), fill_bar]) {
        SimOutcome::FilledOpen { entry_price, .. } => assert!(near(entry_price, buffered_trigger)),
        other => panic!("expected fill at the ATR-buffered trigger, got {other:?}"),
    }
}

#[test]
fn atr_buffered_enter_with_no_atr_is_unresolved() {
    let mut intent = short_stop_intent();
    intent.entry = Err("no ATR");
    assert_eq!(
        simulate_fill(&intent, &[fire_bar()]),
        SimOutcome::Unresolved("no ATR".to_string())
    );
}

#[test]
fn pending_entry_does_not_fill_on_the_fire_bar() {
    let intent = long_stop_intent();
    let fire_crosses = candle("2026-06-17T10:30:00Z", 1.1045, 1.1060, 1.1044, 1.1052);
    assert_eq!(simulate_fill(&intent, &[fire_crosses]), SimOutcome::NeverFilled);
    let path = [
        fire_crosses,
        candle("2026-06-17T11:00:00Z", 1.1048, 1.1055, 1.1047, 1.1052),
        candle("2026-06-17T12:00:00Z", 1.1052, 1.1160, 1.1050, 1.1155),
    ];
    match simulate_fill(&intent, &path) {
        SimOutcome::TookProfit { fill_at, .. } => assert_eq!(fill_at, ts("2026-06-17T11:00:00Z")),
        other => panic!("expected TookProfit filled on the post-fire bar, got {other:?}"),
    }
}

#[test]
fn fill_bar_can_stop_out_same_bar() {
    let intent = long_stop_intent();
    let path = [fire_bar(), candle("2026-06-17T11:00:00Z", 1.1048, 1.1055, 1.0995, 1.1010)];
    match simulate_fill(&intent, &path) {
        SimOutcome::StoppedOut { fill_at, exit_at, .. } => {
            assert_eq!(fill_at, ts("2026-06-17T11:00:00Z"));
            assert_eq!(exit_at, ts("2026-06-17T11:00:00Z"));
        }
        other => panic!("expected same-bar StoppedOut, got {other:?}"),
    }
    let still_open = [fire_bar(), candle("2026-06-17T11:00:00Z", 1.1048, 1.1055, 1.1047, 1.1052)];
    assert!(matches!(simulate_fill(&intent, &still_open), SimOutcome::FilledOpen { .. }));
}

#[test]
fn bar_expiry_cancels_a_late_fill() {
    let mut intent = long_stop_intent();
    intent.expiry_bars = Some(2);
    let no_cross = |t: &str| candle(t, 1.1041, 1.1045, 1.1038, 1.1043);
    let late = [
        fire_bar(),
        no_cross("2026-06-17T11:00:00Z"),
        no_cross("2026-06-17T12:00:00Z"),
        candle("2026-06-17T13:00:00Z", 1.1048, 1.1055, 1.1047, 1.1052),
    ];
    assert_eq!(simulate_fill(&intent, &late), SimOutcome::NeverFilled);
    let in_time = [
        fire_bar(),
        no_cross("2026-06-17T11:00:00Z"),
        candle("2026-06-17T12:00:00Z", 1.1048, 1.1055, 1.1047, 1.1052),
    ];
    assert!(matches!(simulate_fill(&intent, &in_time), SimOutcome::FilledOpen { .. }));
}

#[test]
fn a_market_entry_fills_at_once_and_a_limit_from_the_other_side() {
    let mut intent = long_stop_intent();
    intent.entry = Ok(ResolvedEntry::Market { reference_price: fl(1.1043) });
    match simulate_fill(&intent, &[fire_bar()]) {
        SimOutcome::FilledOpen { fill_at, entry_price } => {
            assert_eq!(fill_at, intent.fired_at);
            assert!(near(entry_price, 1.1043));
        }
        other => panic!("a market entry fills at once, got {other:?}"),
    }
    // A long limit waits below: price must fall to it.
    intent.entry = Ok(ResolvedEntry::Limit { trigger_price: fl(1.1020) });
    let above = [fire_bar(), candle("2026-06-17T11:00:00Z", 1.1042, 1.1060, 1.1030, 1.1052)];
    assert_eq!(simulate_fill(&intent, &above), SimOutcome::NeverFilled);
    let falls = [fire_bar(), candle("2026-06-17T11:00:00Z", 1.1042, 1.1044, 1.1015, 1.1022)];
    assert!(matches!(simulate_fill(&intent, &falls), SimOutcome::FilledOpen { .. }));
    // A short limit waits above.
    let mut short = short_stop_intent();
    short.entry = Ok(ResolvedEntry::Limit { trigger_price: fl(1.1010) });
    let rises = [fire_bar(), candle("2026-06-17T11:00:00Z", 1.1000, 1.1012, 1.0995, 1.1005)];
    assert!(matches!(simulate_fill(&short, &rises), SimOutcome::FilledOpen { .. }));
}

// --- sweeps --------------------------------------------------------------------------------

#[test]
fn sweep_reason_reports_sl_breach() {
    let intent = long_stop_intent();
    let path = [
        fire_bar(),
        candle("2026-06-17T11:00:00Z", 1.1041, 1.1045, 1.1038, 1.1040),
        candle("2026-06-17T12:00:00Z", 1.1010, 1.1012, 1.0990, 1.0995),
    ];
    assert_eq!(simulate_fill(&intent, &path), SimOutcome::NeverFilled);
    assert_eq!(
        sweep_reason(&intent, &path),
        Some((SweepReason::SlBreached, ts("2026-06-17T12:00:00Z")))
    );
}

#[test]
fn sweep_reason_reports_bar_expiry() {
    let mut intent = long_stop_intent();
    intent.expiry_bars = Some(1);
    intent.cancel_at = Some(ts("2026-06-17T11:30:00Z"));
    let path = [
        fire_bar(),
        candle("2026-06-17T11:00:00Z", 1.1041, 1.1045, 1.1038, 1.1043),
        candle("2026-06-17T12:00:00Z", 1.1041, 1.1045, 1.1038, 1.1043),
    ];
    assert_eq!(simulate_fill(&intent, &path), SimOutcome::NeverFilled);
    assert_eq!(
        sweep_reason(&intent, &path),
        Some((SweepReason::BarExpiry, ts("2026-06-17T12:00:00Z")))
    );
}

#[test]
fn sweep_reason_reports_alert_window_expiry_first() {
    let mut intent = long_stop_intent();
    intent.not_after = ts("2026-06-17T11:30:00Z");
    let path = [
        fire_bar(),
        candle("2026-06-17T11:00:00Z", 1.1041, 1.1045, 1.1038, 1.1043),
        candle("2026-06-17T12:00:00Z", 1.1010, 1.1012, 1.0990, 1.0995),
    ];
    assert_eq!(
        sweep_reason(&intent, &path),
        Some((SweepReason::Expired, ts("2026-06-17T12:00:00Z")))
    );
}

#[test]
fn sweep_reason_is_none_when_nothing_sweeps() {
    let intent = long_stop_intent();
    let path = [
        fire_bar(),
        candle("2026-06-17T11:00:00Z", 1.1041, 1.1045, 1.1038, 1.1043),
        candle("2026-06-17T12:00:00Z", 1.1041, 1.1045, 1.1038, 1.1043),
    ];
    assert_eq!(simulate_fill(&intent, &path), SimOutcome::NeverFilled);
    assert_eq!(sweep_reason(&intent, &path), None);
}

#[test]
fn sweep_reason_is_none_for_market_entry() {
    let mut intent = long_stop_intent();
    intent.entry = Ok(ResolvedEntry::Market { reference_price: fl(1.1040) });
    assert_eq!(sweep_reason(&intent, &[fire_bar()]), None);
    intent.entry = Err("unresolved");
    assert_eq!(sweep_reason(&intent, &[fire_bar()]), None);
}

#[test]
fn sweep_reason_reports_market_blackout() {
    let intent = long_stop_intent();
    let fri_path = [
        fire_bar(),
        candle("2026-06-19T20:00:00Z", 1.1041, 1.1045, 1.1038, 1.1043),
        candle("2026-06-19T22:00:00Z", 1.1010, 1.1012, 1.0990, 1.0995),
    ];
    assert_eq!(
        sweep_reason(&intent, &fri_path),
        Some((SweepReason::Blackout, ts("2026-06-19T22:00:00Z")))
    );
    let wed_path = [
        fire_bar(),
        candle("2026-06-17T11:00:00Z", 1.1041, 1.1045, 1.1038, 1.1043),
        candle("2026-06-17T12:00:00Z", 1.1010, 1.1012, 1.0990, 1.0995),
    ];
    assert_eq!(
        sweep_reason(&intent, &wed_path),
        Some((SweepReason::SlBreached, ts("2026-06-17T12:00:00Z")))
    );
}

#[test]
fn pre_fill_sl_breach_blocks_a_later_fill() {
    let intent = long_stop_intent();
    let path = [
        fire_bar(),
        candle("2026-06-17T11:00:00Z", 1.1041, 1.1045, 1.1038, 1.1040),
        candle("2026-06-17T12:00:00Z", 1.1010, 1.1012, 1.0990, 1.0995),
        candle("2026-06-17T13:00:00Z", 1.1020, 1.1060, 1.1015, 1.1055),
    ];
    assert_eq!(
        sweep_reason(&intent, &path),
        Some((SweepReason::SlBreached, ts("2026-06-17T12:00:00Z")))
    );
    assert_eq!(simulate_fill(&intent, &path), SimOutcome::NeverFilled);
}

fn short_breach_intent() -> Intent {
    let mut intent = short_stop_intent();
    set_levels(&mut intent, 1.1030, 1.1080, 1.0950);
    intent
}

#[test]
fn pre_fill_sl_breach_blocks_a_later_fill_for_a_short() {
    let intent = short_breach_intent();
    let path = [
        fire_bar(),
        candle("2026-06-17T11:00:00Z", 1.1041, 1.1045, 1.1038, 1.1040),
        candle("2026-06-17T12:00:00Z", 1.1070, 1.1095, 1.1068, 1.1090),
        candle("2026-06-17T13:00:00Z", 1.1060, 1.1062, 1.1020, 1.1025),
    ];
    assert_eq!(
        sweep_reason(&intent, &path),
        Some((SweepReason::SlBreached, ts("2026-06-17T12:00:00Z")))
    );
    assert_eq!(simulate_fill(&intent, &path), SimOutcome::NeverFilled);
}

#[test]
fn a_bar_that_wicks_through_the_sl_and_closes_back_is_a_breach() {
    let intent = long_stop_intent();
    let path = [
        fire_bar(),
        candle("2026-06-17T11:00:00Z", 1.1041, 1.1045, 1.1038, 1.1040),
        candle("2026-06-17T12:00:00Z", 1.1030, 1.1038, 1.0990, 1.1035),
        candle("2026-06-17T13:00:00Z", 1.1020, 1.1060, 1.1015, 1.1055),
    ];
    assert_eq!(
        sweep_reason(&intent, &path),
        Some((SweepReason::SlBreached, ts("2026-06-17T12:00:00Z")))
    );
    assert_eq!(simulate_fill(&intent, &path), SimOutcome::NeverFilled);
}

#[test]
fn a_short_bar_that_wicks_through_the_sl_and_closes_back_is_a_breach() {
    let intent = short_breach_intent();
    let path = [
        fire_bar(),
        candle("2026-06-17T11:00:00Z", 1.1041, 1.1045, 1.1038, 1.1040),
        candle("2026-06-17T12:00:00Z", 1.1050, 1.1095, 1.1044, 1.1045),
        candle("2026-06-17T13:00:00Z", 1.1060, 1.1062, 1.1020, 1.1025),
    ];
    assert_eq!(
        sweep_reason(&intent, &path),
        Some((SweepReason::SlBreached, ts("2026-06-17T12:00:00Z")))
    );
    assert_eq!(simulate_fill(&intent, &path), SimOutcome::NeverFilled);
}

#[test]
fn a_wick_that_stops_short_of_the_sl_is_not_a_breach() {
    let intent = long_stop_intent();
    let path = [
        fire_bar(),
        candle("2026-06-17T11:00:00Z", 1.1041, 1.1045, 1.1038, 1.1040),
        candle("2026-06-17T12:00:00Z", 1.1030, 1.1038, 1.1001, 1.1035),
        candle("2026-06-17T13:00:00Z", 1.1020, 1.1060, 1.1015, 1.1055),
    ];
    assert_eq!(sweep_reason(&intent, &path), None);
    assert!(matches!(simulate_fill(&intent, &path), SimOutcome::FilledOpen { .. }));
}

#[test]
fn an_unbreached_order_still_fills_normally() {
    let intent = long_stop_intent();
    let path = [
        fire_bar(),
        candle("2026-06-17T11:00:00Z", 1.1041, 1.1045, 1.1038, 1.1040),
        candle("2026-06-17T12:00:00Z", 1.1030, 1.1032, 1.1005, 1.1010),
        candle("2026-06-17T13:00:00Z", 1.1020, 1.1060, 1.1015, 1.1055),
    ];
    assert_eq!(sweep_reason(&intent, &path), None);
    assert!(matches!(simulate_fill(&intent, &path), SimOutcome::FilledOpen { .. }));
}

#[test]
fn a_breach_after_the_fill_is_a_stop_out_not_a_cancel() {
    let path = [
        fire_bar(),
        candle("2026-06-17T11:00:00Z", 1.1045, 1.1060, 1.1043, 1.1055),
        candle("2026-06-17T12:00:00Z", 1.1010, 1.1012, 1.0990, 1.0995),
    ];
    assert!(matches!(simulate_fill(&long_stop_intent(), &path), SimOutcome::StoppedOut { .. }));
}

#[test]
fn an_unbreached_short_still_fills_normally() {
    let intent = short_breach_intent();
    let path = [
        fire_bar(),
        candle("2026-06-17T11:00:00Z", 1.1041, 1.1045, 1.1038, 1.1040),
        candle("2026-06-17T12:00:00Z", 1.1038, 1.1040, 1.1020, 1.1025),
    ];
    assert_eq!(sweep_reason(&intent, &path), None);
    assert!(matches!(simulate_fill(&intent, &path), SimOutcome::FilledOpen { .. }));
}

#[test]
fn the_breaching_bar_itself_can_still_fill() {
    let path = [fire_bar(), candle("2026-06-17T11:00:00Z", 1.1045, 1.1060, 1.0990, 1.0995)];
    assert!(matches!(simulate_fill(&long_stop_intent(), &path), SimOutcome::StoppedOut { .. }));
}

// --- zoom ----------------------------------------------------------------------------------

fn ambiguous_exit_path() -> [BidAskCandle; 3] {
    [
        fire_bar(),
        candle("2026-06-17T12:00:00Z", 1.1042, 1.1055, 1.1041, 1.1052),
        candle("2026-06-17T13:00:00Z", 1.1050, 1.1160, 1.0990, 1.1100),
    ]
}

fn zoomed<S: SubBars>(candles: &[BidAskCandle], subs: &S) -> SimOutcome {
    let intent = long_stop_intent();
    let resolved = resolve(&intent).unwrap();
    let path = marked(&intent, &resolved, candles);
    simulate_fill_resolved_zoom(&resolved, &order(&intent), fl(PIP), &path, subs)
}

fn window_of(candles: &[BidAskCandle]) -> Option<ZoomWindow> {
    let intent = long_stop_intent();
    let resolved = resolve(&intent).unwrap();
    let path = marked(&intent, &resolved, candles);
    zoom_window(&resolved, &order(&intent), fl(PIP), &path)
}

/// Serves what it holds and records what it is asked for.
struct Recorder {
    serve: Vec<BidAskCandle>,
    asked: RefCell<Vec<ZoomWindow>>,
}

impl Recorder {
    fn new(serve: Vec<BidAskCandle>) -> Recorder {
        Recorder { serve, asked: RefCell::new(Vec::new()) }
    }
}

impl SubBars for Recorder {
    fn sub_bars(&self, start: Instant, end: Instant) -> Vec<BidAskCandle> {
        self.asked.borrow_mut().push(ZoomWindow { start, end });
        WindowSubBars::new(self.serve.clone()).sub_bars(start, end)
    }
}

fn one_to_two() -> ZoomWindow {
    ZoomWindow { start: ts("2026-06-17T13:00:00Z"), end: ts("2026-06-17T14:00:00Z") }
}

#[test]
fn ambiguous_bar_without_zoom_is_pessimistic_stop() {
    match simulate_fill(&long_stop_intent(), &ambiguous_exit_path()) {
        SimOutcome::StoppedOut { exit_price, .. } => assert!(near(exit_price, 1.1000)),
        other => panic!("no-zoom must pessimistically stop, got {other:?}"),
    }
}

#[test]
fn zoom_picks_take_profit_when_a_sub_bar_hits_tp_first() {
    let subs = WindowSubBars::new(vec![
        candle("2026-06-17T13:00:00Z", 1.1052, 1.1155, 1.1051, 1.1150),
        candle("2026-06-17T13:30:00Z", 1.1150, 1.1151, 1.0990, 1.0995),
    ]);
    match zoomed(&ambiguous_exit_path(), &subs) {
        SimOutcome::TookProfit { exit_price, exit_at, .. } => {
            assert!(near(exit_price, 1.1150));
            assert_eq!(exit_at, ts("2026-06-17T13:00:00Z"));
        }
        other => panic!("zoom must take profit (TP sub-bar first), got {other:?}"),
    }
}

#[test]
fn zoom_picks_stop_when_a_sub_bar_hits_sl_first() {
    let subs = WindowSubBars::new(vec![
        candle("2026-06-17T13:00:00Z", 1.1050, 1.1051, 1.0990, 1.0995),
        candle("2026-06-17T13:30:00Z", 1.0995, 1.1155, 1.0994, 1.1150),
    ]);
    match zoomed(&ambiguous_exit_path(), &subs) {
        SimOutcome::StoppedOut { exit_price, .. } => assert!(near(exit_price, 1.1000)),
        other => panic!("zoom must stop (SL sub-bar first), got {other:?}"),
    }
}

#[test]
fn zoom_falls_back_to_stop_when_a_sub_bar_is_itself_ambiguous() {
    let subs =
        WindowSubBars::new(vec![candle("2026-06-17T13:00:00Z", 1.1050, 1.1160, 1.0990, 1.1100)]);
    match zoomed(&ambiguous_exit_path(), &subs) {
        SimOutcome::StoppedOut { exit_price, .. } => assert!(near(exit_price, 1.1000)),
        other => panic!("ambiguous sub-bar must stay pessimistic stop, got {other:?}"),
    }
}

#[test]
fn zoom_falls_back_to_stop_when_no_sub_bars_cover_the_window() {
    let subs =
        WindowSubBars::new(vec![candle("2026-06-17T15:00:00Z", 1.1150, 1.1155, 1.1149, 1.1150)]);
    assert!(matches!(zoomed(&ambiguous_exit_path(), &subs), SimOutcome::StoppedOut { .. }));
}

#[test]
fn pass_one_records_the_ambiguous_bars_sub_window() {
    let rec = Recorder::new(Vec::new());
    let outcome = zoomed(&ambiguous_exit_path(), &rec);
    assert!(matches!(outcome, SimOutcome::StoppedOut { .. }), "got {outcome:?}");
    assert_eq!(outcome, zoomed(&ambiguous_exit_path(), &NoZoom));
    assert_eq!(*rec.asked.borrow(), vec![one_to_two()]);
    assert_eq!(window_of(&ambiguous_exit_path()), Some(one_to_two()));
}

#[test]
fn zoom_requests_are_invariant_to_the_provider() {
    let tp_first =
        Recorder::new(vec![candle("2026-06-17T13:00:00Z", 1.1052, 1.1155, 1.1051, 1.1150)]);
    let sl_first =
        Recorder::new(vec![candle("2026-06-17T13:00:00Z", 1.1050, 1.1051, 1.0990, 1.0995)]);
    let a = zoomed(&ambiguous_exit_path(), &tp_first);
    let b = zoomed(&ambiguous_exit_path(), &sl_first);
    assert!(matches!(a, SimOutcome::TookProfit { .. }), "got {a:?}");
    assert!(matches!(b, SimOutcome::StoppedOut { .. }), "got {b:?}");
    assert_eq!(*tp_first.asked.borrow(), vec![one_to_two()]);
    assert_eq!(*sl_first.asked.borrow(), vec![one_to_two()]);
    assert_eq!(window_of(&ambiguous_exit_path()), Some(one_to_two()));
}

#[test]
fn no_ambiguous_bar_records_no_windows_so_nothing_is_fetched() {
    let path = [
        fire_bar(),
        candle("2026-06-17T12:00:00Z", 1.1042, 1.1055, 1.1041, 1.1052),
        candle("2026-06-17T13:00:00Z", 1.1052, 1.1155, 1.1051, 1.1150),
    ];
    let rec = Recorder::new(Vec::new());
    let outcome = zoomed(&path, &rec);
    assert!(matches!(outcome, SimOutcome::TookProfit { .. }), "{outcome:?}");
    assert!(rec.asked.borrow().is_empty());
    assert_eq!(window_of(&path), None);
}

#[test]
fn two_pass_lazy_zoom_matches_the_eager_whole_window_zoom() {
    let whole_window = vec![
        candle("2026-06-17T11:00:00Z", 1.1040, 1.1045, 1.1039, 1.1042),
        candle("2026-06-17T12:00:00Z", 1.1042, 1.1055, 1.1041, 1.1052),
        candle("2026-06-17T13:00:00Z", 1.1052, 1.1155, 1.1051, 1.1150),
        candle("2026-06-17T13:30:00Z", 1.1150, 1.1151, 1.0990, 1.0995),
        candle("2026-06-17T15:00:00Z", 1.0995, 1.1000, 1.0990, 1.0995),
    ];
    let eager = zoomed(&ambiguous_exit_path(), &WindowSubBars::new(whole_window.clone()));
    let window = window_of(&ambiguous_exit_path()).unwrap();
    let fetched: Vec<BidAskCandle> = whole_window
        .iter()
        .filter(|c| c.time.nanos >= window.start.nanos && c.time.nanos < window.end.nanos)
        .copied()
        .collect();
    let lazy = zoomed(&ambiguous_exit_path(), &WindowSubBars::new(fetched.clone()));
    assert_eq!(format!("{eager:?}"), format!("{lazy:?}"));
    assert!(matches!(lazy, SimOutcome::TookProfit { .. }));
    assert_eq!(fetched.len(), 2, "fetched {fetched:?}");
}

#[test]
fn a_lone_bar_has_no_length_and_cannot_be_zoomed() {
    let path = [
        fire_bar(),
        candle("2026-06-17T12:00:00Z", 1.1042, 1.1160, 1.0990, 1.1100),
    ];
    assert_eq!(infer_bar_len(&bare(&path), 1), 0);
    assert_eq!(infer_bar_len(&bare(&path), 0), 5_400_000_000_000);
    assert_eq!(window_of(&path), None);
    let subs =
        WindowSubBars::new(vec![candle("2026-06-17T12:00:00Z", 1.1052, 1.1155, 1.1051, 1.1150)]);
    assert!(matches!(zoomed(&path, &subs), SimOutcome::StoppedOut { .. }));
}

// --- break-even and widens together --------------------------------------------------------

fn be_widen_intent() -> Intent {
    let mut intent = short_stop_intent();
    intent.instrument = "GBP/AUD";
    intent.threshold = Some(0.5);
    intent.take_profit = 1.0800;
    intent
}

fn be_fill_bar() -> BidAskCandle {
    ba_candle("2026-07-13T19:00:00Z", 1.1000, 1.0999, 1.1002, 1.1001)
}

fn be_lead_bar() -> BidAskCandle {
    ba_candle("2026-07-13T20:00:00Z", 1.09930, 1.09920, 1.09950, 1.09940)
}

#[test]
fn a_widen_after_break_even_widens_from_the_break_even_stop() {
    let intent = be_widen_intent();
    let path = [
        fire_bar(),
        be_fill_bar(),
        ba_candle("2026-07-13T18:00:00Z", 1.08800, 1.08790, 1.08810, 1.08800),
        be_lead_bar(),
        ba_candle("2026-07-13T21:00:00Z", 1.08900, 1.08850, 1.08980, 1.08930),
        ba_candle("2026-07-13T22:00:00Z", 1.08900, 1.08890, 1.08910, 1.08900),
    ];
    assert_eq!(breakeven_armed_at(&intent, &path), Some(ts("2026-07-13T18:00:00Z")));
    let eps = episodes(&intent, &path);
    let ep = eps.first().expect("the 21:00Z spread hour must widen");
    assert!(near(ep.original_stop, 1.1000), "got {}", num(ep.original_stop));
    assert!(num(ep.widened_stop) < 1.1030, "got {}", num(ep.widened_stop));
}

#[test]
fn the_restore_puts_the_stop_back_to_break_even_not_the_placement_stop() {
    let intent = be_widen_intent();
    let path = [
        fire_bar(),
        be_fill_bar(),
        ba_candle("2026-07-13T18:00:00Z", 1.08800, 1.08790, 1.08810, 1.08800),
        be_lead_bar(),
        ba_candle("2026-07-13T21:00:00Z", 1.08900, 1.08850, 1.08980, 1.08930),
        ba_candle("2026-07-13T22:00:00Z", 1.08900, 1.08890, 1.08910, 1.08900),
        ba_candle("2026-07-13T23:00:00Z", 1.09000, 1.08900, 1.10020, 1.08950),
    ];
    match simulate_fill(&intent, &path) {
        SimOutcome::StoppedOut { exit_price, entry_price, .. } => {
            assert!(near(exit_price, 1.1000), "got {}", num(exit_price));
            assert!((num(exit_price) - num(entry_price)).abs() < 1e-9);
        }
        other => panic!("the restored break-even stop must close the trade; got {other:?}"),
    }
    let eps = episodes(&intent, &path);
    let ep = eps.first().expect("the 21:00Z spread hour widens");
    assert_eq!(ep.effective_from, ts("2026-07-13T20:00:00Z"));
    assert!(num(ep.widened_stop) < 1.1030, "got {}", num(ep.widened_stop));
}

#[test]
fn break_even_does_not_arm_inside_a_widen_but_does_after_the_restore() {
    let intent = be_widen_intent();
    let mid_widen = ba_candle("2026-07-13T21:00:00Z", 1.08800, 1.08790, 1.08810, 1.08800);
    let restore = ba_candle("2026-07-13T22:00:00Z", 1.09900, 1.09890, 1.09910, 1.09900);
    let hits = ba_candle("2026-07-13T23:00:00Z", 1.09950, 1.09900, 1.10310, 1.09980);
    let path = [fire_bar(), be_fill_bar(), be_lead_bar(), mid_widen, restore, hits];
    match simulate_fill(&intent, &path) {
        SimOutcome::StoppedOut { exit_price, .. } => {
            assert!(near(exit_price, 1.1030), "got {}", num(exit_price))
        }
        other => panic!("expected a stop-out at the placement stop, got {other:?}"),
    }
    let arms = ba_candle("2026-07-14T00:00:00Z", 1.08800, 1.08790, 1.08810, 1.08800);
    let reaches = ba_candle("2026-07-14T01:00:00Z", 1.09000, 1.08900, 1.10020, 1.08950);
    let path2 = [fire_bar(), be_fill_bar(), be_lead_bar(), mid_widen, restore, arms, reaches];
    match simulate_fill(&intent, &path2) {
        SimOutcome::StoppedOut { exit_price, entry_price, .. } => {
            assert!(near(exit_price, 1.1000), "got {}", num(exit_price));
            assert!((num(exit_price) - num(entry_price)).abs() < 1e-9, "0R scratch");
        }
        other => panic!("expected a break-even scratch after the restore, got {other:?}"),
    }
}

#[test]
fn the_breakeven_journal_line_also_skips_mid_widen_bars() {
    let path = [
        fire_bar(),
        be_fill_bar(),
        be_lead_bar(),
        ba_candle("2026-07-13T21:00:00Z", 1.08800, 1.08790, 1.08810, 1.08800),
        ba_candle("2026-07-13T22:00:00Z", 1.09900, 1.09890, 1.09910, 1.09900),
        ba_candle("2026-07-14T00:00:00Z", 1.08800, 1.08790, 1.08810, 1.08800),
    ];
    assert_eq!(breakeven_armed_at(&be_widen_intent(), &path), Some(ts("2026-07-14T00:00:00Z")));
}

#[test]
fn the_same_close_arms_break_even_when_no_widen_covers_it() {
    let path = [
        fire_bar(),
        ba_candle("2026-07-13T08:00:00Z", 1.1000, 1.0999, 1.1002, 1.1001),
        ba_candle("2026-07-13T09:00:00Z", 1.09930, 1.09920, 1.09950, 1.09940),
        ba_candle("2026-07-13T10:00:00Z", 1.08800, 1.08790, 1.08810, 1.08800),
    ];
    assert_eq!(breakeven_armed_at(&be_widen_intent(), &path), Some(ts("2026-07-13T10:00:00Z")));
}

#[test]
fn the_bar_that_opens_an_episode_does_not_arm_break_even() {
    let intent = be_widen_intent();
    let path = [
        fire_bar(),
        be_fill_bar(),
        ba_candle("2026-07-13T20:00:00Z", 1.08800, 1.08790, 1.08810, 1.08800),
        ba_candle("2026-07-13T21:00:00Z", 1.08900, 1.08850, 1.08980, 1.08930),
        ba_candle("2026-07-13T22:00:00Z", 1.09900, 1.09890, 1.09910, 1.09900),
    ];
    let eps = episodes(&intent, &path);
    let ep = eps.first().expect("the 21:00Z spread hour widens");
    assert!(near(ep.original_stop, 1.1030), "got {}", num(ep.original_stop));
    assert_eq!(breakeven_armed_at(&intent, &path), None);
}
