//! The journal, the widen episodes and the scored outcome agree on break-even.
use replay_candles::binary64::Float;
use replay_candles::fill_sim::{
    breakeven_armed_at_resolved, simulate_fill_resolved, widen_episodes_at_resolved, BarMarks,
    Breakeven, Order, PathBar, Resolved, ResolvedEntry, SimOutcome,
    WidenLevels,
};
use replay_candles::market::{BidAskCandle, Direction};
use replay_candles::time::Instant;

fn fl(x: f64) -> Float {
    Float { bits: x.to_bits() }
}

fn hour(h: i64) -> Instant {
    Instant::from_seconds(3_600 * h)
}

/// A bar on the bid, with the ask this far above it.
fn bar(h: i64, low: f64, high: f64, close: f64, spread: f64) -> PathBar {
    PathBar {
        candle: BidAskCandle {
            time: hour(h),
            o: fl(close),
            h: fl(high),
            l: fl(low),
            c: fl(close),
            bid_o: fl(close),
            bid_h: fl(high),
            bid_l: fl(low),
            bid_c: fl(close),
            ask_o: fl(close + spread),
            ask_h: fl(high + spread),
            ask_l: fl(low + spread),
            ask_c: fl(close + spread),
        },
        marks: BarMarks {
            spread_hour: false,
            close_arms: close >= 15.0,
            noise_blocks: false,
            widen_at: None,
            ny_close_edge: false,
            learned: WidenLevels { from_placed: fl(7.0), from_breakeven: fl(8.0) },
            clamped: WidenLevels { from_placed: fl(6.5), from_breakeven: fl(7.5) },
            backstop_clear: true,
            blackout: false,
            expiry_due: false,
        },
    }
}

/// A market long from 10, with its stop at 9 and its target at 20.
fn long() -> Resolved {
    Resolved {
        direction: Direction::Long,
        entry: ResolvedEntry::Market { reference_price: fl(10.0) },
        stop_loss: fl(9.0),
        take_profit: fl(20.0),
        min_r: fl(1.0),
        breakeven: Some(Breakeven { target_stop: fl(10.0) }),
    }
}

fn order() -> Order {
    Order {
        fired_at: hour(0),
        expiry_bars: None,
        not_after: hour(1_000),
        breakeven: true,
        widen_trigger_pips: fl(22.0),
    }
}

fn armed(path: &[PathBar]) -> Option<Instant> {
    breakeven_armed_at_resolved(&long(), &order(), fl(1.0), path)
}

fn scored(path: &[PathBar]) -> SimOutcome {
    simulate_fill_resolved(&long(), &order(), fl(1.0), path)
}

fn exit(outcome: SimOutcome) -> (Instant, Float) {
    match outcome {
        SimOutcome::StoppedOut { exit_at, exit_price, .. } => (exit_at, exit_price),
        other => panic!("{other:?}"),
    }
}

#[test]
fn a_refused_break_even_is_not_in_the_journal() {
    let mut path = vec![
        bar(0, 9.8, 10.2, 10.0, 1.0),
        bar(1, 10.5, 15.5, 15.0, 1.0),
        bar(2, 9.5, 12.0, 11.0, 1.0),
    ];
    assert_eq!(armed(&path), Some(hour(1)));
    assert_eq!(exit(scored(&path)), (hour(2), fl(10.0)));
    path[1].marks.noise_blocks = true;
    assert_eq!(armed(&path), None);
    assert_eq!(
        scored(&path),
        SimOutcome::FilledOpen { fill_at: hour(0), entry_price: fl(10.0) }
    );
    // A later close that is not refused arms after all.
    path.push(bar(3, 11.0, 16.0, 15.0, 1.0));
    path.push(bar(4, 9.9, 11.0, 10.5, 1.0));
    assert_eq!(armed(&path), Some(hour(3)));
    assert_eq!(exit(scored(&path)), (hour(4), fl(10.0)));
}

#[test]
fn a_refused_break_even_is_not_widened_from() {
    let mut path = vec![
        bar(0, 9.8, 10.2, 10.0, 1.0),
        bar(1, 10.5, 15.5, 15.0, 1.0),
        bar(2, 11.0, 12.0, 11.0, 9.0),
        bar(3, 11.0, 12.0, 11.0, 1.0),
    ];
    path[2].marks.widen_at = Some(hour(2));
    let episodes = |path: &[PathBar]| {
        widen_episodes_at_resolved(&long(), &order(), fl(1.0), path, fl(22.0))
    };
    let found = episodes(&path);
    assert_eq!(found.len(), 1);
    assert_eq!((found[0].original_stop, found[0].widened_stop), (fl(10.0), fl(8.0)));
    path[1].marks.noise_blocks = true;
    let found = episodes(&path);
    assert_eq!(found.len(), 1);
    assert_eq!((found[0].original_stop, found[0].widened_stop), (fl(9.0), fl(7.0)));
    assert_eq!(found[0].restored_at, Some(hour(3)));
}

#[test]
fn a_learned_hour_sizes_the_widen_and_the_live_spread_does_elsewhere() {
    let mut path = vec![
        bar(0, 9.8, 10.2, 10.0, 1.0),
        bar(1, 10.0, 10.4, 10.2, 25.0),
        bar(2, 10.0, 10.4, 10.2, 1.0),
    ];
    let first = |path: &[PathBar]| {
        let found = widen_episodes_at_resolved(&long(), &order(), fl(1.0), path, fl(22.0));
        found.first().map(|w| (w.at, w.widened_stop))
    };
    assert_eq!(first(&path), None);
    path[1].marks.ny_close_edge = true;
    assert_eq!(first(&path), Some((hour(1), fl(6.5))));
    let lead = Instant::from_seconds(3_600 + 1_800);
    path[1].marks.widen_at = Some(lead);
    assert_eq!(first(&path), Some((lead, fl(7.0))));
    // Below the trigger only a learned hour widens.
    path[1] = PathBar { marks: path[1].marks, ..bar(1, 10.0, 10.4, 10.2, 5.0) };
    assert_eq!(first(&path), Some((lead, fl(7.0))));
    path[1].marks.widen_at = None;
    assert_eq!(first(&path), None);
}

#[test]
fn the_journal_rides_through_a_widen_as_the_score_does() {
    let mut path = vec![
        bar(0, 9.8, 10.2, 10.0, 1.0),
        bar(1, 10.0, 10.4, 10.2, 9.0),
        // Past the placed stop at 9, short of the widened one at 7.
        bar(2, 8.5, 10.0, 9.5, 9.0),
        bar(3, 9.5, 15.5, 15.0, 1.0),
        bar(4, 9.9, 12.0, 11.0, 1.0),
    ];
    path[1].marks.widen_at = Some(hour(1));
    assert_eq!(armed(&path), Some(hour(3)));
    assert_eq!(exit(scored(&path)), (hour(4), fl(10.0)));
    // Past the widened stop too: the position is gone before a close arms.
    path[2].candle.bid_l = fl(6.5);
    assert_eq!(armed(&path), None);
    assert_eq!(exit(scored(&path)), (hour(2), fl(7.0)));
}

#[test]
fn without_a_rule_nothing_arms() {
    let path = vec![
        bar(0, 9.8, 10.2, 10.0, 1.0),
        bar(1, 10.5, 15.5, 15.0, 1.0),
        bar(2, 9.5, 12.0, 11.0, 1.0),
    ];
    let plain = Resolved { breakeven: None, ..long() };
    let free = Order { breakeven: false, ..order() };
    assert_eq!(breakeven_armed_at_resolved(&plain, &free, fl(1.0), &path), None);
    assert_eq!(
        simulate_fill_resolved(&plain, &free, fl(1.0), &path),
        SimOutcome::FilledOpen { fill_at: hour(0), entry_price: fl(10.0) }
    );
}
