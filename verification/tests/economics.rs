use replay_candles::binary64::Float;
use replay_candles::economics::{
    realized_r, ExitReason, Leg, ReplayEconomics, IMPLAUSIBLE_R_BITS, LEAST_RISK_SHARE_BITS,
    MIN_POSITIVE_BITS, RISK_FRACTION_BITS, START_ACCOUNT_BITS,
};
use replay_candles::market::Direction;
use replay_candles::report::{FillKind, FireResult};
use replay_candles::time::Instant;

fn fl(x: f64) -> Float {
    Float { bits: x.to_bits() }
}

fn num(x: Float) -> f64 {
    f64::from_bits(x.bits)
}

fn r_of(entry: f64, stop: f64, exit: f64) -> f64 {
    num(realized_r(fl(entry), fl(stop), fl(exit)))
}

const START_ACCOUNT: f64 = 100_000.0;
const IMPLAUSIBLE_R: f64 = 100.0;

fn at(hour: i64) -> Instant {
    Instant::from_seconds(1_781_740_800 + hour * 3600)
}

fn long_fire(kind: FillKind, exit: Option<f64>) -> FireResult {
    FireResult {
        direction: Direction::Long,
        fill_at: at(12),
        until: at(18),
        entry_price: fl(1.10),
        stop_loss: fl(1.09),
        take_profit: fl(1.12),
        exit_price: exit.map(fl),
        kind,
    }
}

#[test]
fn the_constants_are_what_they_are_named_for() {
    assert_eq!(f64::from_bits(START_ACCOUNT_BITS), 100_000.0);
    assert_eq!(f64::from_bits(RISK_FRACTION_BITS), 0.01);
    assert_eq!(f64::from_bits(IMPLAUSIBLE_R_BITS), 100.0);
    assert_eq!(f64::from_bits(LEAST_RISK_SHARE_BITS), 1e-9);
    assert_eq!(f64::from_bits(MIN_POSITIVE_BITS), f64::MIN_POSITIVE);
}

#[test]
fn clean_tp_books_plus_one_r() {
    let mut e = ReplayEconomics::new();
    e.book(&long_fire(FillKind::TookProfit, Some(1.12)));
    assert_eq!(e.tp_hits, 1);
    assert!((num(e.net_r) - 2.0).abs() < 1e-9);
    assert_eq!(e.legs.len(), 1);
    assert_eq!(e.legs[0].exit_reason, ExitReason::TookProfit);
}

#[test]
fn clean_sl_books_minus_one_r() {
    let mut e = ReplayEconomics::new();
    e.book(&long_fire(FillKind::StoppedOut, Some(1.09)));
    assert_eq!(e.sl_hits, 1);
    assert!((num(e.net_r) + 1.0).abs() < 1e-9);
    assert_eq!(num(e.net_r), -1.0);
    assert!(num(e.account()) < START_ACCOUNT);
}

#[test]
fn short_scores_without_a_direction_branch() {
    let mut e = ReplayEconomics::new();
    e.book(&FireResult {
        direction: Direction::Short,
        stop_loss: fl(1.11),
        exit_price: Some(fl(1.09)),
        ..long_fire(FillKind::TookProfit, None)
    });
    assert!((num(e.net_r) - 1.0).abs() < 1e-9);
}

#[test]
fn reversal_and_expiry_closes_book_r() {
    let mut e = ReplayEconomics::new();
    e.book(&long_fire(FillKind::ClosedOnReversal, Some(1.105)));
    e.book(&long_fire(FillKind::ClosedAtExpiry, Some(1.095)));
    assert_eq!(e.reversal_closes, 1);
    assert_eq!(e.expiry_closes, 1);
    assert!(num(e.net_r).abs() < 1e-9);
    assert_eq!(e.legs.len(), 2);
}

#[test]
fn invalidation_close_books_its_own_counter_not_expiry() {
    let mut e = ReplayEconomics::new();
    e.book(&long_fire(FillKind::ClosedOnInvalidation, Some(1.095)));
    assert_eq!(e.invalidation_closes, 1);
    assert_eq!(e.expiry_closes, 0);
    assert!((num(e.net_r) + 0.5).abs() < 1e-9);
    assert_eq!(e.legs.len(), 1);
    assert_eq!(e.legs[0].exit_reason, ExitReason::Invalidation);
}

#[test]
fn open_at_window_end_books_zero_r() {
    let mut e = ReplayEconomics::new();
    e.book(&long_fire(FillKind::Open, None));
    assert_eq!(e.open_at_end, 1);
    assert_eq!(e.tp_hits, 0);
    assert_eq!(e.sl_hits, 0);
    assert_eq!(num(e.net_r), 0.0);
    assert_eq!(num(e.account()), START_ACCOUNT);
    let leg = &e.legs[0];
    assert_eq!(leg.exit_reason, ExitReason::OpenAtWindowEnd);
    assert!(leg.exit_time.is_none());
    assert!(leg.exit_price.is_none());
}

#[test]
fn an_open_position_books_zero_r_even_with_an_exit_price() {
    let mut e = ReplayEconomics::new();
    e.book(&long_fire(FillKind::Open, Some(1.12)));
    assert_eq!(e.open_at_end, 1);
    assert_eq!(num(e.net_r), 0.0);
    assert_eq!(num(e.account()), START_ACCOUNT);
    let leg = &e.legs[0];
    assert_eq!(num(leg.r), 0.0);
    assert!(leg.exit_price.is_none());
    assert!(leg.exit_time.is_none());
}

#[test]
fn not_taken_outcomes_book_nothing() {
    let mut e = ReplayEconomics::new();
    for kind in [
        FillKind::NeverFilled,
        FillKind::Declined,
        FillKind::GateBlocked,
        FillKind::SpreadBlackout,
    ] {
        assert!(e.book(&long_fire(kind, None)).is_none());
    }
    assert!(e.legs.is_empty());
    assert_eq!(num(e.net_r), 0.0);
    assert_eq!(num(e.account()), START_ACCOUNT);
}

#[test]
fn breakeven_scratch_is_a_stop_at_zero_r() {
    let mut e = ReplayEconomics::new();
    e.book(&long_fire(FillKind::StoppedOut, Some(1.10)));
    assert_eq!(e.sl_hits, 1);
    assert_eq!(num(e.net_r), 0.0);
    assert_eq!(num(e.account()), START_ACCOUNT);
}

#[test]
fn zero_risk_guard_holds_at_index_scale() {
    let entry = 10_500.0_f64;
    let stop = f64::from_bits(entry.to_bits() + 1);
    assert_ne!(stop, entry, "must actually be a different double");
    assert_eq!(r_of(entry, stop, 10_600.0), 0.0);
    assert!((r_of(entry, 10_470.0, 10_530.0) - 1.0).abs() < 1e-9);
    assert!((r_of(1.10000, 1.099999, 1.100001) - 1.0).abs() < 1e-6);
}

#[test]
fn no_input_yields_a_non_finite_r() {
    let bad = [f64::NAN, f64::INFINITY, f64::NEG_INFINITY];
    for &exit in &bad {
        assert_eq!(r_of(1.10, 1.09, exit), 0.0, "exit {exit} → 0R");
    }
    for &entry in &bad {
        assert_eq!(r_of(entry, 1.09, 1.11), 0.0, "entry {entry} → 0R");
    }
    for &stop in &bad {
        assert_eq!(r_of(1.10, stop, 1.11), 0.0, "stop {stop} → 0R");
    }
    let all = [f64::NAN, f64::INFINITY, f64::NEG_INFINITY, 0.0, 1.10, -1.10];
    for &e in &all {
        for &s in &all {
            for &x in &all {
                assert!(r_of(e, s, x).is_finite(), "realized_r({e}, {s}, {x}) was not finite");
            }
        }
    }
}

#[test]
fn a_garbage_exit_price_still_leaves_a_loadable_golden() {
    for garbage in [f64::NAN, f64::INFINITY, f64::NEG_INFINITY] {
        let cases = [
            FireResult {
                exit_price: Some(fl(garbage)),
                ..long_fire(FillKind::TookProfit, None)
            },
            FireResult {
                entry_price: fl(garbage),
                ..long_fire(FillKind::TookProfit, Some(1.12))
            },
            FireResult {
                stop_loss: fl(garbage),
                ..long_fire(FillKind::TookProfit, Some(1.12))
            },
            FireResult {
                take_profit: fl(garbage),
                ..long_fire(FillKind::TookProfit, Some(1.12))
            },
        ];
        for fire in cases {
            let mut econ = ReplayEconomics::new();
            econ.book(&fire);
            let leg = &econ.legs[0];
            for x in [leg.entry_price, leg.stop_loss, leg.take_profit, leg.r, econ.net_r] {
                assert!(num(x).is_finite(), "{fire:?}");
            }
            assert!(leg.exit_price.map_or(true, |p| num(p).is_finite()));
        }
    }
    let mut econ = ReplayEconomics::new();
    econ.book(&long_fire(FillKind::TookProfit, Some(f64::INFINITY)));
    assert_eq!(num(econ.net_r), 0.0);
    let leg = &econ.legs[0];
    assert!(leg.exit_price.is_none());
    assert!(leg.exit_time.is_none());
}

#[test]
fn an_implausible_r_is_recorded_not_clamped() {
    let mut econ = ReplayEconomics::new();
    econ.book(&long_fire(FillKind::TookProfit, Some(11.0)));
    let r = num(econ.legs[0].r);
    assert!(r > IMPLAUSIBLE_R, "must exceed the warn threshold: {r}");
    assert!((r - 990.0).abs() < 1e-6, "got {r}");
    assert!((num(econ.net_r) - r).abs() < 1e-9);
    assert!(econ.legs[0].is_implausible());
    for (r, implausible) in [(100.0, false), (-100.0, false), (-100.5, true), (0.0, false)] {
        assert_eq!(Leg { r: fl(r), ..econ.legs[0] }.is_implausible(), implausible, "{r}");
    }
}

#[test]
fn degenerate_zero_risk_bracket_books_zero() {
    let mut e = ReplayEconomics::new();
    e.book(&FireResult {
        stop_loss: fl(1.10),
        exit_price: Some(fl(1.15)),
        ..long_fire(FillKind::TookProfit, None)
    });
    assert_eq!(num(e.net_r), 0.0);
}

#[test]
fn account_compounds_off_the_running_balance() {
    let mut e = ReplayEconomics::new();
    e.book(&long_fire(FillKind::TookProfit, Some(1.12)));
    assert!((num(e.account()) - 102_000.0).abs() < 1e-6, "got {}", num(e.account()));
    e.book(&long_fire(FillKind::StoppedOut, Some(1.09)));
    assert!((num(e.account()) - 100_980.0).abs() < 1e-6, "got {}", num(e.account()));
    assert!((num(e.net_r) - 1.0).abs() < 1e-9);
    assert!((num(e.profit()) - 980.0).abs() < 1e-6);
    assert_eq!(
        e.summary_line(),
        "  |  Net R: +1.00  |  $100k acct (1%/trade): $100980 (+980)"
    );
}

#[test]
fn the_account_is_the_native_left_fold() {
    let mut e = ReplayEconomics::new();
    for exit in [1.1123, 1.0911, 1.1234, 1.0999, 1.1311] {
        e.book(&long_fire(FillKind::TookProfit, Some(exit)));
    }
    let mut acct = START_ACCOUNT;
    let mut net = 0.0;
    for leg in &e.legs {
        acct = acct + 0.01 * acct * num(leg.r);
        net += num(leg.r);
    }
    assert_eq!(num(e.account()).to_bits(), acct.to_bits());
    assert_eq!(num(e.net_r).to_bits(), net.to_bits());
    assert_eq!(num(e.legs[0].r).to_bits(), ((1.1123 - 1.10) / (1.10 - 1.09_f64)).to_bits());
}

#[test]
fn reordering_leaves_net_r_and_the_balance_unchanged() {
    let win = long_fire(FillKind::TookProfit, Some(1.12));
    let loss = long_fire(FillKind::StoppedOut, Some(1.09));
    let mut win_first = ReplayEconomics::new();
    win_first.book(&win);
    win_first.book(&loss);
    let mut loss_first = ReplayEconomics::new();
    loss_first.book(&loss);
    loss_first.book(&win);
    assert!((num(win_first.net_r) - num(loss_first.net_r)).abs() < 1e-9);
    assert!((num(win_first.account()) - num(loss_first.account())).abs() < 1e-6);
    assert!((num(win_first.legs[1].r) + 1.0).abs() < 1e-9);
    assert!((num(loss_first.legs[0].r) + 1.0).abs() < 1e-9);
}

#[test]
fn the_counters_add_up_to_the_legs() {
    let mut e = ReplayEconomics::new();
    for kind in [
        FillKind::TookProfit,
        FillKind::StoppedOut,
        FillKind::ClosedOnReversal,
        FillKind::ClosedAtExpiry,
        FillKind::ClosedOnInvalidation,
        FillKind::Open,
        FillKind::Declined,
    ] {
        e.book(&long_fire(kind, Some(1.11)));
    }
    assert_eq!(e.legs.len(), 6);
    let total = e.tp_hits
        + e.sl_hits
        + e.reversal_closes
        + e.expiry_closes
        + e.invalidation_closes
        + e.open_at_end;
    assert_eq!(total, 6);
    assert!(ExitReason::StoppedOut.is_realized());
    assert!(!ExitReason::OpenAtWindowEnd.is_realized());
}
