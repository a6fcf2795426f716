use replay_candles::binary64::Float;
use replay_candles::economics::{ExitReason, Leg};
use replay_candles::futures_caveats::{
    context_for, contracts_for, probe, Caveats, CloseOutVerdict, FuturesContract, ProbeResult,
    SIZING_CAVEAT,
};
use replay_candles::time::Instant;

fn fl(x: f64) -> Float {
    Float { bits: x.to_bits() }
}

fn gc() -> FuturesContract {
    FuturesContract { root: "GC".to_string(), contract_month: "202612".to_string() }
}

fn leg(stop_distance: f64) -> Leg {
    Leg {
        entry_time: Instant::from_seconds(0),
        entry_price: fl(4000.0),
        stop_loss: fl(4000.0 - stop_distance),
        take_profit: fl(4100.0),
        exit_time: None,
        exit_price: None,
        exit_reason: ExitReason::OpenAtWindowEnd,
        r: fl(0.0),
    }
}

fn armable() -> CloseOutVerdict {
    CloseOutVerdict::Armable { contract: gc(), arm_by: "2026-11-11".to_string() }
}

fn contracts(budget: f64, stop: f64, multiplier: f64) -> u32 {
    contracts_for(fl(budget), fl(stop), fl(multiplier))
}

#[test]
fn a_cfd_replay_gets_no_caveats_at_all() {
    assert!(Caveats::new(CloseOutVerdict::NotFutures, None).is_none());
}

#[test]
fn context_for_refuses_a_cfd_instrument_at_the_entry_point() {
    assert!(context_for(CloseOutVerdict::NotFutures, Some(fl(100_000.0)), None).is_none());
}

#[test]
fn context_for_builds_a_context_for_a_real_contract() {
    let ctx = context_for(armable(), None, Some(fl(100.0))).expect("GC must produce a context");
    assert!(matches!(ctx.verdict, CloseOutVerdict::Armable { .. }));
    assert_eq!(ctx.multiplier, Some(fl(100.0)));
    let caveats = ctx.resolve(&vec![leg(20.0)]).expect("a future has caveats");
    assert!(caveats.probe.is_none());
}

#[test]
fn a_futures_replay_always_names_the_sizing_bias() {
    let c = Caveats::new(armable(), None).expect("futures must produce caveats");
    assert!(c.render().contains(SIZING_CAVEAT), "{}", c.render());
    assert_eq!(
        c.render(),
        "\nFUTURES CAVEATS\n  sizing not simulated — live may reject entries that floor to 0 contracts\n  close-out: OK — GC 202612 is armable through 2026-11-11\n"
    );
}

#[test]
fn a_past_window_replay_says_live_would_have_refused() {
    let c = Caveats::new(
        CloseOutVerdict::PastArmingWindow {
            contract: gc(),
            arm_by: "2026-11-11".to_string(),
            close_out: "2026-11-25".to_string(),
            acts_until: "2026-12-01".to_string(),
        },
        None,
    )
    .expect("futures must produce caveats");
    let text = c.render();
    assert!(text.contains("PAST WINDOW"), "{text}");
    assert!(text.contains("would have been refused"), "{text}");
    assert!(text.contains("2026-11-11"), "names the arm-by: {text}");
    assert!(text.contains("2026-11-25"), "names the close-out: {text}");
    assert_eq!(
        c.close_out_line(),
        "close-out: PAST WINDOW — GC 202612 could only be armed through 2026-11-11, but this replay runs to 2026-12-01 and IBKR may liquidate without notice from 2026-11-25. Live, this plan would have been refused."
    );
}

#[test]
fn an_unknown_contract_says_it_cannot_be_checked() {
    let c = Caveats::new(CloseOutVerdict::UnknownContract { contract: gc() }, None)
        .expect("futures must produce caveats");
    let text = c.render();
    assert!(text.contains("UNKNOWN"), "{text}");
    assert!(text.contains("would have been refused"), "{text}");
}

#[test]
fn the_same_legs_floor_out_at_a_small_account_and_not_a_large_one() {
    let legs = vec![leg(20.0), leg(20.0)];
    let small = probe(&legs, fl(100_000.0), Some(fl(100.0)));
    assert_eq!(small.floored_to_zero, 2, "{small:?}");
    assert_eq!(small.placeable, 0);
    let large = probe(&legs, fl(1_000_000.0), Some(fl(100.0)));
    assert_eq!(large.floored_to_zero, 0, "{large:?}");
    assert_eq!(large.placeable, 2);
}

#[test]
fn a_micro_contract_is_placeable_where_the_full_size_is_not() {
    let legs = vec![leg(20.0)];
    assert_eq!(probe(&legs, fl(100_000.0), Some(fl(100.0))).floored_to_zero, 1);
    assert_eq!(probe(&legs, fl(100_000.0), Some(fl(10.0))).placeable, 1);
}

#[test]
fn an_unknown_multiplier_is_refused_not_assumed_to_be_one() {
    let legs = vec![leg(20.0)];
    let r = probe(&legs, fl(100_000.0), None);
    assert_eq!(r.unknown_multiplier, 1);
    assert_eq!(r.placeable, 0);
    assert_eq!(r.floored_to_zero, 0);
    assert!(r.line().contains("CANNOT JUDGE"), "{}", r.line());
    assert_eq!(
        r.line(),
        "granularity probe: CANNOT JUDGE 1 of 1 fill(s) at $100000 — no contract multiplier for this instrument, so the probe refuses rather than assuming 1.0"
    );
}

#[test]
fn an_unusable_multiplier_is_treated_as_unknown() {
    let legs = vec![leg(20.0)];
    for m in [0.0, -100.0, f64::NAN, f64::INFINITY] {
        let r = probe(&legs, fl(100_000.0), Some(fl(m)));
        assert_eq!(r.unknown_multiplier, 1, "multiplier {m} must not be used");
        assert_eq!(r.placeable, 0, "multiplier {m} must not be placeable");
    }
}

#[test]
fn a_fractional_contract_count_floors_and_never_rounds_up() {
    assert_eq!(contracts(1_000.0, 5.3, 100.0), 1);
    assert_eq!(contracts(1_000.0, 11.0, 100.0), 0);
    assert_eq!(contracts(1e300, 1e-300, 1.0), 0);
    assert_eq!(contracts(1e18, 1.0, 1.0), u32::MAX);
}

#[test]
fn a_zero_stop_distance_sizes_to_zero_rather_than_dividing_by_zero() {
    assert_eq!(contracts(1_000.0, 0.0, 100.0), 0);
    for bad in [f64::NAN, f64::INFINITY, -1.0] {
        assert_eq!(contracts(1_000.0, bad, 100.0), 0, "stop {bad}");
        assert_eq!(contracts(bad, 5.0, 100.0), 0, "budget {bad}");
    }
}

#[test]
fn the_probe_reports_the_account_it_was_given_not_one_it_inferred() {
    let r = probe(&vec![leg(20.0)], fl(250_000.0), Some(fl(10.0)));
    assert!(r.line().contains("250000"), "{}", r.line());
    assert_eq!(
        r.line(),
        "granularity probe: 0 of 1 fill(s) would floor to 0 contracts at a stated $250000 account (1 placeable)"
    );
}

#[test]
fn no_legs_means_nothing_to_judge() {
    let r = probe(&vec![], fl(100_000.0), Some(fl(100.0)));
    assert_eq!(
        r,
        ProbeResult {
            account: fl(100_000.0),
            placeable: 0,
            floored_to_zero: 0,
            unknown_multiplier: 0
        }
    );
}

#[test]
fn a_stated_account_is_probed_when_the_caveats_are_resolved() {
    let ctx = context_for(armable(), Some(fl(100_000.0)), Some(fl(100.0))).unwrap();
    let c = ctx.resolve(&vec![leg(20.0)]).unwrap();
    assert!(c.render().ends_with(
        "  granularity probe: 1 of 1 fill(s) would floor to 0 contracts at a stated $100000 account (0 placeable)\n"
    ));
}
