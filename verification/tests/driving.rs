use replay_candles::attempt_state::{
    bar, expected_for, live_state, replay_state, AttemptState, ExpectedState, OrderFate, Situation,
};
use replay_candles::batch::{BatchResult, BatchSummary};
use replay_candles::binary64::Float;
use replay_candles::driver::{
    after_check, after_fetch, after_first_pass, after_replay, after_save, diff_error,
    empty_batch_message, expires_at, failed_batch_message, final_steps, finer_bar_seconds,
    frozen_end, pull_end, run_mode, run_start, run_test_mode_batch, score_against_baseline,
    second_pass_bars, test_path, warmup_depth, BatchStep, ExpectedRead, Failure, FinalStep, FixtureFlags, FixtureRun,
    FixtureStep, KeepReason, RunMode, RunStart, TestPath, ZoomAction,
};
use replay_candles::economics::ReplayEconomics;
use replay_candles::fill_sim::{
    simulate_fill_resolved, BarMarks, Order, PathBar, Resolved, ResolvedEntry, SimOutcome,
    WidenLevels,
};
use replay_candles::fixture::{
    fixtures_root, load_steps, read_failure_kind, save_steps, write_json, FileStep, Fire,
    FireOutcome, FixtureFile, ReadFailure, Replay, ReplayOutcome,
};
use replay_candles::market::{BidAskCandle, Direction};
use replay_candles::outcome::{aggregate_kind, FailureKind};
use replay_candles::time::Instant;

fn fl(x: f64) -> Float {
    Float { bits: x.to_bits() }
}

fn econ(net_r: f64) -> ReplayEconomics {
    ReplayEconomics { net_r: fl(net_r), ..ReplayEconomics::new() }
}

fn at(secs: i64) -> Instant {
    Instant::from_seconds(secs)
}

#[test]
fn a_run_starts_as_its_flags_say() {
    assert_eq!(run_start(true, true, true), RunStart::Completions);
    assert_eq!(run_start(false, true, false), RunStart::TestMode);
    assert_eq!(run_start(false, false, false), RunStart::MissingPlan);
    assert_eq!(run_start(false, false, true), RunStart::Live);
    assert_eq!(run_mode(false, false, false), RunMode { annotate: false, simulate: false });
    assert_eq!(run_mode(false, true, false), RunMode { annotate: true, simulate: true });
    assert_eq!(run_mode(true, false, false), RunMode { annotate: true, simulate: true });
    assert_eq!(run_mode(false, false, true), RunMode { annotate: false, simulate: true });
}

#[test]
fn a_pull_ends_one_bar_on_but_not_in_the_open_bar() {
    assert_eq!(pull_end(at(1_000), 60, at(100_000)), at(1_060));
    assert_eq!(pull_end(at(100_000), 60, at(5_000)), at(4_940));
    assert_eq!(warmup_depth(10, 96), 96);
    assert_eq!(warmup_depth(200, 96), 200);
    assert_eq!(expires_at(at(0)), at(365 * 86_400));
    assert_eq!(frozen_end(&vec![], at(7)), at(7));
    assert_eq!(frozen_end(&vec![bar(1, fl(1.0)), bar(2, fl(1.0))], at(7)), at(2));
}

#[test]
fn a_second_pass_needs_something_to_change() {
    assert_eq!(
        after_first_pass(0, true, true),
        ZoomAction::Keep(KeepReason::NothingAmbiguous)
    );
    assert_eq!(after_first_pass(2, false, true), ZoomAction::Keep(KeepReason::MayNotFetch));
    assert_eq!(after_first_pass(2, true, false), ZoomAction::Keep(KeepReason::NoFiner));
    assert_eq!(after_first_pass(2, true, true), ZoomAction::Fetch);
    assert_eq!(after_fetch(&vec![]), ZoomAction::Keep(KeepReason::NothingFetched));
    let (a, b) = (bar(1, fl(1.0)), bar(2, fl(2.0)));
    assert_eq!(after_fetch(&vec![a]), ZoomAction::RunAgain);
    assert_eq!((finer_bar_seconds(Some(15)), finer_bar_seconds(None)), (15, 60));
    assert_eq!(second_pass_bars(&vec![a], &vec![b, a]), vec![a, b, a]);
}

#[test]
fn the_last_steps_come_in_order() {
    assert_eq!(final_steps(false, false), vec![FinalStep::Print]);
    assert_eq!(
        final_steps(true, true),
        vec![FinalStep::Print, FinalStep::Annotate, FinalStep::Save]
    );
}

#[test]
fn test_mode_takes_a_pattern_before_a_name() {
    let some = |s: &str| Some(s.to_string());
    assert_eq!(test_path(some("t*"), some("a")), TestPath::Batch("t*".into()));
    assert_eq!(test_path(None, some("a")), TestPath::Single("a".into()));
    assert_eq!(test_path(None, None), TestPath::Missing);
}

#[test]
fn a_batch_compares_then_blesses_then_fails() {
    let s = BatchSummary::from_results(vec![
        BatchResult::ok("a", None, None, Some(econ(0.5))),
        BatchResult::failed("b", "lock"),
    ]);
    let kinds = vec![FailureKind::Infrastructure];
    assert_eq!(
        run_test_mode_batch(&s, &kinds, true, true, true),
        vec![
            BatchStep::Print,
            BatchStep::Compare { on_stderr: true },
            BatchStep::Bless,
            BatchStep::Fail(FailureKind::Infrastructure),
        ]
    );
    assert_eq!(score_against_baseline(false, false, false), vec![]);
    assert_eq!(
        score_against_baseline(true, false, false),
        vec![BatchStep::Compare { on_stderr: false }]
    );
    let empty = BatchSummary::from_results(vec![]);
    assert_eq!(
        run_test_mode_batch(&empty, &vec![], true, true, false),
        vec![BatchStep::Print, BatchStep::Fail(FailureKind::BadInput)]
    );
    assert_eq!(
        failed_batch_message(&s),
        "1 of 2 fixture(s) failed — see the rows above (net R +0.50 excludes them)"
    );
    assert_eq!(
        empty_batch_message("\"x*\"", "/tmp/f", &empty),
        "no fixtures matched \"x*\" under /tmp/f — check the glob and --fixtures-dir. (Nothing ran, so the +0.00 net R above is vacuous.)"
    );
}

#[test]
fn the_worst_failure_is_reported() {
    let (i, b, c) =
        (FailureKind::Infrastructure, FailureKind::BadInput, FailureKind::CheckMismatch);
    assert_eq!(aggregate_kind(&vec![]), i);
    assert_eq!(aggregate_kind(&vec![i, i]), i);
    assert_eq!(aggregate_kind(&vec![i, b, i]), b);
    assert_eq!(aggregate_kind(&vec![i, b, c, b]), c);
    assert_eq!([i.exit_code(), b.exit_code(), c.exit_code()], [3, 4, 5]);
}

fn row() -> BatchResult {
    BatchResult::ok("fx", Some("t".into()), None, Some(econ(0.35)))
}

fn flags(check: bool, rebless: bool, simulate: bool) -> FixtureFlags {
    FixtureFlags { check, rebless, simulate }
}

fn done(step: FixtureStep) -> FixtureRun {
    match step {
        FixtureStep::Done(run) => run,
        _ => panic!("the fixture is not done"),
    }
}

#[test]
fn a_fixture_is_checked_before_it_is_blessed() {
    let all = flags(true, true, true);
    let r = match after_replay("fx", row(), all) {
        FixtureStep::ReadExpected(r) => r,
        _ => panic!("the golden is read first"),
    };
    let r = match after_check("fx", r, all, ExpectedRead::Matches) {
        FixtureStep::SaveExpected(r) => r,
        _ => panic!("a match is blessed anew"),
    };
    assert_eq!(after_save("fx", r, None), FixtureRun { row: row(), kind: None });
    let failure = Failure { text: "disk".into(), kind: FailureKind::Infrastructure };
    let run = after_save("fx", row(), Some(failure));
    assert_eq!(run.kind, Some(FailureKind::Infrastructure));
    assert_eq!(run.row, BatchResult::failed("fx", "disk"));
}

#[test]
fn a_mismatch_keeps_its_row_and_is_not_blessed() {
    let read = ExpectedRead::Differs { expected: Some(econ(-0.62)), text: "diff".into() };
    let run = done(after_check("fx", row(), flags(true, true, true), read));
    assert_eq!(run.kind, Some(FailureKind::CheckMismatch));
    assert_eq!(run.row.expected_net_r, Some(fl(-0.62)));
    assert_eq!(run.row.outcome, row().outcome);
    assert_eq!(run.row.error.as_deref(), Some("diff"));
    let failure = Failure { text: "parse".into(), kind: FailureKind::BadInput };
    let run =
        done(after_check("fx", row(), flags(true, false, true), ExpectedRead::Unreadable(failure)));
    assert_eq!(run.row, BatchResult::failed("fx", "parse"));
    assert_eq!(run.kind, Some(FailureKind::BadInput));
    assert_eq!(
        diff_error("{}", "[]"),
        "fixture outcome does not match expected.json\n--- expected ---\n{}\n--- got ---\n[]"
    );
}

#[test]
fn a_golden_never_loses_its_economics() {
    let run = done(after_replay("fx", row(), flags(false, true, false)));
    assert_eq!(run.kind, Some(FailureKind::BadInput));
    assert!(run.row.error.unwrap().starts_with("refusing to re-bless fx with --simulate false:"));
    let run = done(after_replay("fx", row(), flags(false, false, false)));
    assert_eq!(run, FixtureRun { row: row(), kind: None });
}

#[test]
fn a_snapshot_holds_economics_only_of_a_simulated_run() {
    let replay: Replay<u8, u8> = Replay {
        fires: vec![Fire {
            rule_id: "r1".into(),
            action: 7,
            candle: bar(5, fl(1.25)),
            suppressed_by: vec!["news".into()],
        }],
        done: true,
        final_phase: 3,
        warnings: vec!["w".into()],
    };
    let o = ReplayOutcome::compute(&replay, true, Some(&econ(1.5)));
    assert_eq!(
        o.fires,
        vec![FireOutcome {
            rule_id: "r1".into(),
            action: 7,
            candle_time: at(5),
            candle_close: fl(1.25),
            suppressed_by: vec!["news".into()],
        }]
    );
    assert_eq!((o.done, o.final_phase), (true, 3));
    assert_eq!(o.warnings, vec!["w"]);
    assert_eq!(o.outcome, Some(econ(1.5)));
    assert_eq!(ReplayOutcome::compute(&replay, false, Some(&econ(1.5))).outcome, None);
    assert_eq!(ReplayOutcome::compute(&replay, true, None).outcome, None);
}

#[test]
fn a_fixture_keeps_finer_candles_only_where_it_has_some() {
    let four = [
        FixtureFile::Plan,
        FixtureFile::Candles,
        FixtureFile::Meta,
        FixtureFile::Expected,
    ];
    let mut want: Vec<FileStep> = four.iter().map(|f| FileStep::Write(*f)).collect();
    assert_eq!(save_steps(&vec![], false), want);
    want.push(FileStep::Remove(FixtureFile::SubBars));
    assert_eq!(save_steps(&vec![], true), want);
    want.pop();
    want.push(FileStep::Write(FixtureFile::SubBars));
    assert_eq!(save_steps(&vec![bar(0, fl(1.0))], true), want);
    assert_eq!(load_steps(false).len(), 3);
    assert_eq!(load_steps(true)[3], FileStep::Read(FixtureFile::SubBars));
    let names: Vec<&str> = four.iter().map(|f| f.file_name()).collect();
    assert_eq!(names, vec!["plan.json", "candles.json", "meta.json", "expected.json"]);
    assert_eq!(FixtureFile::SubBars.file_name(), "sub_bars.json");
    assert_eq!(write_json("{}".into()), "{}\n");
    assert_eq!(read_failure_kind(ReadFailure::Parse), FailureKind::BadInput);
    assert_eq!(read_failure_kind(ReadFailure::Read), FailureKind::Infrastructure);
    assert_eq!(fixtures_root("/x/cli"), "/x/cli/../replay-fixtures");
}

const SITUATIONS: [Situation; 7] = [
    Situation::CancelledNeverFilled,
    Situation::RestingUnfilled,
    Situation::FilledStillOpen,
    Situation::ClosedInProfit,
    Situation::ClosedAtLoss,
    Situation::NeverPlaced,
    Situation::UnresolvableAtBroker,
];

/// The answer of a broker that simulates the script.
fn simulated(situation: Situation) -> ExpectedState {
    let script = replay_state(situation);
    if !script.place {
        return ExpectedState::Unknown;
    }
    if script.cancel {
        return ExpectedState::Cancelled;
    }
    let marks = BarMarks {
        spread_hour: false,
        close_arms: false,
        noise_blocks: false,
        widen_at: None,
        ny_close_edge: false,
        learned: WidenLevels { from_placed: fl(0.0), from_breakeven: fl(0.0) },
        clamped: WidenLevels { from_placed: fl(0.0), from_breakeven: fl(0.0) },
        backstop_clear: true,
        blackout: false,
        expiry_due: false,
    };
    let path: Vec<PathBar> =
        script.candles.iter().map(|c: &BidAskCandle| PathBar { candle: *c, marks }).collect();
    let resolved = Resolved {
        direction: Direction::Short,
        entry: ResolvedEntry::Stop { trigger_price: fl(1.1000) },
        stop_loss: fl(1.1020),
        take_profit: fl(1.0950),
        min_r: fl(1.0),
        breakeven: None,
    };
    let order = Order {
        fired_at: at(0),
        expiry_bars: None,
        not_after: at(1_893_456_000),
        breakeven: false,
        widen_trigger_pips: fl(22.0),
    };
    match simulate_fill_resolved(&resolved, &order, fl(0.0001), &path) {
        SimOutcome::NeverFilled => ExpectedState::Pending,
        SimOutcome::FilledOpen { .. } => ExpectedState::OpenPosition,
        SimOutcome::TookProfit { .. } => ExpectedState::ClosedWin,
        SimOutcome::StoppedOut { .. } => ExpectedState::ClosedLossOrBreakeven,
        other => panic!("{other:?}"),
    }
}

#[test]
fn the_simulator_reaches_every_situation_it_is_driven_to() {
    for situation in SITUATIONS {
        assert_eq!(simulated(situation), expected_for(situation), "{situation:?}");
    }
}

#[test]
fn scripts_hold_the_prices_they_speak_of() {
    let s = replay_state(Situation::ClosedInProfit);
    let closes: Vec<f64> = s.candles.iter().map(|c| f64::from_bits(c.c.bits)).collect();
    assert_eq!(closes, vec![1.1010, 1.1000, 1.0949]);
    assert_eq!(s.as_of, 7200);
    assert_eq!(s.candles[1].h, fl(1.1000 + 0.0010));
    assert_eq!(s.candles[1].l, fl(1.1000 - 0.0010));
    let s = replay_state(Situation::ClosedAtLoss);
    assert_eq!(s.candles[2].c, fl(1.1021));
    assert_eq!(replay_state(Situation::RestingUnfilled).candles[1].c, fl(1.1012));
    assert_eq!(replay_state(Situation::NeverPlaced).candles[1].c, fl(1.1010));
}

#[test]
fn a_cancelled_order_differs_from_an_unresolved_one_by_its_record_alone() {
    let cancelled = live_state(Situation::CancelledNeverFilled);
    let lost = live_state(Situation::UnresolvableAtBroker);
    assert_eq!(cancelled.fate, OrderFate::TerminallyUnfilled);
    assert_eq!(lost.fate, OrderFate::Unresolved);
    assert_eq!(replay_candles::attempt_state::LiveInputs { fate: lost.fate, ..cancelled }, lost);
    assert_eq!(live_state(Situation::ClosedInProfit).closed_pl, Some(fl(12.5)));
    assert_eq!(live_state(Situation::ClosedAtLoss).closed_pl, Some(fl(-5.0)));
    assert_ne!(
        expected_for(Situation::CancelledNeverFilled),
        expected_for(Situation::UnresolvableAtBroker)
    );
}

#[test]
fn an_answer_is_read_without_what_it_carries() {
    assert_eq!(ExpectedState::of(&AttemptState::Pending), ExpectedState::Pending);
    assert_eq!(
        ExpectedState::of(&AttemptState::OpenPosition { broker_trade_id: "x".into() }),
        ExpectedState::OpenPosition
    );
    assert_eq!(
        ExpectedState::of(&AttemptState::ClosedWin { realized_pl: fl(1.0) }),
        ExpectedState::ClosedWin
    );
    assert_eq!(
        ExpectedState::of(&AttemptState::ClosedLossOrBreakeven { realized_pl: fl(0.0) }),
        ExpectedState::ClosedLossOrBreakeven
    );
    assert_eq!(ExpectedState::of(&AttemptState::Cancelled), ExpectedState::Cancelled);
    assert_eq!(ExpectedState::of(&AttemptState::Unknown), ExpectedState::Unknown);
}
