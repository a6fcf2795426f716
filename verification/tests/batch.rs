use replay_candles::arm_record::{ArmRecord, EntryRule};
use replay_candles::batch::{matching_fixtures, BatchResult, BatchSummary};
use replay_candles::binary64::Float;
use replay_candles::economics::ReplayEconomics;
use replay_candles::glob::glob_matches;
use std::collections::{HashMap, HashSet};

fn fl(x: f64) -> Float {
    Float { bits: x.to_bits() }
}

fn num(x: Float) -> f64 {
    f64::from_bits(x.bits)
}

#[test]
fn glob_exact_and_star() {
    assert!(glob_matches("trade-124", "trade-124"));
    assert!(!glob_matches("trade-124", "trade-125"));
    assert!(glob_matches("*", "anything"));
    assert!(glob_matches("trade-124-*", "trade-124-skip-bcr"));
    assert!(!glob_matches("trade-124-*", "trade-125-skip-bcr"));
    assert!(glob_matches("trade-124*", "trade-124"));
}

#[test]
fn glob_suffix_infix_and_question() {
    assert!(glob_matches("*-news-off", "trade-124-normal-news-off"));
    assert!(!glob_matches("*-news-off", "trade-124-normal-news-on"));
    assert!(glob_matches("trade-*-news-on", "trade-99-normal-news-on"));
    assert!(glob_matches("trade-12?", "trade-124"));
    assert!(!glob_matches("trade-12?", "trade-1240"));
}

#[test]
fn glob_backtracks_over_repeated_literals() {
    assert!(glob_matches("*-news-on", "t-news-on-news-on"));
    assert!(glob_matches("*abc", "zzabcabc"));
    assert!(!glob_matches("*abc", "zzabcx"));
}

#[test]
fn multiple_stars() {
    assert!(glob_matches("*normal*", "trade-124-normal-news-on"));
    assert!(glob_matches("trade-*-*-news-on", "trade-124-normal-news-on"));
    assert!(!glob_matches("*normal*", "trade-124-skip-bcr-news-on"));
}

#[test]
fn glob_edges() {
    assert!(glob_matches("", ""));
    assert!(!glob_matches("", "a"));
    assert!(glob_matches("**", ""));
    assert!(!glob_matches("?", ""));
    assert!(glob_matches("a*b*c", "aXbYbZc"));
    assert!(!glob_matches("a*b*c", "aXbYbZd"));
    assert!(glob_matches("*?", "é"));
    assert!(!glob_matches("a?", "a"));
}

fn arm(rule: EntryRule, skip_calendar_bars: bool) -> ArmRecord {
    ArmRecord { entry_rule: rule, skip_calendar_bars, ..Default::default() }
}

fn econ(net_r: f64) -> ReplayEconomics {
    ReplayEconomics { net_r: fl(net_r), ..ReplayEconomics::new() }
}

#[test]
fn ok_row_carries_its_grid_cell() {
    let r = BatchResult::ok(
        "trade-124-skip-bcr-news-off",
        Some("hs-eurusd-abc".into()),
        Some(arm(EntryRule::SkipBcr, true)),
        Some(econ(-0.48)),
    );
    assert!(r.ok);
    assert_eq!(r.cell.as_deref(), Some("skip-bcr/news-off"));
    assert_eq!(r.trade_id.as_deref(), Some("hs-eurusd-abc"));
    assert!((num(r.net_r()) + 0.48).abs() < 1e-9);
}

#[test]
fn failed_row_is_explicit_not_absent() {
    let r = BatchResult::failed("trade-77-normal-news-on", "cache lock");
    assert!(!r.ok);
    assert_eq!(r.error.as_deref(), Some("cache lock"));
    assert!(r.outcome.is_none());
    assert_eq!(num(r.net_r()), 0.0);
}

#[test]
fn a_check_mismatch_keeps_its_measurements_and_the_golden_it_missed() {
    let ok_row = BatchResult::ok(
        "trade-124-normal-news-on",
        Some("hs-eurusd-abc".into()),
        Some(arm(EntryRule::Normal, false)),
        Some(econ(0.35)),
    );
    let r = BatchResult::mismatched(ok_row, Some(&econ(-0.62)), "golden mismatch: <big diff>");
    assert!(!r.ok);
    assert!(r.error.is_some());
    assert_eq!(r.outcome.as_ref().map(|o| num(o.net_r)), Some(0.35));
    assert_eq!(r.expected_net_r.map(num), Some(-0.62));
    assert_eq!(r.cell.as_deref(), Some("normal/news-on"));
    assert_eq!(r.trade_id.as_deref(), Some("hs-eurusd-abc"));
    let delta = r.outcome.as_ref().map(|o| num(o.net_r)).unwrap_or(0.0)
        - r.expected_net_r.map(num).unwrap_or(0.0);
    assert!((delta - 0.97).abs() < 1e-9, "delta was {delta}");
}

#[test]
fn a_mismatch_row_has_an_outcome_but_is_excluded_from_the_aggregate() {
    let ok_row = BatchResult::ok("b", None, None, Some(econ(0.35)));
    let s = BatchSummary::from_results(vec![
        BatchResult::ok("a", None, None, Some(econ(0.52))),
        BatchResult::mismatched(ok_row, Some(&econ(-0.62)), "mismatch"),
    ]);
    assert_eq!(s.succeeded, 1);
    assert_eq!(s.failed, 1);
    assert!((num(s.net_r) - 0.52).abs() < 1e-9);
}

#[test]
fn a_broken_fixture_carries_no_expected_net_r() {
    let r = BatchResult::failed("t", "cache lock");
    assert!(r.outcome.is_none());
    assert!(r.expected_net_r.is_none());
}

#[test]
fn a_flat_run_is_ok_and_distinguishable_from_a_failure() {
    let flat = BatchResult::ok("t", None, None, Some(econ(0.0)));
    let died = BatchResult::failed("t", "boom");
    assert_eq!(num(flat.net_r()), num(died.net_r()), "both read 0.0 …");
    assert_ne!(flat.ok, died.ok, "… but `ok` tells them apart");
    assert!(flat.outcome.is_some() && died.outcome.is_none());
}

#[test]
fn summary_excludes_failures_and_says_so() {
    let s = BatchSummary::from_results(vec![
        BatchResult::ok("a", None, None, Some(econ(0.52))),
        BatchResult::ok("b", None, None, Some(econ(-0.48))),
        BatchResult::failed("c", "cache lock"),
    ]);
    assert_eq!((s.matched, s.succeeded, s.failed), (3, 2, 1));
    assert!((num(s.net_r) - 0.04).abs() < 1e-9);
    assert!(s.headline().contains("INCOMPLETE"), "{}", s.headline());
    assert_eq!(
        s.headline(),
        "batch: 3 fixture(s) — 2 ok, 1 failed  |  Net R: +0.04  ← INCOMPLETE, net R excludes the failures"
    );
}

#[test]
fn clean_summary_has_no_incomplete_warning() {
    let s = BatchSummary::from_results(vec![BatchResult::ok("a", None, None, Some(econ(1.0)))]);
    assert_eq!(s.failed, 0);
    assert!(!s.headline().contains("INCOMPLETE"));
    assert!(s.headline().contains("Net R: +1.00"));
}

#[test]
fn empty_batch_summarises_cleanly() {
    let s = BatchSummary::from_results(Vec::new());
    assert_eq!((s.matched, s.succeeded, s.failed), (0, 0, 0));
    assert_eq!(num(s.net_r), 0.0);
}

#[test]
fn flat_batch_never_prints_negative_zero() {
    for results in [
        Vec::new(),
        vec![BatchResult::ok("a", None, None, Some(econ(0.0)))],
        vec![BatchResult::ok("a", None, None, Some(econ(-0.0)))],
        vec![
            BatchResult::ok("a", None, None, Some(econ(1.0))),
            BatchResult::ok("b", None, None, Some(econ(-1.0))),
        ],
    ] {
        let line = BatchSummary::from_results(results).headline();
        assert!(!line.contains("-0.00"), "flat batch must not read as a loss: {line}");
    }
}

#[test]
fn matching_fixtures_filters_and_sorts() {
    let names: Vec<String> =
        ["trade-2-normal", "trade-1-skip-bcr", "trade-1-normal", "other-thing"]
            .iter()
            .map(|s| s.to_string())
            .collect();
    assert_eq!(matching_fixtures(&names, "trade-1-*"), vec!["trade-1-normal", "trade-1-skip-bcr"]);
    assert_eq!(
        matching_fixtures(&names, "trade-*"),
        vec!["trade-1-normal", "trade-1-skip-bcr", "trade-2-normal"]
    );
}

#[test]
fn missing_root_is_an_empty_batch() {
    assert!(matching_fixtures(&Vec::new(), "*").is_empty());
}

#[test]
fn six_rows_assemble_into_a_grid() {
    let rows: Vec<BatchResult> = [
        (EntryRule::Normal, false, 0.52),
        (EntryRule::Normal, true, 0.52),
        (EntryRule::SkipBcr, false, -0.48),
        (EntryRule::SkipBcr, true, -0.48),
        (EntryRule::StrategyV2, false, -0.48),
        (EntryRule::StrategyV2, true, -0.48),
    ]
    .into_iter()
    .map(|(rule, news_off, r)| {
        let news = if news_off { "news-off" } else { "news-on" };
        BatchResult::ok(
            &format!("trade-124-{}-{news}", rule.label()),
            Some("trade-124".into()),
            Some(arm(rule, news_off)),
            Some(econ(r)),
        )
    })
    .collect();
    let names: HashSet<&str> = rows.iter().map(|r| r.fixture.as_str()).collect();
    assert_eq!(names.len(), 6);
    let summary = BatchSummary::from_results(rows);
    assert_eq!(summary.succeeded, 6);
    assert_eq!(summary.failed, 0);
    let cells: HashMap<String, f64> = summary
        .results
        .iter()
        .filter(|r| r.ok)
        .filter_map(|r| Some((r.cell.clone()?, num(r.net_r()))))
        .collect();
    assert_eq!(cells.len(), 6, "six distinct cells: {cells:?}");
    assert!((cells["normal/news-on"] - 0.52).abs() < 1e-9);
    assert!((cells["skip-bcr/news-off"] + 0.48).abs() < 1e-9);
    assert!(cells["normal/news-on"] > cells["skip-bcr/news-on"]);
}
