use chrono::TimeZone;
use replay_candles::annotate::{
    box_style, clear_prior, draw_position, drawn_ids, ids_or_none, manifest_path, outcome_label,
    read_manifest, write_manifest, Removal, LONG_COLOR, SHORT_COLOR, UNFILLED_COLOR,
    UNFILLED_TRANSPARENCY, ZONE_TRANSPARENCY,
};
use replay_candles::binary64::Float;
use replay_candles::brisbane::{bne, utc};
use replay_candles::candles::{
    to_engine_candle, tradenation_account, AccountError, BidAskCandleData, TradeNationAccount,
};
use replay_candles::market::Direction;
use replay_candles::report::{FillKind, FireResult};
use replay_candles::time::{Instant, FIRST_SECOND, LAST_SECOND};

fn fl(x: f64) -> Float {
    Float { bits: x.to_bits() }
}

fn num(x: Float) -> f64 {
    f64::from_bits(x.bits)
}

fn instant(y: i32, m: u32, d: u32, h: u32) -> Instant {
    Instant::from_seconds(chrono::Utc.with_ymd_and_hms(y, m, d, h, 0, 0).unwrap().timestamp())
}

#[test]
fn taken_positions_use_directional_tint_not_taken_are_muted() {
    let (c, t) = box_style(true, Direction::Long);
    assert_eq!((c, t), (LONG_COLOR, ZONE_TRANSPARENCY), "taken long = green");
    let (c, t) = box_style(true, Direction::Short);
    assert_eq!((c, t), (SHORT_COLOR, ZONE_TRANSPARENCY), "taken short = red");
    let (c, t) = box_style(false, Direction::Long);
    assert_eq!(c, UNFILLED_COLOR, "not-taken muted");
    assert!(t > ZONE_TRANSPARENCY, "not-taken is fainter than taken");
    assert_eq!((LONG_COLOR, SHORT_COLOR, UNFILLED_COLOR), ("#26a69a", "#ef5350", "#787b86"));
}

#[test]
fn outcome_label_covers_every_kind() {
    assert_eq!(outcome_label(FillKind::Open), "open");
    assert_eq!(outcome_label(FillKind::StoppedOut), "SL");
    assert_eq!(outcome_label(FillKind::TookProfit), "TP");
    assert_eq!(outcome_label(FillKind::NeverFilled), "no-fill");
    assert_eq!(outcome_label(FillKind::Declined), "declined");
    assert_eq!(outcome_label(FillKind::ClosedOnReversal), "reversal");
    assert_eq!(outcome_label(FillKind::SpreadBlackout), "spread");
    assert_eq!(outcome_label(FillKind::GateBlocked), "gate-blocked");
}

#[test]
fn manifest_path_is_under_config_trade_control() {
    assert_eq!(
        manifest_path("/home/tester"),
        "/home/tester/.config/trade-control/replay-annotations.json"
    );
    assert_eq!(manifest_path("/"), "/.config/trade-control/replay-annotations.json");
    assert_eq!(manifest_path(""), ".config/trade-control/replay-annotations.json");
}

#[test]
fn read_manifest_missing_file_is_empty() {
    assert!(read_manifest(None).is_empty(), "missing manifest → no ids");
    assert!(read_manifest(Some("")).is_empty());
    assert!(read_manifest(Some("{\"a\": 1}")).is_empty());
    assert!(read_manifest(Some("[1, 2]")).is_empty());
    assert!(ids_or_none(None).is_empty());
}

#[test]
fn a_manifest_reads_back_what_was_written() {
    for ids in [
        vec![],
        vec!["a1".to_string()],
        vec!["quote\"d".to_string(), "new\nline".to_string(), "日本 \u{1F600}\u{0}".to_string()],
    ] {
        let text = write_manifest(&ids);
        assert_eq!(read_manifest(Some(&text)), ids);
    }
    assert_eq!(read_manifest(Some(" [ \"x\", \"y\" ] ")), vec!["x", "y"]);
    assert_eq!(write_manifest(&vec!["x".to_string()]), "[\n  \"x\"\n]");
}

#[test]
fn a_position_is_drawn_with_its_bracket() {
    let mut pos = FireResult {
        direction: Direction::Short,
        fill_at: instant(2026, 6, 18, 11),
        until: instant(2026, 6, 18, 20),
        entry_price: fl(1.1),
        stop_loss: fl(1.12),
        take_profit: fl(1.05),
        exit_price: None,
        kind: FillKind::StoppedOut,
    };
    let p = draw_position(&pos);
    assert_eq!((p.time1, p.time2), (1_781_780_400, 1_781_812_800));
    assert_eq!((num(p.entry), num(p.stop_loss), num(p.take_profit)), (1.1, 1.12, 1.05));
    assert_eq!((p.color, p.transparency, p.shape), (SHORT_COLOR, 80, "position tool"));
    pos.kind = FillKind::NeverFilled;
    let p = draw_position(&pos);
    assert_eq!(
        (p.color, p.transparency, p.shape),
        (UNFILLED_COLOR, UNFILLED_TRANSPARENCY, "muted (not taken)")
    );
}

#[test]
fn drawings_are_counted_and_recorded() {
    assert_eq!(clear_prior(&vec![Removal::Removed, Removal::Gone, Removal::Failed, Removal::Removed]), 2);
    assert_eq!(
        drawn_ids(&vec![Some("a".to_string()), None, Some("b".to_string())]),
        vec!["a", "b"]
    );
}

#[test]
fn renders_utc_instant_as_brisbane() {
    assert_eq!(bne(instant(2026, 6, 18, 11)), "2026-06-18 21:00:00 +10:00");
}

#[test]
fn rolls_the_date_forward_past_midnight() {
    assert_eq!(bne(instant(2026, 6, 18, 20)), "2026-06-19 06:00:00 +10:00");
}

#[test]
fn instants_before_1970_and_within_a_second_are_printed() {
    assert_eq!(bne(Instant { nanos: -1 }), "1970-01-01 09:59:59 +10:00");
    assert_eq!(utc(Instant { nanos: -1 }), "1969-12-31 23:59:59.999999999 UTC");
    assert_eq!(utc(instant(2026, 7, 31, 14)), "2026-07-31 14:00:00 UTC");
    assert_eq!(Instant { nanos: -1 }.timestamp(), -1);
}

#[test]
fn the_calendar_ends_where_it_is_said_to() {
    assert_eq!(chrono::DateTime::<chrono::Utc>::MIN_UTC.timestamp(), FIRST_SECOND);
    assert_eq!(chrono::DateTime::<chrono::Utc>::MAX_UTC.timestamp(), LAST_SECOND);
    for s in [FIRST_SECOND, LAST_SECOND] {
        let t = Instant::from_seconds(s);
        assert!(t.is_valid());
        assert!(!bne(t).is_empty());
        assert!(!utc(t).is_empty());
    }
    assert!(!Instant::from_seconds(LAST_SECOND + 1).is_valid());
    assert!(!Instant::from_seconds(FIRST_SECOND - 1).is_valid());
}

#[test]
fn converts_candle_fields_and_timezone() {
    let bne = chrono::FixedOffset::east_opt(10 * 3600).unwrap();
    let stamp = bne.with_ymd_and_hms(2026, 6, 18, 21, 0, 0).unwrap();
    let cd = BidAskCandleData {
        open: fl(1.0),
        high: fl(1.5),
        low: fl(0.9),
        close: fl(1.2),
        volume: fl(100.0),
        local_nanos: stamp.naive_local().and_utc().timestamp() as i128 * 1_000_000_000,
        offset_seconds: 36_000,
        bid_open: fl(0.99),
        bid_high: fl(1.49),
        bid_low: fl(0.89),
        bid_close: fl(1.19),
        ask_open: fl(1.01),
        ask_high: fl(1.51),
        ask_low: fl(0.91),
        ask_close: fl(1.21),
    };
    let ec = to_engine_candle(&cd);
    assert_eq!(ec.time, instant(2026, 6, 18, 11));
    assert_eq!((num(ec.o), num(ec.h), num(ec.l), num(ec.c)), (1.0, 1.5, 0.9, 1.2));
    assert_eq!(
        (num(ec.bid_o), num(ec.bid_h), num(ec.bid_l), num(ec.bid_c)),
        (0.99, 1.49, 0.89, 1.19)
    );
    assert_eq!(
        (num(ec.ask_o), num(ec.ask_h), num(ec.ask_l), num(ec.ask_c)),
        (1.01, 1.51, 0.91, 1.21)
    );
}

#[test]
fn a_candle_at_the_end_of_the_calendar_is_converted() {
    let zero = fl(0.0);
    let cd = BidAskCandleData {
        open: zero,
        high: zero,
        low: zero,
        close: zero,
        volume: zero,
        // Ten hours ahead of the last second, where no local date is left.
        local_nanos: (LAST_SECOND + 36_000) as i128 * 1_000_000_000,
        offset_seconds: 36_000,
        bid_open: zero,
        bid_high: zero,
        bid_low: zero,
        bid_close: zero,
        ask_open: zero,
        ask_high: zero,
        ask_low: zero,
        ask_close: zero,
    };
    assert_eq!(to_engine_candle(&cd).time, Instant::from_seconds(LAST_SECOND));
}

#[test]
fn the_account_is_demo_unless_asked_otherwise() {
    let some = |s: &str| Some(s.to_string());
    assert_eq!(tradenation_account(None, None, None), Ok(TradeNationAccount::Demo));
    assert_eq!(tradenation_account(Some("DEMO"), None, None), Ok(TradeNationAccount::Demo));
    assert_eq!(
        tradenation_account(Some("Live"), some("u"), some("p")),
        Ok(TradeNationAccount::Live { user: "u".into(), password: "p".into() })
    );
    assert_eq!(tradenation_account(Some("live"), None, None), Err(AccountError::UserMissing));
    assert_eq!(
        tradenation_account(Some("live"), some("u"), None),
        Err(AccountError::PasswordMissing)
    );
    assert_eq!(
        tradenation_account(Some("Paper"), None, None),
        Err(AccountError::NotUnderstood("paper".into()))
    );
}
