use replay_candles::binary64::Float;
use replay_candles::market::{
    book_for, book_reaches, breach_detected, stop_approach, tp_approach, Approach, BidAskCandle,
    Book, Direction, Leg,
};
use replay_candles::payload::{fresh_suffix, strip_quotes};
use replay_candles::text::{chars_of, comes_before, join_path, lowered, same_text, starts_at, string_of};
use replay_candles::time::Instant;
use replay_candles::window::{resolve_window, TvDefaults, WindowEnd, WindowSource};

fn fl(x: f64) -> Float {
    Float { bits: x.to_bits() }
}

/// A candle from `low` to `high` at the mid, with this half spread around it.
fn candle(low: f64, high: f64, half: f64) -> BidAskCandle {
    BidAskCandle {
        time: Instant::from_seconds(0),
        o: fl(low),
        h: fl(high),
        l: fl(low),
        c: fl(high),
        bid_o: fl(low - half),
        bid_h: fl(high - half),
        bid_l: fl(low - half),
        bid_c: fl(high - half),
        ask_o: fl(low + half),
        ask_h: fl(high + half),
        ask_l: fl(low + half),
        ask_c: fl(high + half),
    }
}

fn stopped(c: &BidAskCandle, dir: Direction, stop: f64) -> bool {
    book_reaches(c, book_for(Leg::Exit, dir), fl(stop), stop_approach(dir))
}

#[test]
fn each_leg_trades_on_its_own_book() {
    assert_eq!(book_for(Leg::Entry, Direction::Long), Book::Ask);
    assert_eq!(book_for(Leg::Exit, Direction::Long), Book::Bid);
    assert_eq!(book_for(Leg::Entry, Direction::Short), Book::Bid);
    assert_eq!(book_for(Leg::Exit, Direction::Short), Book::Ask);
    assert_eq!(stop_approach(Direction::Long), Approach::FromAbove);
    assert_eq!(tp_approach(Direction::Long), Approach::FromBelow);
    assert_eq!(stop_approach(Direction::Short), Approach::FromBelow);
    assert_eq!(tp_approach(Direction::Short), Approach::FromAbove);
}

#[test]
fn a_level_is_reached_at_its_price_and_beyond() {
    let c = candle(10.0, 12.0, 0.5);
    assert!(book_reaches(&c, Book::Bid, fl(11.5), Approach::FromBelow));
    assert!(!book_reaches(&c, Book::Bid, fl(11.6), Approach::FromBelow));
    assert!(book_reaches(&c, Book::Ask, fl(12.5), Approach::FromBelow));
    assert!(book_reaches(&c, Book::Bid, fl(9.5), Approach::FromAbove));
    assert!(book_reaches(&c, Book::Bid, fl(20.0), Approach::FromAbove));
    assert!(!book_reaches(&c, Book::Ask, fl(10.4), Approach::FromAbove));
    assert!(!book_reaches(&c, Book::Ask, fl(f64::NAN), Approach::FromAbove));
}

#[test]
fn a_breach_is_judged_at_the_mid() {
    let c = candle(10.0, 12.0, 0.5);
    assert!(breach_detected(&c, Direction::Long, fl(10.0)));
    assert!(!breach_detected(&c, Direction::Long, fl(9.9)));
    assert!(breach_detected(&c, Direction::Short, fl(12.0)));
    assert!(!breach_detected(&c, Direction::Short, fl(12.1)));
    // The books reach further than the mid.
    assert!(stopped(&c, Direction::Long, 9.9) && stopped(&c, Direction::Short, 12.1));
    // Without a spread the two agree.
    let flat = candle(10.0, 12.0, 0.0);
    for stop in [9.9, 10.0, 10.1, 11.9, 12.0, 12.1] {
        for dir in [Direction::Long, Direction::Short] {
            assert_eq!(breach_detected(&flat, dir, fl(stop)), stopped(&flat, dir, stop));
        }
    }
}

#[test]
fn a_looser_stop_is_never_hit_first() {
    let c = candle(10.0, 12.0, 0.25);
    let levels = [9.0, 9.75, 9.8, 10.0, 12.0, 12.25, 12.3];
    for stop in levels {
        for other in levels {
            if other <= stop && stopped(&c, Direction::Long, other) {
                assert!(stopped(&c, Direction::Long, stop));
            }
            if other >= stop && stopped(&c, Direction::Short, other) {
                assert!(stopped(&c, Direction::Short, stop));
            }
        }
    }
}

#[test]
fn texts_are_ordered_as_strings_are() {
    let texts = ["", "a", "aa", "ab", "b", "Z", "é", "日", "\u{1F600}", "a\u{0}"];
    for a in texts {
        for b in texts {
            assert_eq!(comes_before(a, b), a < b, "{a:?} {b:?}");
            assert_eq!(same_text(a, b), a == b, "{a:?} {b:?}");
        }
    }
}

#[test]
fn texts_are_taken_apart_and_put_together() {
    let chars = chars_of("aé日");
    assert_eq!(chars, vec!['a', 'é', '日']);
    assert_eq!(string_of(&chars, 1, 3), "é日");
    assert!(starts_at(&chars, 1, "é") && !starts_at(&chars, 2, "é"));
    assert!(starts_at(&chars, 3, "") && !starts_at(&chars, 3, "x"));
    assert_eq!(lowered("TN Demo É"), "tn demo É");
    for (dir, path) in [("/a", "b"), ("/a/", "b"), ("", "b"), ("/", "b"), ("a", "b/c"), ("a", "../b")] {
        assert_eq!(join_path(dir, path), std::path::Path::new(dir).join(path).to_string_lossy());
    }
}

#[test]
fn stripping_twice_strips_no_more_space() {
    for text in ["  a b ", "\tx\n", "   ", "a"] {
        assert_eq!(strip_quotes(strip_quotes(text)), strip_quotes(text));
        assert_eq!(strip_quotes(text), text.trim());
    }
}

#[test]
fn suffixes_are_drawn_anew() {
    let drawn: Vec<String> = (0..32).filter_map(|_| fresh_suffix().ok()).collect();
    assert_eq!(drawn.len(), 32);
    assert!(drawn.iter().any(|s| *s != drawn[0]), "{drawn:?}");
}

#[test]
fn a_chart_that_is_not_needed_changes_nothing() {
    let at = Instant::from_seconds;
    let chart = || TvDefaults {
        instrument: "GBP_JPY".to_string(),
        start: at(100),
        fallback_end: at(200),
    };
    let window = |chart: Option<TvDefaults>| {
        resolve_window(None, Some(Ok(at(9))), Some("X".to_string()), Some(5), None, &chart)
    };
    assert_eq!(window(None), window(Some(chart())));
    let flagged = resolve_window(
        Some(Ok(at(1))),
        Some(Ok(at(2))),
        Some("X".to_string()),
        Some(5),
        Some(6),
        &Some(chart()),
    )
    .unwrap();
    assert_eq!((flagged.start, flagged.end), (at(1), at(2)));
    assert_eq!(flagged.start_source, WindowSource::Flag(WindowEnd::Start));
    assert_eq!(flagged.end_source, WindowSource::Flag(WindowEnd::End));
    assert_eq!(flagged.instrument.as_deref(), Some("X"));
}
