//! Candles with bid and ask books, and how price reaches a level on them.
use vstd::prelude::*;
use crate::binary64::{difference, Float};
use crate::time::Instant;

verus! {

/// The side of a trade.
#[derive(Clone, Copy, Debug, PartialEq, Eq, Structural)]
pub enum Direction {
    Long,
    Short,
}

/// One bar with its mid, bid and ask prices. `time` is the bar's open-time.
#[derive(Clone, Copy, Debug, PartialEq, Eq, Structural)]
pub struct BidAskCandle {
    pub time: Instant,
    pub o: Float,
    pub h: Float,
    pub l: Float,
    pub c: Float,
    pub bid_o: Float,
    pub bid_h: Float,
    pub bid_l: Float,
    pub bid_c: Float,
    pub ask_o: Float,
    pub ask_h: Float,
    pub ask_l: Float,
    pub ask_c: Float,
}

impl BidAskCandle {
    /// The spread at the close, in price.
    pub fn close_spread(&self) -> (spread: Float)
        ensures
            spread == difference(self.ask_c, self.bid_c),
    {
        self.ask_c.minus(self.bid_c)
    }
}

/// Which broker book a price level is tested against.
#[derive(Clone, Copy, Debug, PartialEq, Eq, Structural)]
pub enum Book {
    /// A sell fills here: short entry, long exit.
    Bid,
    /// A buy fills here: long entry, short exit.
    Ask,
}

/// Which leg of the trade a level belongs to.
#[derive(Clone, Copy, Debug, PartialEq, Eq, Structural)]
pub enum Leg {
    Entry,
    Exit,
}

/// Which side price approaches a level from.
#[derive(Clone, Copy, Debug, PartialEq, Eq, Structural)]
pub enum Approach {
    /// Price rises to the level: touched when the bar's high reaches it.
    FromBelow,
    /// Price falls to the level: touched when the bar's low reaches it.
    FromAbove,
}

/// A buy trades on the ask and a sell on the bid; a trade is closed by the opposite deal.
pub open spec fn book_of(leg: Leg, dir: Direction) -> Book {
    if (leg == Leg::Entry) == (dir == Direction::Long) {
        Book::Ask
    } else {
        Book::Bid
    }
}

/// The book that a leg of a trade fills on.
pub fn book_for(leg: Leg, dir: Direction) -> (book: Book)
    ensures
        book == book_of(leg, dir),
{
    match (leg, dir) {
        (Leg::Entry, Direction::Long) => Book::Ask,
        (Leg::Entry, Direction::Short) => Book::Bid,
        (Leg::Exit, Direction::Long) => Book::Bid,
        (Leg::Exit, Direction::Short) => Book::Ask,
    }
}

/// A long's stop-loss lies below the market and a short's above.
pub open spec fn stop_side(dir: Direction) -> Approach {
    match dir {
        Direction::Long => Approach::FromAbove,
        Direction::Short => Approach::FromBelow,
    }
}

/// A take-profit lies on the other side than the stop-loss.
pub open spec fn profit_side(dir: Direction) -> Approach {
    match dir {
        Direction::Long => Approach::FromBelow,
        Direction::Short => Approach::FromAbove,
    }
}

/// The side that a stop-loss is approached from.
pub fn stop_approach(dir: Direction) -> (side: Approach)
    ensures
        side == stop_side(dir),
{
    match dir {
        Direction::Long => Approach::FromAbove,
        Direction::Short => Approach::FromBelow,
    }
}

/// The side that a take-profit is approached from.
pub fn tp_approach(dir: Direction) -> (side: Approach)
    ensures
        side == profit_side(dir),
{
    match dir {
        Direction::Long => Approach::FromBelow,
        Direction::Short => Approach::FromAbove,
    }
}

/// Price traded to `level` or through it: the high is at or above it where price rises to it, the
/// low at or below it where price falls to it. A bar that opens past the level counts.
pub open spec fn reaches(c: BidAskCandle, book: Book, level: Float, side: Approach) -> bool {
    match (book, side) {
        (Book::Bid, Approach::FromBelow) => level.at_most(c.bid_h),
        (Book::Bid, Approach::FromAbove) => c.bid_l.at_most(level),
        (Book::Ask, Approach::FromBelow) => level.at_most(c.ask_h),
        (Book::Ask, Approach::FromAbove) => c.ask_l.at_most(level),
    }
}

/// Whether the candle's range on a book reaches `level` from the given side.
pub fn book_reaches(c: &BidAskCandle, book: Book, level: Float, approach: Approach) -> (b: bool)
    ensures
        b == reaches(*c, book, level, approach),
{
    let (lo, hi) = match book {
        Book::Bid => (c.bid_l, c.bid_h),
        Book::Ask => (c.ask_l, c.ask_h),
    };
    match approach {
        Approach::FromBelow => level.le(hi),
        Approach::FromAbove => lo.le(level),
    }
}

/// Price traded at or past the stop during the bar, on the mid book: at the low for a long, at
/// the high for a short.
pub open spec fn breached(c: BidAskCandle, dir: Direction, stop: Float) -> bool {
    match dir {
        Direction::Long => c.l.at_most(stop),
        Direction::Short => stop.at_most(c.h),
    }
}

/// Whether the bar's adverse extreme overtakes the stop.
pub fn breach_detected(c: &BidAskCandle, dir: Direction, stop: Float) -> (b: bool)
    ensures
        b == breached(*c, dir, stop),
{
    match dir {
        Direction::Long => c.l.le(stop),
        Direction::Short => stop.le(c.h),
    }
}

/// Where the bars carry one price for bid, ask and mid, a breach is a touch of the stop.
pub proof fn a_breach_is_a_stop_touch_without_spread(c: BidAskCandle, dir: Direction, stop: Float)
    requires
        c.bid_l == c.l,
        c.ask_h == c.h,
    ensures
        breached(c, dir, stop) == reaches(c, book_of(Leg::Exit, dir), stop, stop_side(dir)),
{
}

/// A stop moved away from price is reached on no bar that left the nearer one alone.
pub proof fn a_looser_stop_is_reached_no_sooner(
    c: BidAskCandle,
    dir: Direction,
    stop: Float,
    looser: Float,
)
    requires
        match dir {
            Direction::Long => looser.at_most(stop),
            Direction::Short => stop.at_most(looser),
        },
    ensures
        reaches(c, book_of(Leg::Exit, dir), looser, stop_side(dir)) ==> reaches(
            c,
            book_of(Leg::Exit, dir),
            stop,
            stop_side(dir),
        ),
{
}

/// A long buys on the ask and sells on the bid, a short sells on the bid and buys on the ask; a
/// level is reached from below by a book's high, and from above by its low.
pub proof fn each_leg_trades_on_its_own_book(c: BidAskCandle, level: Float)
    ensures
        book_of(Leg::Entry, Direction::Long) == Book::Ask,
        book_of(Leg::Exit, Direction::Long) == Book::Bid,
        book_of(Leg::Entry, Direction::Short) == Book::Bid,
        book_of(Leg::Exit, Direction::Short) == Book::Ask,
        reaches(c, Book::Bid, level, Approach::FromBelow) == level.at_most(c.bid_h),
        reaches(c, Book::Bid, level, Approach::FromAbove) == c.bid_l.at_most(level),
        reaches(c, Book::Ask, level, Approach::FromBelow) == level.at_most(c.ask_h),
        reaches(c, Book::Ask, level, Approach::FromAbove) == c.ask_l.at_most(level),
        breached(c, Direction::Long, level) == c.l.at_most(level),
        breached(c, Direction::Short, level) == level.at_most(c.h),
{
}

} // verus!
