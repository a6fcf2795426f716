//! What became of an entry attempt, and the situations that a broker must answer alike for.
use vstd::prelude::*;
use crate::binary64::{difference, sum, Float};
use crate::market::BidAskCandle;
use crate::time::Instant;

verus! {

/// What became of an entry attempt, as a broker answers it.
#[derive(Debug, PartialEq, Eq)]
pub enum AttemptState {
    Pending,
    OpenPosition { broker_trade_id: String },
    ClosedWin { realized_pl: Float },
    ClosedLossOrBreakeven { realized_pl: Float },
    Cancelled,
    Unknown,
}

/// The answer as far as it decides whether to enter again.
#[derive(Clone, Copy, Debug, PartialEq, Eq, Structural)]
pub enum ExpectedState {
    Pending,
    OpenPosition,
    ClosedWin,
    ClosedLossOrBreakeven,
    Cancelled,
    Unknown,
}

impl ExpectedState {
    /// The answer without what it carries.
    pub fn of(state: &AttemptState) -> (e: ExpectedState)
        ensures
            e == match *state {
                AttemptState::Pending => ExpectedState::Pending,
                AttemptState::OpenPosition { .. } => ExpectedState::OpenPosition,
                AttemptState::ClosedWin { .. } => ExpectedState::ClosedWin,
                AttemptState::ClosedLossOrBreakeven { .. } => ExpectedState::ClosedLossOrBreakeven,
                AttemptState::Cancelled => ExpectedState::Cancelled,
                AttemptState::Unknown => ExpectedState::Unknown,
            },
    {
        match state {
            AttemptState::Pending => ExpectedState::Pending,
            AttemptState::OpenPosition { .. } => ExpectedState::OpenPosition,
            AttemptState::ClosedWin { .. } => ExpectedState::ClosedWin,
            AttemptState::ClosedLossOrBreakeven { .. } => ExpectedState::ClosedLossOrBreakeven,
            AttemptState::Cancelled => ExpectedState::Cancelled,
            AttemptState::Unknown => ExpectedState::Unknown,
        }
    }
}

/// A situation of an attempt, in terms that no broker owns.
#[derive(Clone, Copy, Debug, PartialEq, Eq, Structural)]
pub enum Situation {
    RestingUnfilled,
    FilledStillOpen,
    ClosedInProfit,
    ClosedAtLoss,
    /// Placed, rested, cancelled, never filled: a state of its own, and no reason not to enter.
    CancelledNeverFilled,
    NeverPlaced,
    /// The broker cannot say: not to be entered upon again.
    UnresolvableAtBroker,
}

/// The answer that every broker must give.
pub open spec fn answer_for(situation: Situation) -> ExpectedState {
    match situation {
        Situation::RestingUnfilled => ExpectedState::Pending,
        Situation::FilledStillOpen => ExpectedState::OpenPosition,
        Situation::ClosedInProfit => ExpectedState::ClosedWin,
        Situation::ClosedAtLoss => ExpectedState::ClosedLossOrBreakeven,
        Situation::CancelledNeverFilled => ExpectedState::Cancelled,
        Situation::NeverPlaced => ExpectedState::Unknown,
        Situation::UnresolvableAtBroker => ExpectedState::Unknown,
    }
}

/// The answer that every broker must give.
pub fn expected_for(situation: Situation) -> (e: ExpectedState)
    ensures
        e == answer_for(situation),
{
    match situation {
        Situation::RestingUnfilled => ExpectedState::Pending,
        Situation::FilledStillOpen => ExpectedState::OpenPosition,
        Situation::ClosedInProfit => ExpectedState::ClosedWin,
        Situation::ClosedAtLoss => ExpectedState::ClosedLossOrBreakeven,
        Situation::CancelledNeverFilled => ExpectedState::Cancelled,
        Situation::NeverPlaced => ExpectedState::Unknown,
        Situation::UnresolvableAtBroker => ExpectedState::Unknown,
    }
}

/// What a live broker's order record says.
#[derive(Clone, Copy, Debug, PartialEq, Eq, Structural)]
pub enum OrderFate {
    Live,
    /// Ended without a fill.
    TerminallyUnfilled,
    /// There is no usable answer.
    Unresolved,
}

/// What a live broker shows in a situation: in which of its lists the order is, whether its trade
/// was known, and what its record says.
#[derive(Clone, Copy, Debug, PartialEq, Eq, Structural)]
pub struct LiveInputs {
    pub pending: bool,
    pub open: bool,
    /// The profit of the closed trade, where the closed list was asked for and has it.
    pub closed_pl: Option<Float>,
    pub trade_known: bool,
    pub fate: OrderFate,
}

/// What a live broker shows in a situation. Only a filled order was ever known as a trade, so a
/// cancelled one and an unresolvable one differ by the record alone.
pub fn live_state(situation: Situation) -> (inputs: LiveInputs)
    ensures
        inputs.pending == (situation is RestingUnfilled),
        inputs.open == (situation is FilledStillOpen),
        inputs.closed_pl == match situation {
            Situation::ClosedInProfit => Some(Float { bits: 0x4029_0000_0000_0000 }),
            Situation::ClosedAtLoss => Some(Float { bits: 0xc014_0000_0000_0000 }),
            _ => None,
        },
        inputs.trade_known == (situation is ClosedInProfit || situation is ClosedAtLoss),
        inputs.fate == match situation {
            Situation::CancelledNeverFilled => OrderFate::TerminallyUnfilled,
            Situation::NeverPlaced => OrderFate::Unresolved,
            Situation::UnresolvableAtBroker => OrderFate::Unresolved,
            _ => OrderFate::Live,
        },
{
    let nowhere: LiveInputs = LiveInputs {
        pending: false,
        open: false,
        closed_pl: None,
        trade_known: false,
        fate: OrderFate::Live,
    };
    match situation {
        Situation::RestingUnfilled => LiveInputs { pending: true, ..nowhere },
        Situation::FilledStillOpen => LiveInputs { open: true, ..nowhere },
        Situation::ClosedInProfit => LiveInputs {
            closed_pl: Some(Float { bits: 0x4029_0000_0000_0000 }),
            trade_known: true,
            ..nowhere
        },
        Situation::ClosedAtLoss => LiveInputs {
            closed_pl: Some(Float { bits: 0xc014_0000_0000_0000 }),
            trade_known: true,
            ..nowhere
        },
        Situation::CancelledNeverFilled => LiveInputs {
            fate: OrderFate::TerminallyUnfilled,
            ..nowhere
        },
        Situation::NeverPlaced => LiveInputs { fate: OrderFate::Unresolved, ..nowhere },
        Situation::UnresolvableAtBroker => LiveInputs { fate: OrderFate::Unresolved, ..nowhere },
    }
}

/// A tenth of a cent, 0.0010: how far a bar reaches from its close.
pub const REACH_BITS: u64 = 0x3f50_624d_d2f1_a9fc;

/// A bar without a spread: it opens at its close and reaches a little to either side.
pub open spec fn flat_bar(epoch: int, close: Float) -> BidAskCandle {
    let high = sum(close, Float { bits: REACH_BITS });
    let low = difference(close, Float { bits: REACH_BITS });
    BidAskCandle {
        time: Instant { nanos: (epoch * crate::time::NANOS_PER_SECOND) as i128 },
        o: close,
        h: high,
        l: low,
        c: close,
        bid_o: close,
        bid_h: high,
        bid_l: low,
        bid_c: close,
        ask_o: close,
        ask_h: high,
        ask_l: low,
        ask_c: close,
    }
}

/// A bar without a spread.
pub fn bar(epoch: i64, close: Float) -> (c: BidAskCandle)
    ensures
        c == flat_bar(epoch as int, close),
{
    let high: Float = close.plus(Float { bits: REACH_BITS });
    let low: Float = close.minus(Float { bits: REACH_BITS });
    BidAskCandle {
        time: Instant::from_seconds(epoch),
        o: close,
        h: high,
        l: low,
        c: close,
        bid_o: close,
        bid_h: high,
        bid_l: low,
        bid_c: close,
        ask_o: close,
        ask_h: high,
        ask_l: low,
        ask_c: close,
    }
}

/// What drives a replayed broker into a situation.
pub struct ReplayScript {
    /// The first one is the fire bar.
    pub candles: Vec<BidAskCandle>,
    /// The second at which the broker is asked.
    pub as_of: i64,
    /// An order is placed.
    pub place: bool,
    /// It is cancelled while it rests.
    pub cancel: bool,
}

/// The closes of a situation's bars, an hour apart, for a short that sells at 1.1000, stops at
/// 1.1020 and takes profit at 1.0950. The fire bar stays above the entry.
pub open spec fn script_closes(situation: Situation) -> Seq<Float> {
    let fire = Float { bits: 0x3ff1_9db2_2d0e_5604 };
    let entry = Float { bits: 0x3ff1_9999_9999_999a };
    match situation {
        Situation::RestingUnfilled => seq![fire, Float { bits: 0x3ff1_9e83_e425_aee6 }],
        Situation::FilledStillOpen => seq![fire, entry],
        Situation::ClosedInProfit => seq![fire, entry, Float { bits: 0x3ff1_84b5_dcc6_3f14 }],
        Situation::ClosedAtLoss => seq![fire, entry, Float { bits: 0x3ff1_a233_9c0e_bee0 }],
        Situation::CancelledNeverFilled => seq![fire, entry, Float { bits: 0x3ff1_a233_9c0e_bee0 }],
        Situation::NeverPlaced => seq![fire, fire],
        Situation::UnresolvableAtBroker => seq![fire, fire],
    }
}

/// What drives a replayed broker into a situation. The prices of a cancelled order would have
/// filled it and stopped it out: the cancel must win.
pub fn replay_state(situation: Situation) -> (script: ReplayScript)
    ensures
        script.candles@.len() == script_closes(situation).len(),
        forall|i: int|
            0 <= i < script.candles@.len() ==> #[trigger] script.candles@[i] == flat_bar(
                3600 * i,
                script_closes(situation)[i],
            ),
        script.as_of == 3600 * (script.candles@.len() - 1),
        script.place == !(situation is NeverPlaced || situation is UnresolvableAtBroker),
        script.cancel == (situation is CancelledNeverFilled),
{
    let fire: Float = Float { bits: 0x3ff1_9db2_2d0e_5604 };
    let entry: Float = Float { bits: 0x3ff1_9999_9999_999a };
    let mut candles: Vec<BidAskCandle> = Vec::new();
    candles.push(bar(0, fire));
    let second: Float = match situation {
        Situation::RestingUnfilled => Float { bits: 0x3ff1_9e83_e425_aee6 },
        Situation::NeverPlaced => fire,
        Situation::UnresolvableAtBroker => fire,
        _ => entry,
    };
    candles.push(bar(3600, second));
    let third: Option<Float> = match situation {
        Situation::ClosedInProfit => Some(Float { bits: 0x3ff1_84b5_dcc6_3f14 }),
        Situation::ClosedAtLoss => Some(Float { bits: 0x3ff1_a233_9c0e_bee0 }),
        Situation::CancelledNeverFilled => Some(Float { bits: 0x3ff1_a233_9c0e_bee0 }),
        _ => None,
    };
    let mut as_of: i64 = 3600;
    if let Some(close) = third {
        candles.push(bar(7200, close));
        as_of = 7200;
    }
    let place: bool = match situation {
        Situation::NeverPlaced => false,
        Situation::UnresolvableAtBroker => false,
        _ => true,
    };
    ReplayScript {
        candles,
        as_of,
        place,
        cancel: matches!(situation, Situation::CancelledNeverFilled),
    }
}

/// A cancelled order and one that the broker cannot resolve are answered differently: only the
/// second must keep the attempt blocked.
pub proof fn cancelled_is_not_unknown(one: Situation, other: Situation)
    requires
        one is CancelledNeverFilled,
        other is UnresolvableAtBroker || other is NeverPlaced,
    ensures
        answer_for(one) is Cancelled,
        answer_for(other) is Unknown,
        answer_for(one) != answer_for(other),
{
}

/// The scripts are of one trade. A cancelled order is told the prices that would have stopped it
/// out, so that only the cancel keeps it from a loss, and an order that was never placed and one
/// that cannot be found are told the same; each of the other situations has an answer of its own.
pub proof fn situations_are_told_apart(one: Situation, other: Situation)
    ensures
        script_closes(Situation::CancelledNeverFilled) == script_closes(Situation::ClosedAtLoss),
        script_closes(Situation::NeverPlaced) == script_closes(Situation::UnresolvableAtBroker),
        answer_for(one) == answer_for(other) ==> one == other || (answer_for(one) is Unknown),
        answer_for(one) is Unknown <==> one is NeverPlaced || one is UnresolvableAtBroker,
        answer_for(one) is Pending <==> one is RestingUnfilled,
        answer_for(one) is OpenPosition <==> one is FilledStillOpen,
        answer_for(one) is ClosedWin <==> one is ClosedInProfit,
        answer_for(one) is ClosedLossOrBreakeven <==> one is ClosedAtLoss,
        answer_for(one) is Cancelled <==> one is CancelledNeverFilled,
{
}

/// A bar of a script has no spread: bid, ask and mid are the same. It opens and closes at its close
/// and reaches a tenth of a cent to either side, rounded.
pub proof fn a_script_bar_is_the_same_on_every_book(epoch: int, close: Float)
    ensures
        ({
            let c = flat_bar(epoch, close);
            let reach = Float { bits: 0x3f50_624d_d2f1_a9fc };
            &&& c.o == close && c.c == close
            &&& c.h == sum(close, reach) && c.l == difference(close, reach)
            &&& c.bid_o == c.o && c.bid_h == c.h && c.bid_l == c.l && c.bid_c == c.c
            &&& c.ask_o == c.o && c.ask_h == c.h && c.ask_l == c.l && c.ask_c == c.c
            &&& i64::MIN <= epoch <= i64::MAX ==> c.time.nanos == epoch * 1_000_000_000
        }),
{
}

} // verus!
