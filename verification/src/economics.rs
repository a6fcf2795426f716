//! What the positions of a replay earned: R per position, their sum, and the account that
//! compounds over them.
//!
//! Positions are booked in the order they fired, because each risks a share of what the ones
//! before it left.
use vstd::prelude::*;
use vstd::string::*;
use crate::binary64::{
    a_number_over_its_opposite_is_minus_one, a_swapped_difference_is_opposite, difference, product,
    quotient, sum, Float,
};
use crate::decimal::{fixed, fixed_text};
use crate::report::{FillKind, FireResult};
use crate::time::Instant;

verus! {

/// The balance that an account starts with, $100,000, as a binary64 pattern.
pub const START_ACCOUNT_BITS: u64 = 0x40f8_6a00_0000_0000;

/// The share of the remaining account that each taken trade risks, 0.01.
pub const RISK_FRACTION_BITS: u64 = 0x3f84_7ae1_47ae_147b;

/// The magnitude of R above which a position is implausible, 100.
pub const IMPLAUSIBLE_R_BITS: u64 = 0x4059_0000_0000_0000;

/// The share of the entry price below which a risk counts as none, 1e-9.
pub const LEAST_RISK_SHARE_BITS: u64 = 0x3e11_2e0b_e826_d695;

/// The least positive normal number.
pub const MIN_POSITIVE_BITS: u64 = 0x0010_0000_0000_0000;

/// How one taken position ended.
#[derive(Clone, Copy, Debug, PartialEq, Eq, Structural)]
pub enum ExitReason {
    /// Hit the stop. A break-even stop exits at the entry price for 0R and is a stop-out too.
    StoppedOut,
    TookProfit,
    /// Flattened by a reversal signal before stop or target.
    Reversal,
    /// Flattened when the trade expired.
    Expiry,
    /// Flattened because the structure behind the setup broke.
    Invalidation,
    /// Still open when the window ended: 0R, neither win nor loss.
    OpenAtWindowEnd,
}

/// The reason that a taken kind ends for; `None` for one that was not taken.
pub open spec fn reason_of(kind: FillKind) -> Option<ExitReason> {
    match kind {
        FillKind::StoppedOut => Some(ExitReason::StoppedOut),
        FillKind::TookProfit => Some(ExitReason::TookProfit),
        FillKind::ClosedOnReversal => Some(ExitReason::Reversal),
        FillKind::ClosedAtExpiry => Some(ExitReason::Expiry),
        FillKind::ClosedOnInvalidation => Some(ExitReason::Invalidation),
        FillKind::Open => Some(ExitReason::OpenAtWindowEnd),
        FillKind::NeverFilled => None,
        FillKind::Declined => None,
        FillKind::SpreadBlackout => None,
        FillKind::GateBlocked => None,
    }
}

impl ExitReason {
    /// The taken kinds map one to one; one that was not taken books nothing.
    pub fn from_fill_kind(kind: FillKind) -> (reason: Option<ExitReason>)
        ensures
            reason == reason_of(kind),
            reason is Some <==> kind.taken(),
    {
        match kind {
            FillKind::StoppedOut => Some(ExitReason::StoppedOut),
            FillKind::TookProfit => Some(ExitReason::TookProfit),
            FillKind::ClosedOnReversal => Some(ExitReason::Reversal),
            FillKind::ClosedAtExpiry => Some(ExitReason::Expiry),
            FillKind::ClosedOnInvalidation => Some(ExitReason::Invalidation),
            FillKind::Open => Some(ExitReason::OpenAtWindowEnd),
            FillKind::NeverFilled => None,
            FillKind::Declined => None,
            FillKind::SpreadBlackout => None,
            FillKind::GateBlocked => None,
        }
    }

    /// Whether the outcome realizes a profit or a loss.
    pub fn is_realized(self) -> (b: bool)
        ensures
            b == !(self is OpenAtWindowEnd),
    {
        !matches!(self, ExitReason::OpenAtWindowEnd)
    }
}

/// One taken position: where it got in, where it got out, and what that was worth in R.
#[derive(Clone, Copy, Debug, PartialEq, Eq)]
pub struct Leg {
    pub entry_time: Instant,
    pub entry_price: Float,
    /// The stop that the position rested on, from which its risk is measured.
    pub stop_loss: Float,
    pub take_profit: Float,
    /// The exit bar; `None` while still open.
    pub exit_time: Option<Instant>,
    pub exit_price: Option<Float>,
    pub exit_reason: ExitReason,
    pub r: Float,
}

impl Leg {
    /// The leg's R is implausible.
    pub open spec fn implausible(self) -> bool {
        (Float { bits: IMPLAUSIBLE_R_BITS }).less(self.r.magnitude())
    }

    /// Whether the leg's R is so large, won or lost, that a scaled or corrupt candle is likelier
    /// than the trade. It is booked all the same.
    pub fn is_implausible(&self) -> (b: bool)
        ensures
            b == self.implausible(),
            b == (!self.r.nan() && self.r.magnitude().units() > (Float {
                bits: 0x4059_0000_0000_0000,
            }).units()),
    {
        (Float { bits: IMPLAUSIBLE_R_BITS }).lt(self.r.abs())
    }
}

/// The economic result of a replay.
#[derive(Debug, PartialEq, Eq)]
pub struct ReplayEconomics {
    /// The sum of every leg's R.
    pub net_r: Float,
    pub tp_hits: usize,
    pub sl_hits: usize,
    pub reversal_closes: usize,
    pub expiry_closes: usize,
    pub invalidation_closes: usize,
    pub open_at_end: usize,
    /// In the order they were booked.
    pub legs: Vec<Leg>,
}

/// The two hold the same result.
pub open spec fn same_economics(a: ReplayEconomics, b: ReplayEconomics) -> bool {
    &&& a.net_r == b.net_r
    &&& a.tp_hits == b.tp_hits
    &&& a.sl_hits == b.sl_hits
    &&& a.reversal_closes == b.reversal_closes
    &&& a.expiry_closes == b.expiry_closes
    &&& a.invalidation_closes == b.invalidation_closes
    &&& a.open_at_end == b.open_at_end
    &&& a.legs@ == b.legs@
}

impl Clone for ReplayEconomics {
    fn clone(&self) -> (r: ReplayEconomics)
        ensures
            same_economics(r, *self),
    {
        let mut legs: Vec<Leg> = Vec::new();
        let mut i: usize = 0;
        while i < self.legs.len()
            invariant
                i <= self.legs@.len(),
                legs@ == self.legs@.take(i as int),
            decreases self.legs@.len() - i,
        {
            legs.push(self.legs[i]);
            i = i + 1;
            assert(legs@ =~= self.legs@.take(i as int));
        }
        assert(self.legs@.take(i as int) =~= self.legs@);
        ReplayEconomics {
            net_r: self.net_r,
            tp_hits: self.tp_hits,
            sl_hits: self.sl_hits,
            reversal_closes: self.reversal_closes,
            expiry_closes: self.expiry_closes,
            invalidation_closes: self.invalidation_closes,
            open_at_end: self.open_at_end,
            legs,
        }
    }
}

/// The number of legs that ended for a reason.
pub open spec fn tally(legs: Seq<Leg>, reason: ExitReason) -> nat
    decreases legs.len(),
{
    if legs.len() == 0 {
        0
    } else {
        tally(legs.drop_last(), reason) + if legs.last().exit_reason == reason {
            1nat
        } else {
            0nat
        }
    }
}

/// The sum of the legs' R, added up in order.
pub open spec fn sum_of_r(legs: Seq<Leg>) -> Float
    decreases legs.len(),
{
    if legs.len() == 0 {
        Float { bits: 0 }
    } else {
        sum(sum_of_r(legs.drop_last()), legs.last().r)
    }
}

/// The account after the legs, each risking a fixed share of what the ones before it left.
pub open spec fn account_after(legs: Seq<Leg>) -> Float
    decreases legs.len(),
{
    if legs.len() == 0 {
        Float { bits: START_ACCOUNT_BITS }
    } else {
        let before = account_after(legs.drop_last());
        sum(before, product(product(Float { bits: RISK_FRACTION_BITS }, before), legs.last().r))
    }
}

/// The realized R: reward over risk, each with the trade's own sign. Zero where the risk is below
/// a billionth of the entry price or anything is not finite.
pub open spec fn r_multiple(entry: Float, stop_loss: Float, exit: Float) -> Float {
    let risk = difference(entry, stop_loss);
    let floor = product(entry.magnitude(), Float { bits: LEAST_RISK_SHARE_BITS }).greater(
        Float { bits: MIN_POSITIVE_BITS },
    );
    let r = quotient(difference(exit, entry), risk);
    if !risk.finite() || risk.magnitude().less(floor) || !exit.finite() || !r.finite() {
        Float { bits: 0 }
    } else {
        r
    }
}

/// The number is the R of an exit: what was won over what was risked, where the risk is a number of
/// at least a billionth of the entry price and at least the least normal number, and the result is
/// a number; else zero.
pub open spec fn is_r_multiple(entry: Float, stop_loss: Float, exit: Float, r: Float) -> bool {
    let risk = difference(entry, stop_loss);
    let won = quotient(difference(exit, entry), risk);
    let share = product(entry.magnitude(), Float { bits: 0x3e11_2e0b_e826_d695 });
    let counts = risk.finite() && !risk.magnitude().less(Float { bits: 0x0010_0000_0000_0000 })
        && !risk.magnitude().less(share);
    if counts && exit.finite() && won.finite() {
        r == won
    } else {
        r.bits == 0
    }
}

/// A price that can be stored: zero where it is not finite.
pub open spec fn storable(price: Float) -> Float {
    if price.finite() {
        price
    } else {
        Float { bits: 0 }
    }
}

/// The exit price that a leg keeps: finite, and of a position that is closed.
pub open spec fn kept_exit(result: FireResult) -> Option<Float> {
    match result.exit_price {
        Some(p) if p.finite() && result.kind != FillKind::Open => Some(p),
        _ => None,
    }
}

/// The leg that a taken fire books.
pub open spec fn leg_of(result: FireResult) -> Leg {
    let exit = kept_exit(result);
    Leg {
        entry_time: result.fill_at,
        entry_price: storable(result.entry_price),
        stop_loss: storable(result.stop_loss),
        take_profit: storable(result.take_profit),
        exit_time: match exit {
            Some(_) => Some(result.until),
            None => None,
        },
        exit_price: exit,
        exit_reason: reason_of(result.kind)->0,
        r: match exit {
            Some(e) => r_multiple(result.entry_price, result.stop_loss, e),
            None => Float { bits: 0 },
        },
    }
}

impl ReplayEconomics {
    /// The counters and the sum are those of the legs.
    pub open spec fn consistent(self) -> bool {
        let legs = self.legs@;
        &&& self.net_r == sum_of_r(legs)
        &&& self.tp_hits == tally(legs, ExitReason::TookProfit)
        &&& self.sl_hits == tally(legs, ExitReason::StoppedOut)
        &&& self.reversal_closes == tally(legs, ExitReason::Reversal)
        &&& self.expiry_closes == tally(legs, ExitReason::Expiry)
        &&& self.invalidation_closes == tally(legs, ExitReason::Invalidation)
        &&& self.open_at_end == tally(legs, ExitReason::OpenAtWindowEnd)
    }

    /// The counter that a reason moves.
    pub open spec fn counter(self, reason: ExitReason) -> usize {
        match reason {
            ExitReason::TookProfit => self.tp_hits,
            ExitReason::StoppedOut => self.sl_hits,
            ExitReason::Reversal => self.reversal_closes,
            ExitReason::Expiry => self.expiry_closes,
            ExitReason::Invalidation => self.invalidation_closes,
            ExitReason::OpenAtWindowEnd => self.open_at_end,
        }
    }

    /// Every leg is counted once.
    pub open spec fn counted(self) -> bool {
        self.tp_hits + self.sl_hits + self.reversal_closes + self.expiry_closes
            + self.invalidation_closes + self.open_at_end == self.legs@.len()
    }

    /// The result is `before` with a fire booked: nothing for one that was not taken; for a taken
    /// one its leg after the others, its R in the sum, and one more on its reason's counter alone.
    pub open spec fn books(self, before: ReplayEconomics, result: FireResult) -> bool {
        match reason_of(result.kind) {
            None => self == before,
            Some(reason) => {
                &&& self.legs@ == before.legs@.push(leg_of(result))
                &&& self.net_r == sum(before.net_r, leg_of(result).r)
                &&& forall|other: ExitReason|
                    #[trigger] self.counter(other) == before.counter(other) + if other == reason {
                        1int
                    } else {
                        0int
                    }
            },
        }
    }

    /// Nothing booked.
    pub fn new() -> (e: ReplayEconomics)
        ensures
            e.consistent(),
            e.counted(),
            e.legs@.len() == 0,
    {
        ReplayEconomics {
            net_r: Float { bits: 0 },
            tp_hits: 0,
            sl_hits: 0,
            reversal_closes: 0,
            expiry_closes: 0,
            invalidation_closes: 0,
            open_at_end: 0,
            legs: Vec::new(),
        }
    }

    /// Books one resolved fire and hands back its leg. A fire that was not taken books nothing; a
    /// taken one moves its reason's counter, adds a leg and adds its R to the sum. An exit is kept
    /// only where it is finite and the position is closed, and an exit time only beside an exit
    /// price. R is recorded as measured, however large.
    pub fn book(&mut self, result: &FireResult) -> (leg: Option<Leg>)
        requires
            reason_of(result.kind) matches Some(reason) ==> old(self).counter(reason) < usize::MAX,
        ensures
            final(self).books(*old(self), *result),
            leg == match reason_of(result.kind) {
                Some(_) => Some(leg_of(*result)),
                None => None,
            },
            leg matches Some(l) ==> reason_of(result.kind) == Some(l.exit_reason) && l.entry_time
                == result.fill_at,
            leg is None <==> (result.kind == FillKind::NeverFilled || result.kind
                == FillKind::Declined || result.kind == FillKind::SpreadBlackout || result.kind
                == FillKind::GateBlocked),
            leg matches Some(l) ==> {
                &&& l.entry_price == (if result.entry_price.finite() {
                    result.entry_price
                } else {
                    Float { bits: 0 }
                })
                &&& l.stop_loss == (if result.stop_loss.finite() {
                    result.stop_loss
                } else {
                    Float { bits: 0 }
                })
                &&& l.take_profit == (if result.take_profit.finite() {
                    result.take_profit
                } else {
                    Float { bits: 0 }
                })
                &&& l.exit_reason == match result.kind {
                    FillKind::StoppedOut => ExitReason::StoppedOut,
                    FillKind::TookProfit => ExitReason::TookProfit,
                    FillKind::ClosedOnReversal => ExitReason::Reversal,
                    FillKind::ClosedAtExpiry => ExitReason::Expiry,
                    FillKind::ClosedOnInvalidation => ExitReason::Invalidation,
                    _ => ExitReason::OpenAtWindowEnd,
                }
                &&& (result.kind == FillKind::Open || result.exit_price is None
                    || !result.exit_price->0.finite()) ==> l.exit_price is None && l.exit_time is None
                    && l.r.bits == 0
                &&& result.kind != FillKind::Open && result.exit_price is Some
                    && result.exit_price->0.finite() ==> {
                    &&& l.exit_price == result.exit_price
                    &&& l.exit_time == Some(result.until)
                    &&& is_r_multiple(
                        result.entry_price,
                        result.stop_loss,
                        result.exit_price->0,
                        l.r,
                    )
                }
            },
            old(self).consistent() ==> final(self).consistent(),
            old(self).counted() ==> final(self).counted(),
            leg matches Some(l) ==> l.r.finite() && (l.exit_time is Some <==> l.exit_price is Some),
    {
        let reason: ExitReason = match ExitReason::from_fill_kind(result.kind) {
            Some(reason) => reason,
            None => {
                return None;
            },
        };
        match reason {
            ExitReason::TookProfit => {
                self.tp_hits = self.tp_hits + 1;
            },
            ExitReason::StoppedOut => {
                self.sl_hits = self.sl_hits + 1;
            },
            ExitReason::Reversal => {
                self.reversal_closes = self.reversal_closes + 1;
            },
            ExitReason::Expiry => {
                self.expiry_closes = self.expiry_closes + 1;
            },
            ExitReason::Invalidation => {
                self.invalidation_closes = self.invalidation_closes + 1;
            },
            ExitReason::OpenAtWindowEnd => {
                self.open_at_end = self.open_at_end + 1;
            },
        }
        let exit: Option<Float> = match result.exit_price {
            Some(p) => if p.is_finite() && reason.is_realized() {
                Some(p)
            } else {
                None
            },
            None => None,
        };
        let r: Float = match exit {
            Some(e) => realized_r(result.entry_price, result.stop_loss, e),
            None => Float { bits: 0 },
        };
        self.net_r = self.net_r.plus(r);
        let leg: Leg = Leg {
            entry_time: result.fill_at,
            entry_price: finite_or_zero(result.entry_price),
            stop_loss: finite_or_zero(result.stop_loss),
            take_profit: finite_or_zero(result.take_profit),
            exit_time: match exit {
                Some(_) => Some(result.until),
                None => None,
            },
            exit_price: exit,
            exit_reason: reason,
            r,
        };
        self.legs.push(leg);
        assert(leg == leg_of(*result));
        assert(self.legs@.drop_last() =~= old(self).legs@);
        proof {
            booking_moves_one_counter(*old(self), *result, *self, reason);
        }
        Some(leg)
    }

    /// The account compounded over the legs, in order.
    pub fn account(&self) -> (balance: Float)
        ensures
            balance == account_after(self.legs@),
    {
        let mut balance: Float = Float { bits: START_ACCOUNT_BITS };
        let mut i: usize = 0;
        while i < self.legs.len()
            invariant
                i <= self.legs@.len(),
                balance == account_after(self.legs@.take(i as int)),
            decreases self.legs@.len() - i,
        {
            let risked: Float = (Float { bits: RISK_FRACTION_BITS }).times(balance);
            assert(self.legs@.take(i + 1).drop_last() =~= self.legs@.take(i as int));
            balance = balance.plus(risked.times(self.legs[i].r));
            i = i + 1;
        }
        assert(self.legs@.take(i as int) =~= self.legs@);
        balance
    }

    /// The profit against the starting balance.
    pub fn profit(&self) -> (p: Float)
        ensures
            p == difference(account_after(self.legs@), Float { bits: START_ACCOUNT_BITS }),
    {
        self.account().minus(Float { bits: START_ACCOUNT_BITS })
    }

    /// The closing segment of a report line: net R, and the account with its profit.
    pub open spec fn summary(self) -> Seq<char> {
        let account = account_after(self.legs@);
        let profit = difference(account, Float { bits: START_ACCOUNT_BITS });
        "  |  Net R: "@ + fixed(self.net_r, 2, true) + "  |  $100k acct (1%/trade): $"@ + fixed(
            account,
            0,
            false,
        ) + " ("@ + fixed(profit, 0, true) + ")"@
    }

    /// The closing segment of a report line.
    pub fn summary_line(&self) -> (line: String)
        ensures
            line@ == self.summary(),
    {
        "  |  Net R: ".to_owned().concat(fixed_text(self.net_r, 2, true).as_str()).concat(
            "  |  $100k acct (1%/trade): $",
        ).concat(fixed_text(self.account(), 0, false).as_str()).concat(" (").concat(
            fixed_text(self.profit(), 0, true).as_str(),
        ).concat(")")
    }
}

impl Default for ReplayEconomics {
    fn default() -> (e: ReplayEconomics)
        ensures
            e.consistent(),
            e.legs@.len() == 0,
    {
        ReplayEconomics::new()
    }
}

/// A price that can be stored: zero where it is not finite.
pub fn finite_or_zero(price: Float) -> (p: Float)
    ensures
        p == storable(price),
{
    if price.is_finite() {
        price
    } else {
        Float { bits: 0 }
    }
}

/// The realized R multiple of a taken fill. Always finite.
pub fn realized_r(entry: Float, stop_loss: Float, exit: Float) -> (r: Float)
    ensures
        r == r_multiple(entry, stop_loss, exit),
        r.finite(),
        is_r_multiple(entry, stop_loss, exit, r),
{
    let zero: Float = Float { bits: 0 };
    assert(zero.finite());
    let risk: Float = entry.minus(stop_loss);
    let floor: Float = entry.abs().times(Float { bits: LEAST_RISK_SHARE_BITS }).max(
        Float { bits: MIN_POSITIVE_BITS },
    );
    if !risk.is_finite() || risk.abs().lt(floor) || !exit.is_finite() {
        return zero;
    }
    let r: Float = exit.minus(entry).over(risk);
    if r.is_finite() {
        r
    } else {
        zero
    }
}

/// A position that is stopped out at its stop is worth exactly minus one R, long or short, for
/// every bracket whose risk counts.
pub proof fn a_clean_stop_is_minus_one_r(entry: Float, stop_loss: Float)
    requires
        entry.finite(),
        stop_loss.finite(),
        entry.units() != stop_loss.units(),
        ({
            let risk = difference(entry, stop_loss);
            let floor = product(entry.magnitude(), Float { bits: LEAST_RISK_SHARE_BITS }).greater(
                Float { bits: MIN_POSITIVE_BITS },
            );
            risk.finite() && risk.mag() > 0 && !risk.magnitude().less(floor)
        }),
    ensures
        r_multiple(entry, stop_loss, stop_loss) == (Float { bits: 0xbff0_0000_0000_0000 }),
{
    let risk = difference(entry, stop_loss);
    a_swapped_difference_is_opposite(entry, stop_loss);
    a_number_over_its_opposite_is_minus_one(risk);
}

/// Booking a taken fire adds its leg after the others, with the fire's reason and entry time, adds
/// its R to the sum, moves the reason's own counter by one and no other, and keeps every leg
/// counted once.
pub proof fn booking_moves_one_counter(
    before: ReplayEconomics,
    result: FireResult,
    after: ReplayEconomics,
    reason: ExitReason,
)
    requires
        reason_of(result.kind) == Some(reason),
        after.books(before, result),
    ensures
        after.legs@.len() == before.legs@.len() + 1,
        after.legs@.drop_last() == before.legs@,
        after.legs@.last().exit_reason == reason,
        after.legs@.last().entry_time == result.fill_at,
        after.net_r == sum(before.net_r, after.legs@.last().r),
        forall|other: ExitReason|
            #[trigger] after.counter(other) == before.counter(other) + if other == reason {
                1int
            } else {
                0int
            },
        before.counted() ==> after.counted(),
        before.consistent() ==> after.consistent(),
{
    assert(after.legs@.drop_last() =~= before.legs@);
    counters_move_as_booked(before, result, after, reason);
}

/// What a booking makes of the six counters, one by one.
proof fn counters_move_as_booked(
    before: ReplayEconomics,
    result: FireResult,
    after: ReplayEconomics,
    reason: ExitReason,
)
    requires
        reason_of(result.kind) == Some(reason),
        after.books(before, result),
    ensures
        after.tp_hits == before.tp_hits + (if reason is TookProfit { 1int } else { 0 }),
        after.sl_hits == before.sl_hits + (if reason is StoppedOut { 1int } else { 0 }),
        after.reversal_closes == before.reversal_closes + (if reason is Reversal {
            1int
        } else {
            0
        }),
        after.expiry_closes == before.expiry_closes + (if reason is Expiry { 1int } else { 0 }),
        after.invalidation_closes == before.invalidation_closes + (if reason is Invalidation {
            1int
        } else {
            0
        }),
        after.open_at_end == before.open_at_end + (if reason is OpenAtWindowEnd {
            1int
        } else {
            0
        }),
{
    assert(after.tp_hits == after.counter(ExitReason::TookProfit));
    assert(after.sl_hits == after.counter(ExitReason::StoppedOut));
    assert(after.reversal_closes == after.counter(ExitReason::Reversal));
    assert(after.expiry_closes == after.counter(ExitReason::Expiry));
    assert(after.invalidation_closes == after.counter(ExitReason::Invalidation));
    assert(after.open_at_end == after.counter(ExitReason::OpenAtWindowEnd));
}

/// However many fires are booked, taken or not, onto a result that is empty at first, every leg is
/// counted once and the sum and the counters are those of the legs.
pub proof fn every_booked_leg_is_counted_once(
    states: Seq<ReplayEconomics>,
    results: Seq<FireResult>,
    n: int,
)
    requires
        states.len() == results.len() + 1,
        0 <= n < states.len(),
        states[0].consistent(),
        states[0].legs@.len() == 0,
        forall|i: int|
            0 <= i < results.len() ==> (#[trigger] states[i + 1]).books(states[i], results[i]),
    ensures
        states[n].counted(),
        states[n].consistent(),
    decreases n,
{
    if n == 0 {
        counters_add_up_to_the_legs(states[0]);
    } else {
        every_booked_leg_is_counted_once(states, results, n - 1);
        let result = results[n - 1];
        assert(states[n - 1 + 1].books(states[n - 1], result));
        if let Some(reason) = reason_of(result.kind) {
            booking_moves_one_counter(states[n - 1], result, states[n], reason);
        }
    }
}

/// The sum of R, the account and the tallies of legs grow leg by leg: nothing booked is none of
/// each, and one more leg adds its R to the sum, wins or loses its R times a hundredth of the
/// account, and counts once under its own reason.
pub proof fn one_more_leg_adds_to_the_books(legs: Seq<Leg>, leg: Leg, reason: ExitReason)
    ensures
        sum_of_r(Seq::empty()).bits == 0,
        account_after(Seq::empty()).bits == 0x40f8_6a00_0000_0000,
        tally(Seq::empty(), reason) == 0,
        sum_of_r(legs.push(leg)) == sum(sum_of_r(legs), leg.r),
        account_after(legs.push(leg)) == sum(
            account_after(legs),
            product(
                product(Float { bits: 0x3f84_7ae1_47ae_147b }, account_after(legs)),
                leg.r,
            ),
        ),
        tally(legs.push(leg), reason) == tally(legs, reason) + (if leg.exit_reason == reason {
            1int
        } else {
            0
        }),
{
    assert(legs.push(leg).drop_last() =~= legs);
}

/// A counter is the number of legs that ended for its reason.
pub proof fn a_tally_counts_the_legs(legs: Seq<Leg>, reason: ExitReason)
    ensures
        tally(legs, reason) == legs.filter(|l: Leg| l.exit_reason == reason).len(),
    decreases legs.len(),
{
    reveal(Seq::filter);
    if legs.len() > 0 {
        a_tally_counts_the_legs(legs.drop_last(), reason);
    }
}

/// Every booked sequence keeps counters and sum those of its legs: the counters add up to the
/// number of legs.
pub proof fn counters_add_up_to_the_legs(e: ReplayEconomics)
    requires
        e.consistent(),
    ensures
        e.counted(),
{
    tallies_add_up(e.legs@);
}

proof fn tallies_add_up(legs: Seq<Leg>)
    ensures
        tally(legs, ExitReason::TookProfit) + tally(legs, ExitReason::StoppedOut) + tally(
            legs,
            ExitReason::Reversal,
        ) + tally(legs, ExitReason::Expiry) + tally(legs, ExitReason::Invalidation) + tally(
            legs,
            ExitReason::OpenAtWindowEnd,
        ) == legs.len(),
    decreases legs.len(),
{
    if legs.len() > 0 {
        tallies_add_up(legs.drop_last());
    }
}

/// A position that was closed books its exit. For every taken kind but one that is still open, a
/// finite exit price is kept with the exit's time, and R is what was won over what was risked.
pub proof fn a_closed_position_books_its_exit(result: FireResult, p: Float)
    requires
        result.kind != FillKind::Open,
        reason_of(result.kind) is Some,
        result.exit_price == Some(p),
        p.finite(),
    ensures
        leg_of(result).exit_price == Some(p),
        leg_of(result).exit_time == Some(result.until),
        is_r_multiple(result.entry_price, result.stop_loss, p, leg_of(result).r),
{
    let risk = difference(result.entry_price, result.stop_loss);
    let share = product(result.entry_price.magnitude(), Float { bits: LEAST_RISK_SHARE_BITS });
    let least = Float { bits: MIN_POSITIVE_BITS };
    assert(risk.magnitude().less(share.greater(least)) == (risk.magnitude().less(share)
        || risk.magnitude().less(least)));
}

/// What a kind of fate books: a taken one its own reason, one that was not taken nothing.
pub proof fn a_fate_books_its_own_reason(kind: FillKind)
    ensures
        reason_of(kind) == match kind {
            FillKind::StoppedOut => Some(ExitReason::StoppedOut),
            FillKind::TookProfit => Some(ExitReason::TookProfit),
            FillKind::ClosedOnReversal => Some(ExitReason::Reversal),
            FillKind::ClosedAtExpiry => Some(ExitReason::Expiry),
            FillKind::ClosedOnInvalidation => Some(ExitReason::Invalidation),
            FillKind::Open => Some(ExitReason::OpenAtWindowEnd),
            _ => None,
        },
        kind.taken() == reason_of(kind) is Some,
{
}

/// The closing line gives the net R, the account that the legs leave of $100,000, and what that is
/// more or less than the start.
pub proof fn a_closing_line_gives_score_and_account(e: ReplayEconomics)
    ensures
        ({
            let account = account_after(e.legs@);
            let won = difference(account, Float { bits: 0x40f8_6a00_0000_0000 });
            e.summary() == "  |  Net R: "@ + fixed(e.net_r, 2, true)
                + "  |  $100k acct (1%/trade): $"@ + fixed(account, 0, false) + " ("@ + fixed(
                won,
                0,
                true,
            ) + ")"@
        }),
{
}

} // verus!
