//! How one fired enter ended, as the report and the chart show it.
use vstd::prelude::*;
use crate::binary64::Float;
use crate::market::Direction;
use crate::time::Instant;

verus! {

/// The fate of one fired enter.
#[derive(Clone, Copy, Debug, PartialEq, Eq, Structural)]
pub enum FillKind {
    /// Filled and still open when the window ended.
    Open,
    StoppedOut,
    TookProfit,
    /// Flattened by a reversal signal.
    ClosedOnReversal,
    /// Flattened when the trade expired.
    ClosedAtExpiry,
    /// Flattened because the structure behind the setup broke.
    ClosedOnInvalidation,
    /// The order never filled.
    NeverFilled,
    /// The entry was declined.
    Declined,
    /// The entry was refused for its spread.
    SpreadBlackout,
    /// A gate refused the entry.
    GateBlocked,
}

impl FillKind {
    /// A position was on.
    pub open spec fn taken(self) -> bool {
        match self {
            FillKind::Open => true,
            FillKind::StoppedOut => true,
            FillKind::TookProfit => true,
            FillKind::ClosedOnReversal => true,
            FillKind::ClosedAtExpiry => true,
            FillKind::ClosedOnInvalidation => true,
            FillKind::NeverFilled => false,
            FillKind::Declined => false,
            FillKind::SpreadBlackout => false,
            FillKind::GateBlocked => false,
        }
    }

    /// Whether a position was on.
    pub fn is_taken(self) -> (b: bool)
        ensures
            b == self.taken(),
    {
        match self {
            FillKind::NeverFilled => false,
            FillKind::Declined => false,
            FillKind::SpreadBlackout => false,
            FillKind::GateBlocked => false,
            _ => true,
        }
    }
}

/// One resolved fire: its bracket, and where it got in and out.
#[derive(Clone, Copy, Debug, PartialEq, Eq)]
pub struct FireResult {
    pub direction: Direction,
    /// Open-time of the bar that the entry filled on, or of the fire bar.
    pub fill_at: Instant,
    /// The exit bar, or the window's end.
    pub until: Instant,
    pub entry_price: Float,
    pub stop_loss: Float,
    pub take_profit: Float,
    pub exit_price: Option<Float>,
    pub kind: FillKind,
}

} // verus!
