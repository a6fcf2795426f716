//! Which detected signals the replay marks.
use vstd::prelude::*;
use crate::market::Direction;

verus! {

/// Which directions to mark, relative to the plan's.
#[derive(Clone, Copy, Debug, PartialEq, Eq, Structural)]
pub enum DirectionFilter {
    With,
    Against,
    Both,
    /// Marks nothing.
    Off,
}

/// Which sizes of signal to mark.
#[derive(Clone, Copy, Debug, PartialEq, Eq, Structural)]
pub enum GoldenFilter {
    Golden,
    NonGolden,
    Both,
    /// Marks nothing.
    Off,
}

/// Both filters, with the plan's direction that the first is relative to.
#[derive(Clone, Copy, Debug, PartialEq, Eq, Structural)]
pub struct DetectorMarkConfig {
    pub direction: DirectionFilter,
    pub golden: GoldenFilter,
    pub trade_direction: Direction,
}

impl DetectorMarkConfig {
    /// The direction passes the first filter.
    pub open spec fn wants_direction(self, dir: Direction) -> bool {
        match self.direction {
            DirectionFilter::With => dir == self.trade_direction,
            DirectionFilter::Against => dir != self.trade_direction,
            DirectionFilter::Both => true,
            DirectionFilter::Off => false,
        }
    }

    /// The size passes the second filter.
    pub open spec fn wants_golden(self, is_golden: bool) -> bool {
        match self.golden {
            GoldenFilter::Golden => is_golden,
            GoldenFilter::NonGolden => !is_golden,
            GoldenFilter::Both => true,
            GoldenFilter::Off => false,
        }
    }

    pub fn new(
        direction: DirectionFilter,
        golden: GoldenFilter,
        trade_direction: Direction,
    ) -> (c: DetectorMarkConfig)
        ensures
            c.direction == direction,
            c.golden == golden,
            c.trade_direction == trade_direction,
    {
        DetectorMarkConfig { direction, golden, trade_direction }
    }

    /// Whether either filter marks nothing, so that no signal passes.
    pub fn is_off(&self) -> (b: bool)
        ensures
            b == (self.direction is Off || self.golden is Off),
            b == forall|dir: Direction, is_golden: bool|
                !(#[trigger] self.wants_direction(dir) && #[trigger] self.wants_golden(is_golden)),
    {
        proof {
            let opposite = match self.trade_direction {
                Direction::Long => Direction::Short,
                Direction::Short => Direction::Long,
            };
            let dir = if self.direction is Against {
                opposite
            } else {
                self.trade_direction
            };
            let is_golden = !(self.golden is NonGolden);
            if !(self.direction is Off || self.golden is Off) {
                assert(self.wants_direction(dir) && self.wants_golden(is_golden));
            }
        }
        matches!(self.direction, DirectionFilter::Off) || matches!(self.golden, GoldenFilter::Off)
    }

    /// Whether a signal is marked: it passes both filters.
    pub fn accepts(&self, dir: Direction, is_golden: bool) -> (b: bool)
        ensures
            b == (self.wants_direction(dir) && self.wants_golden(is_golden)),
            b ==> !(self.direction is Off) && !(self.golden is Off),
            b && self.direction is With ==> dir == self.trade_direction,
            b && self.direction is Against ==> dir != self.trade_direction,
            b && self.golden is Golden ==> is_golden,
            b && self.golden is NonGolden ==> !is_golden,
            !b ==> self.direction is Off || self.golden is Off || (self.direction is With && dir
                != self.trade_direction) || (self.direction is Against && dir
                == self.trade_direction) || (self.golden is Golden && !is_golden) || (
            self.golden is NonGolden && is_golden),
    {
        if self.is_off() {
            return false;
        }
        let dir_ok: bool = match self.direction {
            DirectionFilter::With => dir == self.trade_direction,
            DirectionFilter::Against => dir != self.trade_direction,
            DirectionFilter::Both => true,
            DirectionFilter::Off => false,
        };
        let golden_ok: bool = match self.golden {
            GoldenFilter::Golden => is_golden,
            GoldenFilter::NonGolden => !is_golden,
            GoldenFilter::Both => true,
            GoldenFilter::Off => false,
        };
        dir_ok && golden_ok
    }
}

} // verus!
