//! The drawings of replayed positions on the chart, and the list of those drawn.
use vstd::prelude::*;
use vstd::string::*;
use crate::binary64::Float;
use crate::market::Direction;
use crate::report::{FillKind, FireResult};
use crate::text::{join_path, joined_path};

verus! {

/// The tint of a long position.
pub const LONG_COLOR: &'static str = "#26a69a";

/// The tint of a short position.
pub const SHORT_COLOR: &'static str = "#ef5350";

/// The tint of a position that was not taken.
pub const UNFILLED_COLOR: &'static str = "#787b86";

/// How transparent a taken position's zones are, out of a hundred.
pub const ZONE_TRANSPARENCY: u8 = 80;

/// How transparent the zones of a position are that was not taken.
pub const UNFILLED_TRANSPARENCY: u8 = 90;

/// Tint and transparency: by direction for a taken position, muted for any other.
pub fn box_style(taken: bool, direction: Direction) -> (style: (&'static str, u8))
    ensures
        style.0@ == if !taken {
            UNFILLED_COLOR@
        } else if direction == Direction::Long {
            LONG_COLOR@
        } else {
            SHORT_COLOR@
        },
        style.1 == if taken {
            ZONE_TRANSPARENCY
        } else {
            UNFILLED_TRANSPARENCY
        },
{
    if !taken {
        return (UNFILLED_COLOR, UNFILLED_TRANSPARENCY);
    }
    let color: &'static str = match direction {
        Direction::Long => LONG_COLOR,
        Direction::Short => SHORT_COLOR,
    };
    (color, ZONE_TRANSPARENCY)
}

/// The short name of a position's fate.
pub open spec fn outcome_name(kind: FillKind) -> Seq<char> {
    match kind {
        FillKind::Open => "open"@,
        FillKind::StoppedOut => "SL"@,
        FillKind::TookProfit => "TP"@,
        FillKind::ClosedOnReversal => "reversal"@,
        FillKind::ClosedAtExpiry => "expiry"@,
        FillKind::ClosedOnInvalidation => "invalidation"@,
        FillKind::NeverFilled => "no-fill"@,
        FillKind::Declined => "declined"@,
        FillKind::SpreadBlackout => "spread"@,
        FillKind::GateBlocked => "gate-blocked"@,
    }
}

/// The short name of a position's fate.
pub fn outcome_label(kind: FillKind) -> (label: &'static str)
    ensures
        label@ == outcome_name(kind),
{
    match kind {
        FillKind::Open => "open",
        FillKind::StoppedOut => "SL",
        FillKind::TookProfit => "TP",
        FillKind::ClosedOnReversal => "reversal",
        FillKind::ClosedAtExpiry => "expiry",
        FillKind::ClosedOnInvalidation => "invalidation",
        FillKind::NeverFilled => "no-fill",
        FillKind::Declined => "declined",
        FillKind::SpreadBlackout => "spread",
        FillKind::GateBlocked => "gate-blocked",
    }
}

/// What the chart's position tool is told.
#[derive(Clone, Copy, Debug, PartialEq, Eq)]
pub struct Position {
    /// Seconds since the start of 1970.
    pub time1: i64,
    pub time2: i64,
    pub entry: Float,
    pub stop_loss: Float,
    pub take_profit: Float,
    pub direction: Direction,
    pub color: &'static str,
    pub transparency: u8,
    /// How the drawing is described in the log.
    pub shape: &'static str,
}

/// The drawing of a position: its bracket, from the fill bar to the exit or the window's end.
pub fn draw_position(pos: &FireResult) -> (p: Position)
    requires
        pos.fill_at.valid(),
        pos.until.valid(),
    ensures
        p.time1 == pos.fill_at.seconds(),
        p.time2 == pos.until.seconds(),
        p.entry == pos.entry_price && p.stop_loss == pos.stop_loss && p.take_profit
            == pos.take_profit,
        p.direction == pos.direction,
        p.color@ == if !pos.kind.taken() {
            UNFILLED_COLOR@
        } else if pos.direction == Direction::Long {
            LONG_COLOR@
        } else {
            SHORT_COLOR@
        },
        p.transparency == if pos.kind.taken() {
            ZONE_TRANSPARENCY
        } else {
            UNFILLED_TRANSPARENCY
        },
        p.shape@ == if pos.kind.taken() {
            "position tool"@
        } else {
            "muted (not taken)"@
        },
{
    let taken: bool = pos.kind.is_taken();
    let (color, transparency) = box_style(taken, pos.direction);
    let shape: &'static str = if taken {
        "position tool"
    } else {
        "muted (not taken)"
    };
    Position {
        time1: pos.fill_at.timestamp(),
        time2: pos.until.timestamp(),
        entry: pos.entry_price,
        stop_loss: pos.stop_loss,
        take_profit: pos.take_profit,
        direction: pos.direction,
        color,
        transparency,
        shape,
    }
}

/// What came of removing one earlier drawing.
#[derive(Clone, Copy, Debug, PartialEq, Eq, Structural)]
pub enum Removal {
    Removed,
    /// It was gone already.
    Gone,
    Failed,
}

/// The number of removals that removed something.
pub open spec fn removed_among(removals: Seq<Removal>) -> nat
    decreases removals.len(),
{
    if removals.len() == 0 {
        0
    } else {
        removed_among(removals.drop_last()) + if removals.last() is Removed {
            1nat
        } else {
            0nat
        }
    }
}

/// How many earlier drawings were removed: one that is gone or that fails does not count.
pub fn clear_prior(removals: &Vec<Removal>) -> (n: usize)
    ensures
        n == removed_among(removals@),
{
    let mut n: usize = 0;
    let mut i: usize = 0;
    while i < removals.len()
        invariant
            n <= i <= removals@.len(),
            n == removed_among(removals@.take(i as int)),
        decreases removals@.len() - i,
    {
        assert(removals@.take(i + 1).drop_last() =~= removals@.take(i as int));
        if matches!(removals[i], Removal::Removed) {
            n = n + 1;
        }
        i = i + 1;
    }
    assert(removals@.take(i as int) =~= removals@);
    n
}

/// The ids of the drawings that landed, in order. A drawing without an id did not.
pub open spec fn landed(drawn: Seq<Option<String>>) -> Seq<String>
    decreases drawn.len(),
{
    if drawn.len() == 0 {
        Seq::empty()
    } else {
        match drawn.last() {
            Some(id) => landed(drawn.drop_last()).push(id),
            None => landed(drawn.drop_last()),
        }
    }
}

/// The ids to record for the next run.
pub fn drawn_ids(drawn: &Vec<Option<String>>) -> (ids: Vec<String>)
    ensures
        ids@ == landed(drawn@),
{
    let mut ids: Vec<String> = Vec::new();
    let mut i: usize = 0;
    assert(drawn@.take(0) =~= Seq::<Option<String>>::empty());
    while i < drawn.len()
        invariant
            i <= drawn@.len(),
            ids@ == landed(drawn@.take(i as int)),
        decreases drawn@.len() - i,
    {
        assert(drawn@.take(i + 1).drop_last() =~= drawn@.take(i as int));
        if let Some(id) = &drawn[i] {
            ids.push(id.clone());
        }
        i = i + 1;
    }
    assert(drawn@.take(i as int) =~= drawn@);
    ids
}

/// Texts as characters.
pub open spec fn views(texts: Seq<String>) -> Seq<Seq<char>> {
    texts.map_values(|s: String| s@)
}

/// The list of texts that JSON text holds; none where it is no such list.
pub uninterp spec fn json_text_list(text: Seq<char>) -> Option<Seq<Seq<char>>>;

/// `serde_json::from_str` into a list of strings. What the parser makes of the text is not said.
#[verifier::external_body]
fn parse_text_list(text: &str) -> (ids: Option<Vec<String>>)
    ensures
        json_text_list(text@) == match ids {
            Some(v) => Some(views(v@)),
            None => None,
        },
{
    serde_json::from_str::<Vec<String>>(text).ok()
}

/// The indented JSON text of a list of texts.
pub uninterp spec fn json_list_text(list: Seq<Seq<char>>) -> Seq<char>;

/// `serde_json::to_string_pretty` of a list of strings: JSON text that the list alone determines
/// and that reads back as the list. Strings always serialize, so there is always a text. How it is
/// laid out is not said.
#[verifier::external_body]
fn print_text_list(ids: &Vec<String>) -> (text: Option<String>)
    ensures
        text is Some,
        (text->0)@ == json_list_text(views(ids@)),
        json_text_list((text->0)@) == Some(views(ids@)),
{
    serde_json::to_string_pretty(ids).ok()
}

/// The ids that an earlier run recorded, by the manifest's text. A manifest that is missing or
/// cannot be read holds none.
pub fn read_manifest(text: Option<&str>) -> (ids: Vec<String>)
    ensures
        views(ids@) == match text {
            Some(t) => match json_text_list(t@) {
                Some(list) => list,
                None => Seq::empty(),
            },
            None => Seq::empty(),
        },
{
    match text {
        Some(t) => ids_or_none(parse_text_list(t)),
        None => ids_or_none(None),
    }
}

/// The ids, or none.
pub fn ids_or_none(ids: Option<Vec<String>>) -> (list: Vec<String>)
    ensures
        views(list@) == match ids {
            Some(v) => views(v@),
            None => Seq::empty(),
        },
{
    match ids {
        Some(v) => v,
        None => {
            let none: Vec<String> = Vec::new();
            assert(views(none@) =~= Seq::empty());
            none
        },
    }
}

/// The manifest's text for a list of ids: indented JSON. Reading it back gives the list.
pub fn write_manifest(ids: &Vec<String>) -> (text: String)
    ensures
        text@ == json_list_text(views(ids@)),
        json_text_list(text@) == Some(views(ids@)),
{
    match print_text_list(ids) {
        Some(s) => s,
        None => String::new(),
    }
}

/// The manifest's path under a home directory.
pub fn manifest_path(home: &str) -> (path: String)
    ensures
        path@ == joined_path(home@, ".config/trade-control/replay-annotations.json"@),
{
    join_path(home, ".config/trade-control/replay-annotations.json")
}

/// The drawings that landed are recorded in order, one id after another, and those that did not are
/// left out; the removals are counted where they removed something.
pub proof fn what_landed_is_recorded(
    drawn: Seq<Option<String>>,
    id: String,
    removals: Seq<Removal>,
)
    ensures
        landed(Seq::empty()).len() == 0,
        landed(drawn.push(Some(id))) == landed(drawn).push(id),
        landed(drawn.push(None)) == landed(drawn),
        removed_among(removals) == removals.filter(|r: Removal| r == Removal::Removed).len(),
    decreases removals.len(),
{
    assert(drawn.push(Some(id)).drop_last() =~= drawn);
    assert(drawn.push(None).drop_last() =~= drawn);
    reveal(Seq::filter);
    if removals.len() > 0 {
        what_landed_is_recorded(drawn, id, removals.drop_last());
    }
}

} // verus!
