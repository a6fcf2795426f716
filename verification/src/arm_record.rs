//! How a fixture was armed: the flags and the versions that produced it, and the grid cell that
//! they put it in.
use vstd::prelude::*;
use vstd::string::*;
use crate::text::same_text;

verus! {

/// Which entry rule a trade was armed with.
#[derive(Debug, PartialEq, Eq)]
pub enum EntryRule {
    /// Break-and-close, then retest, then enter.
    Normal,
    /// Both preparations skipped.
    SkipBcr,
    /// The Quasimodo leg as a limit order.
    StrategyV2,
    /// The Quasimodo leg at market.
    StrategyV2QmMarket,
    /// The Quasimodo leg as a stop order.
    StrategyV2QmStop,
    /// Any other label, kept as it is.
    Other(String),
}

/// An entry rule with its label as characters.
pub enum RuleModel {
    Normal,
    SkipBcr,
    StrategyV2,
    StrategyV2QmMarket,
    StrategyV2QmStop,
    Other(Seq<char>),
}

impl RuleModel {
    /// The grid-column label.
    pub open spec fn label(self) -> Seq<char> {
        match self {
            RuleModel::Normal => "normal"@,
            RuleModel::SkipBcr => "skip-bcr"@,
            RuleModel::StrategyV2 => "strategy-v2"@,
            RuleModel::StrategyV2QmMarket => "strategy-v2-qm-market"@,
            RuleModel::StrategyV2QmStop => "strategy-v2-qm-stop"@,
            RuleModel::Other(s) => s,
        }
    }
}

/// The rule that a label names: a known one, or any other as itself. No label is the plain rule.
pub open spec fn rule_named(label: Option<Seq<char>>) -> RuleModel {
    match label {
        None => RuleModel::Normal,
        Some(l) => if l == "normal"@ {
            RuleModel::Normal
        } else if l == "skip-bcr"@ {
            RuleModel::SkipBcr
        } else if l == "strategy-v2"@ {
            RuleModel::StrategyV2
        } else if l == "strategy-v2-qm-market"@ {
            RuleModel::StrategyV2QmMarket
        } else if l == "strategy-v2-qm-stop"@ {
            RuleModel::StrategyV2QmStop
        } else {
            RuleModel::Other(l)
        },
    }
}

impl View for EntryRule {
    type V = RuleModel;

    open spec fn view(&self) -> RuleModel {
        match self {
            EntryRule::Normal => RuleModel::Normal,
            EntryRule::SkipBcr => RuleModel::SkipBcr,
            EntryRule::StrategyV2 => RuleModel::StrategyV2,
            EntryRule::StrategyV2QmMarket => RuleModel::StrategyV2QmMarket,
            EntryRule::StrategyV2QmStop => RuleModel::StrategyV2QmStop,
            EntryRule::Other(s) => RuleModel::Other(s@),
        }
    }
}

impl Clone for EntryRule {
    fn clone(&self) -> (r: EntryRule)
        ensures
            r == *self,
    {
        match self {
            EntryRule::Normal => EntryRule::Normal,
            EntryRule::SkipBcr => EntryRule::SkipBcr,
            EntryRule::StrategyV2 => EntryRule::StrategyV2,
            EntryRule::StrategyV2QmMarket => EntryRule::StrategyV2QmMarket,
            EntryRule::StrategyV2QmStop => EntryRule::StrategyV2QmStop,
            EntryRule::Other(s) => EntryRule::Other(s.clone()),
        }
    }
}

impl Default for EntryRule {
    fn default() -> (r: EntryRule)
        ensures
            r == EntryRule::Normal,
    {
        EntryRule::Normal
    }
}

impl EntryRule {
    /// The grid-column label.
    pub fn label(&self) -> (l: &str)
        ensures
            l@ == self@.label(),
    {
        match self {
            EntryRule::Normal => "normal",
            EntryRule::SkipBcr => "skip-bcr",
            EntryRule::StrategyV2 => "strategy-v2",
            EntryRule::StrategyV2QmMarket => "strategy-v2-qm-market",
            EntryRule::StrategyV2QmStop => "strategy-v2-qm-stop",
            EntryRule::Other(s) => s.as_str(),
        }
    }

    /// The rule that a label names. An unknown label is kept as it is; no label is `Normal`.
    pub fn parse(label: Option<&str>) -> (r: EntryRule)
        ensures
            r@ == rule_named(
                match label {
                    Some(l) => Some(l@),
                    None => None,
                },
            ),
    {
        match label {
            None => EntryRule::Normal,
            Some(l) => if same_text(l, "normal") {
                EntryRule::Normal
            } else if same_text(l, "skip-bcr") {
                EntryRule::SkipBcr
            } else if same_text(l, "strategy-v2") {
                EntryRule::StrategyV2
            } else if same_text(l, "strategy-v2-qm-market") {
                EntryRule::StrategyV2QmMarket
            } else if same_text(l, "strategy-v2-qm-stop") {
                EntryRule::StrategyV2QmStop
            } else {
                EntryRule::Other(l.to_owned())
            },
        }
    }
}

/// How and from what a saved fixture was armed. None of it is read back into a replay.
#[derive(Debug, PartialEq, Eq)]
pub struct ArmRecord {
    pub entry_rule: EntryRule,
    /// News windows were left out.
    pub skip_calendar_bars: bool,
    /// The golden-candle gate was waived.
    pub skip_golden: bool,
    /// Both reversal closes were dropped.
    pub skip_reversals: bool,
    /// The start cursor as it was typed.
    pub start: Option<String>,
    /// Whose candles the replay pulled.
    pub candle_source: Option<String>,
    /// The chart symbol, qualified by its broker.
    pub chart_symbol: Option<String>,
    /// The version that armed the plan.
    pub tv_arm_version: Option<String>,
    /// The version that produced the outcome.
    pub engine_version: Option<String>,
    /// A pointer to the journal page.
    pub journal_ref: Option<String>,
}

/// An optional text, copied.
pub fn copied(s: &Option<String>) -> (r: Option<String>)
    ensures
        r == *s,
{
    match s {
        Some(s) => Some(s.clone()),
        None => None,
    }
}

impl Clone for ArmRecord {
    fn clone(&self) -> (r: ArmRecord)
        ensures
            r == *self,
    {
        ArmRecord {
            entry_rule: self.entry_rule.clone(),
            skip_calendar_bars: self.skip_calendar_bars,
            skip_golden: self.skip_golden,
            skip_reversals: self.skip_reversals,
            start: copied(&self.start),
            candle_source: copied(&self.candle_source),
            chart_symbol: copied(&self.chart_symbol),
            tv_arm_version: copied(&self.tv_arm_version),
            engine_version: copied(&self.engine_version),
            journal_ref: copied(&self.journal_ref),
        }
    }
}

impl Default for ArmRecord {
    fn default() -> (r: ArmRecord)
        ensures
            r.entry_rule == EntryRule::Normal,
            !r.skip_calendar_bars && !r.skip_golden && !r.skip_reversals,
            r.start is None && r.candle_source is None && r.chart_symbol is None,
            r.tv_arm_version is None && r.engine_version is None && r.journal_ref is None,
    {
        ArmRecord {
            entry_rule: EntryRule::Normal,
            skip_calendar_bars: false,
            skip_golden: false,
            skip_reversals: false,
            start: None,
            candle_source: None,
            chart_symbol: None,
            tv_arm_version: None,
            engine_version: None,
            journal_ref: None,
        }
    }
}

/// The key of a grid cell: the rule's label, news on or off, and a suffix where reversal closes
/// were dropped.
pub open spec fn cell_name(label: Seq<char>, news_off: bool, reversals_off: bool) -> Seq<char> {
    label + "/news-"@ + (if news_off {
        "off"@
    } else {
        "on"@
    }) + (if reversals_off {
        "/rev-off"@
    } else {
        ""@
    })
}

impl ArmRecord {
    /// The key of the grid cell that the fixture belongs to.
    pub fn cell_key(&self) -> (key: String)
        ensures
            key@ == cell_name(
                self.entry_rule@.label(),
                self.skip_calendar_bars,
                self.skip_reversals,
            ),
    {
        let news: &str = if self.skip_calendar_bars {
            "off"
        } else {
            "on"
        };
        let rev: &str = if self.skip_reversals {
            "/rev-off"
        } else {
            ""
        };
        self.entry_rule.label().to_owned().concat("/news-").concat(news).concat(rev)
    }
}

/// A rule's label names the rule: reading a label back gives the rule it came from. The one
/// exception is left out, a rule of another label that spells a known one.
pub proof fn a_label_names_its_rule(rule: RuleModel)
    requires
        rule matches RuleModel::Other(s) ==> rule_named(Some(s)) is Other,
    ensures
        rule_named(Some(rule.label())) == rule,
{
    reveal_strlit("normal");
    reveal_strlit("skip-bcr");
    reveal_strlit("strategy-v2");
    reveal_strlit("strategy-v2-qm-market");
    reveal_strlit("strategy-v2-qm-stop");
    assert("normal"@.len() == 6 && "skip-bcr"@.len() == 8 && "strategy-v2"@.len() == 11);
    assert("strategy-v2-qm-market"@.len() == 21 && "strategy-v2-qm-stop"@.len() == 19);
}

/// The reversals-off twin of a cell is the cell's own key with a suffix: a cell with reversals on
/// keeps the key that it had before there was a choice.
pub proof fn reversals_on_keeps_the_plain_key(label: Seq<char>, news_off: bool)
    ensures
        cell_name(label, news_off, true) == cell_name(label, news_off, false) + "/rev-off"@,
        cell_name(label, news_off, false) == label + "/news-"@ + (if news_off {
            "off"@
        } else {
            "on"@
        }),
{
    reveal_strlit("");
    assert(cell_name(label, news_off, true) =~= cell_name(label, news_off, false) + "/rev-off"@);
    assert(cell_name(label, news_off, false) =~= label + "/news-"@ + (if news_off {
        "off"@
    } else {
        "on"@
    }));
}

/// Two cells with the same key are the same cell, for labels without a slash.
pub proof fn cell_keys_tell_cells_apart(
    label: Seq<char>,
    news_off: bool,
    reversals_off: bool,
    other: Seq<char>,
    other_news_off: bool,
    other_reversals_off: bool,
)
    requires
        !label.contains('/'),
        !other.contains('/'),
        cell_name(label, news_off, reversals_off) == cell_name(
            other,
            other_news_off,
            other_reversals_off,
        ),
    ensures
        label == other,
        news_off == other_news_off,
        reversals_off == other_reversals_off,
{
    reveal_strlit("/news-");
    reveal_strlit("on");
    reveal_strlit("off");
    reveal_strlit("/rev-off");
    reveal_strlit("");
    let a = cell_name(label, news_off, reversals_off);
    let b = cell_name(other, other_news_off, other_reversals_off);
    assert(a[label.len() as int] == '/');
    assert(b[other.len() as int] == '/');
    if label.len() < other.len() {
        assert(b[label.len() as int] == other[label.len() as int]);
        assert(other.contains(other[label.len() as int]));
    }
    if other.len() < label.len() {
        assert(a[other.len() as int] == label[other.len() as int]);
        assert(label.contains(label[other.len() as int]));
    }
    assert forall|i: int| 0 <= i < label.len() implies label[i] == other[i] by {
        assert(a[i] == label[i] && b[i] == other[i]);
    }
    assert(label =~= other);
    assert(a.len() == label.len() + 6 + (if news_off {
        3int
    } else {
        2int
    }) + (if reversals_off {
        8int
    } else {
        0int
    }));
}

/// Only a known label names a known rule, no label names the normal one, and any other label is kept
/// as it is.
pub proof fn a_label_is_read_as_it_is_spelled(l: Seq<char>)
    ensures
        rule_named(None) is Normal,
        rule_named(Some(l)) is Normal <==> l == "normal"@,
        rule_named(Some(l)) is SkipBcr <==> l == "skip-bcr"@,
        rule_named(Some(l)) is StrategyV2 <==> l == "strategy-v2"@,
        rule_named(Some(l)) is StrategyV2QmMarket <==> l == "strategy-v2-qm-market"@,
        rule_named(Some(l)) is StrategyV2QmStop <==> l == "strategy-v2-qm-stop"@,
        rule_named(Some(l)) matches RuleModel::Other(kept) ==> kept == l,
{
    reveal_strlit("normal");
    reveal_strlit("skip-bcr");
    reveal_strlit("strategy-v2");
    reveal_strlit("strategy-v2-qm-market");
    reveal_strlit("strategy-v2-qm-stop");
    assert("normal"@.len() == 6 && "skip-bcr"@.len() == 8 && "strategy-v2"@.len() == 11);
    assert("strategy-v2-qm-market"@.len() == 21 && "strategy-v2-qm-stop"@.len() == 19);
}

} // verus!
