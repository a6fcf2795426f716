//! Many fixtures in one run: a row for each, and their roll-up.
//!
//! Every fixture gives exactly one row, and each row says whether it replayed. A failure is a row
//! of its own, never a missing one, so that a run that died cannot be read as a flat one.
use vstd::prelude::*;
use vstd::string::*;
use crate::arm_record::{cell_name, ArmRecord};
use crate::binary64::{magnitudes_are_ordered, sum, zero_units, Float};
use crate::decimal::{count_text, decimal, fixed, fixed_text};
use crate::economics::ReplayEconomics;
use crate::glob::{glob_matches, matches_glob};
use crate::sequences::inserting_adds_one;
use crate::text::{comes_before, text_before, text_before_is_total, text_before_is_transitive};

verus! {

/// One fixture's result.
#[derive(Debug, PartialEq, Eq)]
pub struct BatchResult {
    /// The fixture's directory name.
    pub fixture: String,
    /// The replay completed and agreed with what it was checked against.
    pub ok: bool,
    /// Why it failed.
    pub error: Option<String>,
    /// The net R of the golden that the run disagreed with.
    pub expected_net_r: Option<Float>,
    /// How the fixture was armed.
    pub arm: Option<ArmRecord>,
    /// The grid cell, by the arm record.
    pub cell: Option<String>,
    /// The trade that the fixture is a variant of.
    pub trade_id: Option<String>,
    /// What it earned. Present on a row that disagreed with its golden: that run scored.
    pub outcome: Option<ReplayEconomics>,
}

/// The cell is that of the arm record.
pub open spec fn cell_of(arm: Option<ArmRecord>, cell: Option<String>) -> bool {
    match arm {
        Some(a) => cell matches Some(c) && c@ == cell_name(
            a.entry_rule@.label(),
            a.skip_calendar_bars,
            a.skip_reversals,
        ),
        None => cell is None,
    }
}

impl BatchResult {
    /// A fixture that replayed.
    pub fn ok(
        fixture: &str,
        trade_id: Option<String>,
        arm: Option<ArmRecord>,
        outcome: Option<ReplayEconomics>,
    ) -> (row: BatchResult)
        ensures
            row.fixture@ == fixture@,
            row.ok,
            row.error is None,
            row.expected_net_r is None,
            row.arm == arm,
            cell_of(arm, row.cell),
            row.trade_id == trade_id,
            row.outcome == outcome,
    {
        let cell: Option<String> = match &arm {
            Some(a) => Some(a.cell_key()),
            None => None,
        };
        BatchResult {
            fixture: fixture.to_owned(),
            ok: true,
            error: None,
            expected_net_r: None,
            arm,
            cell,
            trade_id,
            outcome,
        }
    }

    /// A fixture that could not be replayed: a row without measurements.
    pub fn failed(fixture: &str, error: &str) -> (row: BatchResult)
        ensures
            row.fixture@ == fixture@,
            !row.ok,
            row.error matches Some(e) && e@ == error@,
            row.expected_net_r is None && row.arm is None && row.cell is None,
            row.trade_id is None && row.outcome is None,
    {
        BatchResult {
            fixture: fixture.to_owned(),
            ok: false,
            error: Some(error.to_owned()),
            expected_net_r: None,
            arm: None,
            cell: None,
            trade_id: None,
            outcome: None,
        }
    }

    /// A fixture that replayed and disagreed with its golden: the row that it gave, no longer ok,
    /// with its measurements kept and the golden's net R beside them.
    pub fn mismatched(
        ok_row: BatchResult,
        expected: Option<&ReplayEconomics>,
        error: &str,
    ) -> (row: BatchResult)
        ensures
            !row.ok,
            row.error matches Some(e) && e@ == error@,
            row.expected_net_r == match expected {
                Some(e) => Some(e.net_r),
                None => None,
            },
            row.fixture == ok_row.fixture && row.arm == ok_row.arm && row.cell == ok_row.cell,
            row.trade_id == ok_row.trade_id && row.outcome == ok_row.outcome,
    {
        BatchResult {
            ok: false,
            error: Some(error.to_owned()),
            expected_net_r: match expected {
                Some(e) => Some(e.net_r),
                None => None,
            },
            fixture: ok_row.fixture,
            arm: ok_row.arm,
            cell: ok_row.cell,
            trade_id: ok_row.trade_id,
            outcome: ok_row.outcome,
        }
    }

    /// What the row scored, zero where nothing was.
    pub open spec fn scored_r(self) -> Float {
        match self.outcome {
            Some(o) => o.net_r,
            None => Float { bits: 0 },
        }
    }

    /// Net R, or zero where nothing was scored.
    pub fn net_r(&self) -> (r: Float)
        ensures
            r == self.scored_r(),
    {
        match &self.outcome {
            Some(o) => o.net_r,
            None => Float { bits: 0 },
        }
    }
}

/// The number of rows that are ok.
pub open spec fn count_ok(rows: Seq<BatchResult>) -> nat
    decreases rows.len(),
{
    if rows.len() == 0 {
        0
    } else {
        count_ok(rows.drop_last()) + if rows.last().ok {
            1nat
        } else {
            0nat
        }
    }
}

/// The net R of the rows that are ok, added up in order.
pub open spec fn sum_ok(rows: Seq<BatchResult>) -> Float
    decreases rows.len(),
{
    if rows.len() == 0 {
        Float { bits: 0 }
    } else if rows.last().ok {
        sum(sum_ok(rows.drop_last()), rows.last().scored_r())
    } else {
        sum_ok(rows.drop_last())
    }
}

/// The number with a negative zero made positive.
pub open spec fn without_minus_zero(x: Float) -> Float {
    sum(x, Float { bits: 0 })
}

/// A whole batch.
#[derive(Debug, PartialEq, Eq)]
pub struct BatchSummary {
    pub matched: usize,
    pub succeeded: usize,
    /// Where this is not zero, `net_r` leaves the failures out.
    pub failed: usize,
    pub net_r: Float,
    pub results: Vec<BatchResult>,
}

impl BatchSummary {
    /// The roll-up of a run: every row counted, only the ok ones scored.
    pub fn from_results(results: Vec<BatchResult>) -> (summary: BatchSummary)
        ensures
            summary.results == results,
            summary.matched == results@.len(),
            summary.succeeded == count_ok(results@),
            summary.failed == results@.len() - count_ok(results@),
            summary.net_r == without_minus_zero(sum_ok(results@)),
    {
        let mut succeeded: usize = 0;
        let mut total: Float = Float { bits: 0 };
        let mut i: usize = 0;
        while i < results.len()
            invariant
                succeeded <= i <= results@.len(),
                succeeded == count_ok(results@.take(i as int)),
                total == sum_ok(results@.take(i as int)),
            decreases results@.len() - i,
        {
            assert(results@.take(i + 1).drop_last() =~= results@.take(i as int));
            if results[i].ok {
                succeeded = succeeded + 1;
                total = total.plus(results[i].net_r());
            }
            i = i + 1;
        }
        assert(results@.take(i as int) =~= results@);
        BatchSummary {
            matched: results.len(),
            succeeded,
            failed: results.len() - succeeded,
            net_r: total.plus(Float { bits: 0 }),
            results,
        }
    }

    /// The batch in one line. A flat batch reads as flat, and one with failures says that its net
    /// R leaves them out.
    pub open spec fn headline_text(self) -> Seq<char> {
        let zero = Float { bits: 0 };
        let line = "batch: "@ + decimal(self.matched as nat) + " fixture(s) — "@ + decimal(
            self.succeeded as nat,
        ) + " ok, "@ + decimal(self.failed as nat) + " failed  |  Net R: "@ + fixed(
            if self.net_r.same(zero) {
                zero
            } else {
                self.net_r
            },
            2,
            true,
        );
        if self.failed > 0 {
            line + "  ← INCOMPLETE, net R excludes the failures"@
        } else {
            line
        }
    }

    /// The batch in one line.
    pub fn headline(&self) -> (line: String)
        ensures
            line@ == self.headline_text(),
    {
        let zero: Float = Float { bits: 0 };
        let shown: Float = if self.net_r.eq_value(zero) {
            zero
        } else {
            self.net_r
        };
        let line: String = "batch: ".to_owned().concat(
            count_text(self.matched as u64).as_str(),
        ).concat(" fixture(s) — ").concat(count_text(self.succeeded as u64).as_str()).concat(
            " ok, ",
        ).concat(count_text(self.failed as u64).as_str()).concat(" failed  |  Net R: ").concat(
            fixed_text(shown, 2, true).as_str(),
        );
        if self.failed > 0 {
            line.concat("  ← INCOMPLETE, net R excludes the failures")
        } else {
            line
        }
    }
}

/// A row that is not ok moves neither the score nor the count, wherever it stands.
pub proof fn a_failed_row_does_not_score(
    before: Seq<BatchResult>,
    row: BatchResult,
    after: Seq<BatchResult>,
)
    requires
        !row.ok,
    ensures
        sum_ok(before.push(row) + after) == sum_ok(before + after),
        count_ok(before.push(row) + after) == count_ok(before + after),
    decreases after.len(),
{
    let with = before.push(row) + after;
    let without = before + after;
    if after.len() == 0 {
        assert(with =~= before.push(row) && without =~= before);
        assert(with.drop_last() =~= before);
    } else {
        assert(with.drop_last() =~= before.push(row) + after.drop_last());
        assert(without.drop_last() =~= before + after.drop_last());
        assert(with.last() == after.last() && without.last() == after.last());
        a_failed_row_does_not_score(before, row, after.drop_last());
    }
}

/// A roll-up counts the rows that are ok, and scores them one by one: one more row that is ok adds
/// its net R, or nothing where it was not scored, and one that is not adds nothing.
pub proof fn one_more_row_adds_what_it_scored(rows: Seq<BatchResult>, row: BatchResult)
    ensures
        sum_ok(Seq::empty()).bits == 0,
        count_ok(rows) == rows.filter(|r: BatchResult| r.ok).len(),
        sum_ok(rows.push(row)) == match row.outcome {
            Some(o) if row.ok => sum(sum_ok(rows), o.net_r),
            _ if row.ok => sum(sum_ok(rows), Float { bits: 0 }),
            _ => sum_ok(rows),
        },
    decreases rows.len(),
{
    assert(rows.push(row).drop_last() =~= rows);
    reveal(Seq::filter);
    if rows.len() > 0 {
        one_more_row_adds_what_it_scored(rows.drop_last(), rows.last());
    }
}

/// The names come in the order of strings.
pub open spec fn names_sorted(names: Seq<String>) -> bool {
    forall|i: int, j: int|
        0 <= i < j < names.len() ==> !text_before((#[trigger] names[j])@, (#[trigger] names[i])@)
}

/// The names that a pattern selects, in their given order.
pub open spec fn selected(names: Seq<String>, pattern: Seq<char>) -> Seq<String> {
    names.filter(|n: String| matches_glob(pattern, n@))
}

/// The directory names that match a pattern, sorted. No name gives no result: a missing root is
/// an empty batch.
pub fn matching_fixtures(names: &Vec<String>, pattern: &str) -> (dirs: Vec<String>)
    ensures
        names_sorted(dirs@),
        dirs@.to_multiset() == selected(names@, pattern@).to_multiset(),
{
    let mut dirs: Vec<String> = Vec::new();
    let ghost picks = |n: String| matches_glob(pattern@, n@);
    let mut i: usize = 0;
    assert(names@.take(0) =~= Seq::<String>::empty());
    assert(names@.take(0).filter(picks) =~= Seq::<String>::empty()) by {
        reveal(Seq::filter);
    }
    while i < names.len()
        invariant
            i <= names@.len(),
            names_sorted(dirs@),
            picks == (|n: String| matches_glob(pattern@, n@)),
            dirs@.to_multiset() == names@.take(i as int).filter(picks).to_multiset(),
        decreases names@.len() - i,
    {
        proof {
            let before = names@.take(i as int);
            let now = names@.take(i + 1);
            assert(now.drop_last() =~= before);
            assert(now.last() == names@[i as int]);
            reveal(Seq::filter);
            before.filter(picks).to_multiset_ensures();
        }
        if glob_matches(pattern, names[i].as_str()) {
            insert_name(&mut dirs, names[i].clone());
        }
        i = i + 1;
    }
    assert(names@.take(i as int) =~= names@);
    dirs
}

/// Puts a name where the order wants it.
fn insert_name(names: &mut Vec<String>, name: String)
    requires
        names_sorted(old(names)@),
    ensures
        names_sorted(final(names)@),
        final(names)@.to_multiset() == old(names)@.to_multiset().insert(name),
{
    let mut k: usize = 0;
    while k < names.len() && !comes_before(name.as_str(), names[k].as_str())
        invariant
            k <= names@.len(),
            names@ == old(names)@,
            names_sorted(names@),
            forall|j: int| 0 <= j < k ==> !text_before(name@, (#[trigger] names@[j])@),
        decreases names@.len() - k,
    {
        k = k + 1;
    }
    proof {
        let (s, t) = (names@, names@.insert(k as int, name));
        inserting_adds_one(s, k as int, name);
        assert forall|i: int, j: int| 0 <= i < j < t.len() implies !text_before(
            (#[trigger] t[j])@,
            (#[trigger] t[i])@,
        ) by {
            if i == k {
                let b = s[j - 1];
                assert(t[j] == b);
                // `b` stands at or after the place, so `name` comes before it or before one
                // that it does not precede.
                text_before_is_total(name@, b@);
                if text_before(b@, name@) {
                    assert(text_before(name@, s[k as int]@));
                    text_before_is_transitive(b@, name@, s[k as int]@);
                    text_before_is_total(b@, s[k as int]@);
                    assert(false);
                }
            } else if j == k {
                assert(t[i] == s[i]);
            } else if j < k {
                assert(t[i] == s[i] && t[j] == s[j]);
            } else if i > k {
                assert(t[i] == s[i - 1] && t[j] == s[j - 1]);
            } else {
                assert(t[i] == s[i] && t[j] == s[j - 1]);
            }
        }
    }
    names.insert(k, name);
}

/// The fixtures of a pattern are the names that it matches, each as often as it is there.
pub proof fn a_pattern_selects_what_it_matches(names: Seq<String>, pattern: Seq<char>, name: String)
    ensures
        selected(names, pattern).contains(name) <==> names.contains(name) && matches_glob(
            pattern,
            name@,
        ),
        selected(names, pattern) == names.filter(|n: String| matches_glob(pattern, n@)),
    decreases names.len(),
{
    reveal(Seq::filter);
    let picked = selected(names, pattern);
    if names.len() > 0 {
        let less = names.drop_last();
        let before = selected(less, pattern);
        let last = names.last();
        a_pattern_selects_what_it_matches(less, pattern, name);
        assert(names =~= less.push(last));
        if names.contains(name) && name != last {
            let i = choose|i: int| 0 <= i < names.len() && names[i] == name;
            assert(less[i] == name);
        }
        if less.contains(name) {
            let i = choose|i: int| 0 <= i < less.len() && less[i] == name;
            assert(names[i] == name);
        }
        assert(names[names.len() - 1] == last);
        if matches_glob(pattern, last@) {
            assert(picked == before.push(last));
            assert(picked[picked.len() - 1] == last);
            if before.contains(name) {
                let i = choose|i: int| 0 <= i < before.len() && before[i] == name;
                assert(picked[i] == name);
            }
            if picked.contains(name) && name != last {
                let i = choose|i: int| 0 <= i < picked.len() && picked[i] == name;
                assert(before[i] == name);
            }
        }
    }
}

/// A headline gives the three counts and the net R, a zero of either sign as plus zero, and says
/// that it is incomplete exactly where a fixture failed.
pub proof fn a_headline_says_what_it_leaves_out(s: BatchSummary)
    ensures
        ({
            let flat = s.net_r.mag() == 0;
            let line = "batch: "@ + decimal(s.matched as nat) + " fixture(s) — "@ + decimal(
                s.succeeded as nat,
            ) + " ok, "@ + decimal(s.failed as nat) + " failed  |  Net R: "@;
            let note = "  ← INCOMPLETE, net R excludes the failures"@;
            let score = fixed(
                if flat {
                    Float { bits: 0 }
                } else {
                    s.net_r
                },
                2,
                true,
            );
            &&& s.failed == 0 ==> s.headline_text() == line + score
            &&& s.failed >= 1 ==> s.headline_text() == line + score + note
        }),
{
    zero_units();
    if s.net_r.mag() > 0 {
        magnitudes_are_ordered(0, s.net_r.mag());
    }
    assert(s.net_r.same(Float { bits: 0 }) == (s.net_r.mag() == 0));
}

} // verus!
