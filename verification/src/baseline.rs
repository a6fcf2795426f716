//! A whole corpus scored against a blessed baseline: what moved, which way and by how much.
//!
//! A fixture that is taken now and was not before, or the other way round, has moved
//! *structurally*, and is listed before every change of size. There is no threshold: a replay is
//! deterministic, so every difference is reported.
use vstd::prelude::*;
use vstd::string::*;
use crate::arm_record::copied;
use crate::baseline_laws::blessed_entries_are_by_name;
use crate::batch::{without_minus_zero, BatchResult, BatchSummary};
use crate::binary64::{difference, sum, Float};
use crate::economics::ReplayEconomics;
use crate::sequences::inserting_adds_one;
use crate::text::{
    comes_before, same_text, text_before, text_before_is_total, text_before_is_transitive,
};

verus! {

/// One fixture's blessed result: what it earned and how.
#[derive(Debug, PartialEq, Eq)]
pub struct BaselineEntry {
    pub net_r: Float,
    /// The grid cell.
    pub cell: Option<String>,
    pub trade_id: Option<String>,
    /// Armed with the news calendar on, so that the calendar alone can move it.
    pub news_on: bool,
    /// A position was on. A trade can come out at exactly zero, so the score does not tell.
    pub taken: bool,
    pub tp_hits: usize,
    pub sl_hits: usize,
    pub reversal_closes: usize,
    pub expiry_closes: usize,
    pub invalidation_closes: usize,
}

impl Clone for BaselineEntry {
    fn clone(&self) -> (r: BaselineEntry)
        ensures
            r == *self,
    {
        BaselineEntry {
            net_r: self.net_r,
            cell: copied(&self.cell),
            trade_id: copied(&self.trade_id),
            news_on: self.news_on,
            taken: self.taken,
            tp_hits: self.tp_hits,
            sl_hits: self.sl_hits,
            reversal_closes: self.reversal_closes,
            expiry_closes: self.expiry_closes,
            invalidation_closes: self.invalidation_closes,
        }
    }
}

/// The entry that a row is blessed with: none for a row that failed or was not scored.
pub open spec fn entry_of(row: BatchResult) -> Option<BaselineEntry> {
    match row.outcome {
        Some(o) if row.ok => Some(
            BaselineEntry {
                net_r: o.net_r,
                cell: row.cell,
                trade_id: row.trade_id,
                news_on: row.arm matches Some(a) && !a.skip_calendar_bars,
                taken: o.legs@.len() > 0,
                tp_hits: o.tp_hits,
                sl_hits: o.sl_hits,
                reversal_closes: o.reversal_closes,
                expiry_closes: o.expiry_closes,
                invalidation_closes: o.invalidation_closes,
            },
        ),
        _ => None,
    }
}

/// Whether the outcome put a position on: by its legs, not by its score.
pub fn took_a_trade(outcome: &ReplayEconomics) -> (b: bool)
    ensures
        b == (outcome.legs@.len() > 0),
{
    outcome.legs.len() > 0
}

impl BaselineEntry {
    /// The entry that a row is blessed with.
    pub fn from_row(row: &BatchResult) -> (entry: Option<BaselineEntry>)
        ensures
            entry == entry_of(*row),
            entry is Some <==> row.ok && row.outcome is Some,
            entry matches Some(e) ==> {
                let o = row.outcome->0;
                &&& e.net_r == o.net_r
                &&& e.taken == (o.legs@.len() != 0)
                &&& e.tp_hits == o.tp_hits && e.sl_hits == o.sl_hits
                &&& e.reversal_closes == o.reversal_closes && e.expiry_closes == o.expiry_closes
                &&& e.invalidation_closes == o.invalidation_closes
                &&& e.cell == row.cell && e.trade_id == row.trade_id
                &&& e.news_on <==> row.arm is Some && !row.arm->0.skip_calendar_bars
            },
    {
        if !row.ok {
            return None;
        }
        match &row.outcome {
            None => None,
            Some(outcome) => Some(
                BaselineEntry {
                    net_r: outcome.net_r,
                    cell: copied(&row.cell),
                    trade_id: copied(&row.trade_id),
                    news_on: match &row.arm {
                        Some(a) => !a.skip_calendar_bars,
                        None => false,
                    },
                    taken: took_a_trade(outcome),
                    tp_hits: outcome.tp_hits,
                    sl_hits: outcome.sl_hits,
                    reversal_closes: outcome.reversal_closes,
                    expiry_closes: outcome.expiry_closes,
                    invalidation_closes: outcome.invalidation_closes,
                },
            ),
        }
    }

    /// The counters tell the same story.
    pub open spec fn same_shape(self, other: BaselineEntry) -> bool {
        &&& self.tp_hits == other.tp_hits
        &&& self.sl_hits == other.sl_hits
        &&& self.reversal_closes == other.reversal_closes
        &&& self.expiry_closes == other.expiry_closes
        &&& self.invalidation_closes == other.invalidation_closes
    }

    /// The counters, by which a change of character at the same R shows.
    pub fn shape(&self) -> (s: (usize, usize, usize, usize, usize))
        ensures
            s == (
                self.tp_hits,
                self.sl_hits,
                self.reversal_closes,
                self.expiry_closes,
                self.invalidation_closes,
            ),
    {
        (
            self.tp_hits,
            self.sl_hits,
            self.reversal_closes,
            self.expiry_closes,
            self.invalidation_closes,
        )
    }
}

/// An entry under its fixture's name.
#[derive(Debug, PartialEq, Eq)]
pub struct NamedEntry {
    pub name: String,
    pub entry: BaselineEntry,
}

/// The entries with one more: in the order of names, and in place of one of the same name.
pub open spec fn with_entry(entries: Seq<NamedEntry>, name: String, entry: BaselineEntry) -> Seq<
    NamedEntry,
>
    decreases entries.len(),
{
    if entries.len() == 0 || text_before(name@, entries[0].name@) {
        seq![NamedEntry { name, entry }] + entries
    } else if entries[0].name@ == name@ {
        seq![NamedEntry { name: entries[0].name, entry }] + entries.drop_first()
    } else {
        seq![entries[0]] + with_entry(entries.drop_first(), name, entry)
    }
}

/// The blessed entries of a run, by name: of rows of the same name the last that scored.
pub open spec fn scored_entries(rows: Seq<BatchResult>) -> Seq<NamedEntry>
    decreases rows.len(),
{
    if rows.len() == 0 {
        Seq::empty()
    } else {
        let before = scored_entries(rows.drop_last());
        match entry_of(rows.last()) {
            Some(entry) => with_entry(before, rows.last().fixture, entry),
            None => before,
        }
    }
}

/// The names ascend, each once.
pub open spec fn by_name(entries: Seq<NamedEntry>) -> bool {
    forall|i: int, j: int|
        0 <= i < j < entries.len() ==> text_before(
            (#[trigger] entries[i]).name@,
            (#[trigger] entries[j]).name@,
        )
}

/// The entry under a name.
pub open spec fn entry_named(entries: Seq<NamedEntry>, name: Seq<char>) -> Option<BaselineEntry>
    decreases entries.len(),
{
    if entries.len() == 0 {
        None
    } else if entries[0].name@ == name {
        Some(entries[0].entry)
    } else {
        entry_named(entries.drop_first(), name)
    }
}

/// The scores, added up in the order of names.
pub open spec fn sum_entries(entries: Seq<NamedEntry>) -> Float
    decreases entries.len(),
{
    if entries.len() == 0 {
        Float { bits: 0 }
    } else {
        sum(sum_entries(entries.drop_last()), entries.last().entry.net_r)
    }
}

/// With all names before the place smaller, the entry goes to the place.
proof fn entry_goes_to_its_place(
    entries: Seq<NamedEntry>,
    name: String,
    entry: BaselineEntry,
    k: int,
)
    requires
        0 <= k <= entries.len(),
        forall|j: int| 0 <= j < k ==> text_before((#[trigger] entries[j]).name@, name@),
        k < entries.len() ==> !text_before(entries[k].name@, name@),
    ensures
        with_entry(entries, name, entry) == if k < entries.len() && entries[k].name@ == name@ {
            entries.update(k, NamedEntry { name: entries[k].name, entry })
        } else {
            entries.insert(k, NamedEntry { name, entry })
        },
    decreases k,
{
    let result = with_entry(entries, name, entry);
    if k == 0 {
        if entries.len() > 0 {
            text_before_is_total(name@, entries[0].name@);
            if entries[0].name@ == name@ {
                assert(result =~= entries.update(0, NamedEntry { name: entries[0].name, entry }));
            } else {
                assert(result =~= entries.insert(0, NamedEntry { name, entry }));
            }
        } else {
            assert(result =~= entries.insert(0, NamedEntry { name, entry }));
        }
    } else {
        assert(text_before(entries[0].name@, name@));
        text_before_is_total(entries[0].name@, name@);
        text_before_is_total(name@, name@);
        let rest = entries.drop_first();
        assert forall|j: int| 0 <= j < k - 1 implies text_before(
            (#[trigger] rest[j]).name@,
            name@,
        ) by {
            assert(rest[j] == entries[j + 1]);
        }
        entry_goes_to_its_place(rest, name, entry, k - 1);
        if k < entries.len() && entries[k].name@ == name@ {
            assert(result =~= entries.update(k, NamedEntry { name: entries[k].name, entry }));
        } else {
            assert(result =~= entries.insert(k, NamedEntry { name, entry }));
        }
    }
}

/// Puts an entry under its name.
fn insert_entry(entries: &mut Vec<NamedEntry>, name: String, entry: BaselineEntry)
    ensures
        final(entries)@ == with_entry(old(entries)@, name, entry),
{
    let mut k: usize = 0;
    while k < entries.len() && comes_before(entries[k].name.as_str(), name.as_str())
        invariant
            k <= entries@.len(),
            entries@ == old(entries)@,
            forall|j: int| 0 <= j < k ==> text_before((#[trigger] entries@[j]).name@, name@),
        decreases entries@.len() - k,
    {
        k = k + 1;
    }
    proof {
        entry_goes_to_its_place(entries@, name, entry, k as int);
    }
    if k < entries.len() && same_text(entries[k].name.as_str(), name.as_str()) {
        let old_entry: NamedEntry = entries.remove(k);
        entries.insert(k, NamedEntry { name: old_entry.name, entry });
        assert(entries@ =~= old(entries)@.update(
            k as int,
            NamedEntry { name: old(entries)@[k as int].name, entry },
        ));
    } else {
        entries.insert(k, NamedEntry { name, entry });
    }
}

/// The blessed entries of a run.
fn entries_of(rows: &Vec<BatchResult>) -> (entries: Vec<NamedEntry>)
    ensures
        entries@ == scored_entries(rows@),
{
    let mut entries: Vec<NamedEntry> = Vec::new();
    let mut i: usize = 0;
    assert(rows@.take(0) =~= Seq::<BatchResult>::empty());
    while i < rows.len()
        invariant
            i <= rows@.len(),
            entries@ == scored_entries(rows@.take(i as int)),
        decreases rows@.len() - i,
    {
        assert(rows@.take(i + 1).drop_last() =~= rows@.take(i as int));
        if let Some(entry) = BaselineEntry::from_row(&rows[i]) {
            insert_entry(&mut entries, rows[i].fixture.clone(), entry);
        }
        i = i + 1;
    }
    assert(rows@.take(i as int) =~= rows@);
    entries
}

/// The scores, added up in the order of names.
fn total(entries: &Vec<NamedEntry>) -> (r: Float)
    ensures
        r == sum_entries(entries@),
{
    let mut r: Float = Float { bits: 0 };
    let mut i: usize = 0;
    assert(entries@.take(0) =~= Seq::<NamedEntry>::empty());
    while i < entries.len()
        invariant
            i <= entries@.len(),
            r == sum_entries(entries@.take(i as int)),
        decreases entries@.len() - i,
    {
        assert(entries@.take(i + 1).drop_last() =~= entries@.take(i as int));
        r = r.plus(entries[i].entry.net_r);
        i = i + 1;
    }
    assert(entries@.take(i as int) =~= entries@);
    r
}

/// The version that a row was produced with.
pub open spec fn row_version(row: BatchResult) -> Option<String> {
    match row.arm {
        Some(a) => a.engine_version,
        None => None,
    }
}

/// Every row that is ok records this version.
pub open spec fn agreed(rows: Seq<BatchResult>, version: Seq<char>) -> bool {
    forall|i: int|
        0 <= i < rows.len() && (#[trigger] rows[i]).ok ==> (row_version(rows[i]) matches Some(v)
            && v@ == version)
}

/// Some row is ok.
pub open spec fn any_ok(rows: Seq<BatchResult>) -> bool {
    exists|i: int| 0 <= i < rows.len() && (#[trigger] rows[i]).ok
}

/// The version is the one that the rows share: none where they disagree, one lacks it, or none is
/// ok.
pub open spec fn shared_version(rows: Seq<BatchResult>, version: Option<String>) -> bool {
    match version {
        Some(v) => any_ok(rows) && agreed(rows, v@),
        None => !any_ok(rows) || forall|v: Seq<char>| !agreed(rows, v),
    }
}

/// The engine version that every scored row shares.
pub fn common_version(summary: &BatchSummary) -> (version: Option<String>)
    ensures
        shared_version(summary.results@, version),
{
    let rows: &Vec<BatchResult> = &summary.results;
    let mut found: Option<String> = None;
    let mut i: usize = 0;
    while i < rows.len()
        invariant
            i <= rows@.len(),
            rows@ == summary.results@,
            match found {
                Some(v) => any_ok(rows@) && forall|j: int|
                    0 <= j < i && (#[trigger] rows@[j]).ok ==> (row_version(rows@[j]) matches Some(
                        w,
                    ) && w@ == v@),
                None => forall|j: int| 0 <= j < i ==> !(#[trigger] rows@[j]).ok,
            },
            found matches Some(v) ==> exists|j: int|
                0 <= j < i && (#[trigger] rows@[j]).ok && row_version(rows@[j]) == Some(v),
        decreases rows@.len() - i,
    {
        if rows[i].ok {
            let recorded: Option<String> = match &rows[i].arm {
                Some(a) => copied(&a.engine_version),
                None => None,
            };
            assert(recorded == row_version(rows@[i as int]));
            let v: String = match recorded {
                Some(v) => v,
                None => {
                    assert forall|w: Seq<char>| !agreed(rows@, w) by {
                        if agreed(rows@, w) {
                            assert(rows@[i as int].ok);
                        }
                    }
                    return None;
                },
            };
            let differs: bool = match &found {
                Some(seen) => !same_text(seen.as_str(), v.as_str()),
                None => false,
            };
            if differs {
                assert forall|w: Seq<char>| !agreed(rows@, w) by {
                    if agreed(rows@, w) {
                        assert(rows@[i as int].ok);
                        let j = choose|j: int|
                            0 <= j < i && (#[trigger] rows@[j]).ok && row_version(rows@[j]) == found;
                        assert(rows@[j].ok);
                    }
                }
                return None;
            }
            if found.is_none() {
                found = Some(v);
            }
        }
        i = i + 1;
    }
    found
}

/// A blessed corpus: every fixture's result and the version that produced it.
#[derive(Debug, PartialEq, Eq)]
pub struct Baseline {
    pub label: Option<String>,
    pub engine_version: Option<String>,
    /// The sum of the entries.
    pub net_r: Float,
    /// By name.
    pub entries: Vec<NamedEntry>,
}

impl Baseline {
    /// The baseline is a run, blessed under a label: its scored rows by name, their sum, and the
    /// version that they share.
    pub open spec fn blesses(self, summary: BatchSummary, label: Option<String>) -> bool {
        &&& self.label == label
        &&& shared_version(summary.results@, self.engine_version)
        &&& self.entries@ == scored_entries(summary.results@)
        &&& self.net_r == without_minus_zero(sum_entries(self.entries@))
    }

    /// The entries are by name, each name once.
    pub open spec fn well_formed(self) -> bool {
        by_name(self.entries@)
    }

    /// The stored sum is that of the entries.
    pub open spec fn self_consistent(self) -> bool {
        without_minus_zero(sum_entries(self.entries@)).same(self.net_r)
    }

    /// Blesses a run. Rows that did not score are left out.
    pub fn from_summary(summary: &BatchSummary, label: Option<String>) -> (b: Baseline)
        ensures
            b.blesses(*summary, label),
            b.well_formed(),
    {
        proof {
            blessed_entries_are_by_name(summary.results@);
        }
        let entries: Vec<NamedEntry> = entries_of(&summary.results);
        Baseline {
            label,
            engine_version: common_version(summary),
            net_r: total(&entries).plus(Float { bits: 0 }),
            entries,
        }
    }

    /// The sum of the entries, computed anew.
    pub fn recomputed_net_r(&self) -> (r: Float)
        ensures
            r == without_minus_zero(sum_entries(self.entries@)),
    {
        total(&self.entries).plus(Float { bits: 0 })
    }

    /// Whether the stored sum is that of the entries. A baseline that was only ever blessed
    /// agrees exactly.
    pub fn is_self_consistent(&self) -> (b: bool)
        ensures
            b == self.self_consistent(),
    {
        self.recomputed_net_r().eq_value(self.net_r)
    }
}

/// What kind of change a fixture underwent.
#[derive(Clone, Copy, Debug, PartialEq, Eq, Structural)]
pub enum MoveKind {
    /// A trade is taken that was not before.
    Entered,
    /// A trade is not taken that was before. Reads as a gain wherever it used to lose.
    Stopped,
    /// Taken in both or in neither, for another R.
    Requantified,
    /// The same R by other exits.
    Reshaped,
    /// Absent from the baseline.
    Added,
    /// Absent from the run.
    Removed,
}

impl MoveKind {
    /// The change is one of whether there is a trade.
    pub open spec fn structural(self) -> bool {
        self is Entered || self is Stopped || self is Added || self is Removed
    }

    /// Whether the change is one of whether there is a trade.
    pub fn is_structural(&self) -> (b: bool)
        ensures
            b == self.structural(),
    {
        matches!(
            *self,
            MoveKind::Entered | MoveKind::Stopped | MoveKind::Added | MoveKind::Removed
        )
    }

    /// The name in a report.
    pub open spec fn name(self) -> Seq<char> {
        match self {
            MoveKind::Entered => "entered"@,
            MoveKind::Stopped => "stopped"@,
            MoveKind::Requantified => "requantified"@,
            MoveKind::Reshaped => "reshaped"@,
            MoveKind::Added => "added"@,
            MoveKind::Removed => "removed"@,
        }
    }

    /// The name in a report.
    pub fn label(&self) -> (l: &'static str)
        ensures
            l@ == self.name(),
    {
        match *self {
            MoveKind::Entered => "entered",
            MoveKind::Stopped => "stopped",
            MoveKind::Requantified => "requantified",
            MoveKind::Reshaped => "reshaped",
            MoveKind::Added => "added",
            MoveKind::Removed => "removed",
        }
    }
}

/// How an entry changed, if it did.
pub open spec fn change_of(old_entry: BaselineEntry, new_entry: BaselineEntry) -> Option<MoveKind> {
    if !old_entry.taken && new_entry.taken {
        Some(MoveKind::Entered)
    } else if old_entry.taken && !new_entry.taken {
        Some(MoveKind::Stopped)
    } else if !old_entry.net_r.same(new_entry.net_r) {
        Some(MoveKind::Requantified)
    } else if !old_entry.same_shape(new_entry) {
        Some(MoveKind::Reshaped)
    } else {
        None
    }
}

/// How an entry changed, if it did.
pub fn classify(old_entry: &BaselineEntry, new_entry: &BaselineEntry) -> (kind: Option<MoveKind>)
    ensures
        kind == change_of(*old_entry, *new_entry),
        kind is None <==> {
            &&& old_entry.taken == new_entry.taken
            &&& !old_entry.net_r.nan() && !new_entry.net_r.nan()
            &&& old_entry.net_r.units() == new_entry.net_r.units()
            &&& old_entry.tp_hits == new_entry.tp_hits
            &&& old_entry.sl_hits == new_entry.sl_hits
            &&& old_entry.reversal_closes == new_entry.reversal_closes
            &&& old_entry.expiry_closes == new_entry.expiry_closes
            &&& old_entry.invalidation_closes == new_entry.invalidation_closes
        },
        !old_entry.taken && new_entry.taken <==> kind == Some(MoveKind::Entered),
        old_entry.taken && !new_entry.taken <==> kind == Some(MoveKind::Stopped),
        kind == Some(MoveKind::Requantified) <==> old_entry.taken == new_entry.taken && (
        old_entry.net_r.nan() || new_entry.net_r.nan() || old_entry.net_r.units()
            != new_entry.net_r.units()),
        kind != Some(MoveKind::Added) && kind != Some(MoveKind::Removed),
{
    if !old_entry.taken && new_entry.taken {
        return Some(MoveKind::Entered);
    }
    if old_entry.taken && !new_entry.taken {
        return Some(MoveKind::Stopped);
    }
    if !old_entry.net_r.eq_value(new_entry.net_r) {
        return Some(MoveKind::Requantified);
    }
    let (a, b) = (old_entry.shape(), new_entry.shape());
    if a.0 != b.0 || a.1 != b.1 || a.2 != b.2 || a.3 != b.3 || a.4 != b.4 {
        Some(MoveKind::Reshaped)
    } else {
        None
    }
}

/// One fixture that changed.
#[derive(Debug, PartialEq, Eq)]
pub struct Movement {
    pub fixture: String,
    pub kind: MoveKind,
    /// The score in the baseline; zero for one that was not in it.
    pub was: Float,
    /// The score in the run; zero for one that is not in it.
    pub now: Float,
    pub cell: Option<String>,
    pub trade_id: Option<String>,
    /// The calendar alone can have moved it.
    pub calendar_sensitive: bool,
}

impl Clone for Movement {
    fn clone(&self) -> (r: Movement)
        ensures
            r == *self,
    {
        Movement {
            fixture: self.fixture.clone(),
            kind: self.kind,
            was: self.was,
            now: self.now,
            cell: copied(&self.cell),
            trade_id: copied(&self.trade_id),
            calendar_sensitive: self.calendar_sensitive,
        }
    }
}

impl Movement {
    /// The gain in R.
    pub open spec fn gain(self) -> Float {
        difference(self.now, self.was)
    }

    /// The gain in R.
    pub fn delta(&self) -> (d: Float)
        ensures
            d == self.gain(),
    {
        self.now.minus(self.was)
    }
}

/// The movement of a fixture.
pub open spec fn moved_as(
    name: String,
    kind: MoveKind,
    was: Float,
    now: Float,
    meta: BaselineEntry,
) -> Movement {
    Movement {
        fixture: name,
        kind,
        was,
        now,
        cell: meta.cell,
        trade_id: meta.trade_id,
        calendar_sensitive: meta.news_on,
    }
}

/// The movement of a fixture.
pub fn movement(
    name: &String,
    kind: MoveKind,
    was: Float,
    now: Float,
    meta: &BaselineEntry,
) -> (m: Movement)
    ensures
        m == moved_as(*name, kind, was, now, *meta),
{
    Movement {
        fixture: name.clone(),
        kind,
        was,
        now,
        cell: copied(&meta.cell),
        trade_id: copied(&meta.trade_id),
        calendar_sensitive: meta.news_on,
    }
}

/// What became of a baseline entry in a run, if it changed.
pub open spec fn change_in(base: NamedEntry, fresh: Seq<NamedEntry>) -> Option<Movement> {
    match entry_named(fresh, base.name@) {
        Some(entry) => match change_of(base.entry, entry) {
            Some(kind) => Some(
                moved_as(base.name, kind, base.entry.net_r, entry.net_r, entry),
            ),
            None => None,
        },
        None => Some(
            moved_as(
                base.name,
                MoveKind::Removed,
                base.entry.net_r,
                Float { bits: 0 },
                base.entry,
            ),
        ),
    }
}

/// The changes of the baseline's entries, in their order.
pub open spec fn changes_in(base: Seq<NamedEntry>, fresh: Seq<NamedEntry>) -> Seq<Movement>
    decreases base.len(),
{
    if base.len() == 0 {
        Seq::empty()
    } else {
        let before = changes_in(base.drop_last(), fresh);
        match change_in(base.last(), fresh) {
            Some(m) => before.push(m),
            None => before,
        }
    }
}

/// The number of baseline entries that did not change.
pub open spec fn unchanged_in(base: Seq<NamedEntry>, fresh: Seq<NamedEntry>) -> nat
    decreases base.len(),
{
    if base.len() == 0 {
        0
    } else {
        unchanged_in(base.drop_last(), fresh) + if change_in(base.last(), fresh) is None {
            1nat
        } else {
            0nat
        }
    }
}

/// The entries of the run that the baseline lacks, as movements.
pub open spec fn additions_in(base: Seq<NamedEntry>, fresh: Seq<NamedEntry>) -> Seq<Movement>
    decreases fresh.len(),
{
    if fresh.len() == 0 {
        Seq::empty()
    } else {
        let before = additions_in(base, fresh.drop_last());
        let e = fresh.last();
        if entry_named(base, e.name@) is None {
            before.push(
                moved_as(e.name, MoveKind::Added, Float { bits: 0 }, e.entry.net_r, e.entry),
            )
        } else {
            before
        }
    }
}

/// `a` is listed before `b`: structural ones first, then the larger gain or loss, then by name.
pub open spec fn ranks_before(a: Movement, b: Movement) -> bool {
    if a.kind.structural() != b.kind.structural() {
        a.kind.structural()
    } else if b.gain().magnitude().less(a.gain().magnitude()) {
        true
    } else if a.gain().magnitude().less(b.gain().magnitude()) {
        false
    } else {
        text_before(a.fixture@, b.fixture@)
    }
}

/// The gains and losses are numbers.
pub open spec fn measured(moved: Seq<Movement>) -> bool {
    forall|i: int| 0 <= i < moved.len() ==> !(#[trigger] moved[i]).gain().nan()
}

/// No movement stands after one that it is listed before.
pub open spec fn ranked(moved: Seq<Movement>) -> bool {
    forall|i: int, j: int|
        0 <= i < j < moved.len() ==> !ranks_before(#[trigger] moved[j], #[trigger] moved[i])
}

/// Neither movement is listed before the other.
pub open spec fn ties(a: Movement, b: Movement) -> bool {
    !ranks_before(a, b) && !ranks_before(b, a)
}

/// The movements that tie with one, in their order.
pub open spec fn tied_with(moved: Seq<Movement>, x: Movement) -> Seq<Movement>
    decreases moved.len(),
{
    if moved.len() == 0 {
        Seq::empty()
    } else if ties(moved.last(), x) {
        tied_with(moved.drop_last(), x).push(moved.last())
    } else {
        tied_with(moved.drop_last(), x)
    }
}

/// Movements that tie stand in the same order in both.
pub open spec fn ties_in_order(moved: Seq<Movement>, sorted: Seq<Movement>) -> bool {
    forall|x: Movement| !x.gain().nan() ==> #[trigger] tied_with(sorted, x) == tied_with(moved, x)
}

fn comes_first(a: &Movement, b: &Movement) -> (r: bool)
    ensures
        r == ranks_before(*a, *b),
{
    let (sa, sb): (bool, bool) = (a.kind.is_structural(), b.kind.is_structural());
    if sa != sb {
        return sa;
    }
    let (da, db): (Float, Float) = (a.delta().abs(), b.delta().abs());
    assert(da == a.gain().magnitude() && db == b.gain().magnitude());
    if db.lt(da) {
        return true;
    }
    if da.lt(db) {
        return false;
    }
    comes_before(a.fixture.as_str(), b.fixture.as_str())
}

proof fn ranking_is_transitive(a: Movement, b: Movement, c: Movement)
    requires
        !a.gain().nan(),
        !b.gain().nan(),
        !c.gain().nan(),
        ranks_before(a, b),
        ranks_before(b, c),
    ensures
        ranks_before(a, c),
{
    let (x, y, z) = (
        a.gain().magnitude(),
        b.gain().magnitude(),
        c.gain().magnitude(),
    );
    assert(!x.nan() && !y.nan() && !z.nan());
    if x.units() == y.units() && y.units() == z.units() && a.kind.structural()
        == b.kind.structural() && b.kind.structural() == c.kind.structural() {
        text_before_is_transitive(a.fixture@, b.fixture@, c.fixture@);
    }
}

proof fn ranking_splits(a: Movement, b: Movement, c: Movement)
    requires
        !a.gain().nan(),
        !b.gain().nan(),
        !c.gain().nan(),
        ranks_before(a, c),
    ensures
        ranks_before(a, b) || ranks_before(b, c),
{
    let (x, y, z) = (
        a.gain().magnitude(),
        b.gain().magnitude(),
        c.gain().magnitude(),
    );
    assert(!x.nan() && !y.nan() && !z.nan());
    text_before_is_total(a.fixture@, b.fixture@);
    text_before_is_total(b.fixture@, c.fixture@);
    if a.fixture@ != b.fixture@ && text_before(b.fixture@, a.fixture@) && text_before(
        a.fixture@,
        c.fixture@,
    ) {
        text_before_is_transitive(b.fixture@, a.fixture@, c.fixture@);
    }
}

/// A movement put before the first one that it ranks before stands after all that it ties with.
proof fn an_insertion_keeps_ties_in_order(s: Seq<Movement>, k: int, m: Movement, x: Movement)
    requires
        0 <= k <= s.len(),
        ranked(s),
        measured(s),
        !m.gain().nan(),
        !x.gain().nan(),
        k < s.len() ==> ranks_before(m, s[k]),
    ensures
        tied_with(s.insert(k, m), x) == tied_with(s.push(m), x),
    decreases s.len(),
{
    assert(s.push(m).drop_last() =~= s);
    if k == s.len() {
        assert(s.insert(k, m) =~= s.push(m));
    } else {
        let (front, last) = (s.drop_last(), s.last());
        assert(s.insert(k, m).drop_last() =~= front.insert(k, m));
        assert(s.insert(k, m).last() == last);
        assert(front.push(m).drop_last() =~= front);
        assert(!s[k].gain().nan() && !last.gain().nan());
        assert(!ranks_before(last, s[k])) by {
            ranking_is_strict(last);
            assert(last == s[s.len() - 1]);
        }
        ranking_splits(m, last, s[k]);
        ranking_splits(m, x, last);
        assert(forall|i: int| 0 <= i < front.len() ==> front[i] == s[i]);
        assert(ranked(front) && measured(front));
        an_insertion_keeps_ties_in_order(front, k, m, x);
        let whole = tied_with(s, x);
        let all = tied_with(front, x);
        assert(whole == if ties(last, x) {
            all.push(last)
        } else {
            all
        });
        assert(tied_with(front.push(m), x) == if ties(m, x) {
            all.push(m)
        } else {
            all
        });
        assert(tied_with(s.push(m), x) == if ties(m, x) {
            whole.push(m)
        } else {
            whole
        });
    }
}

proof fn ranking_is_strict(a: Movement)
    ensures
        !ranks_before(a, a),
{
    text_before_is_total(a.fixture@, a.fixture@);
}

/// Puts a movement where the ranking wants it.
fn insert_movement(moved: &mut Vec<Movement>, m: Movement)
    ensures
        ranked(old(moved)@) && measured(final(moved)@) ==> ranked(final(moved)@),
        final(moved)@.to_multiset() == old(moved)@.to_multiset().insert(m),
        ranked(old(moved)@) && measured(old(moved)@) && !m.gain().nan() ==> ties_in_order(
            old(moved)@.push(m),
            final(moved)@,
        ),
{
    let mut k: usize = 0;
    while k < moved.len() && !comes_first(&m, &moved[k])
        invariant
            k <= moved@.len(),
            moved@ == old(moved)@,
            forall|j: int| 0 <= j < k ==> !ranks_before(m, #[trigger] moved@[j]),
        decreases moved@.len() - k,
    {
        k = k + 1;
    }
    proof {
        let (s, t) = (moved@, moved@.insert(k as int, m));
        inserting_adds_one(s, k as int, m);
        if ranked(s) && measured(s) && !m.gain().nan() {
            assert forall|x: Movement| !x.gain().nan() implies #[trigger] tied_with(t, x)
                == tied_with(s.push(m), x) by {
                an_insertion_keeps_ties_in_order(s, k as int, m, x);
            }
        }
        if ranked(s) && measured(t) {
            assert forall|i: int| 0 <= i < s.len() implies !(#[trigger] s[i]).gain().nan() by {
                assert(s[i] == if i < k {
                    t[i]
                } else {
                    t[i + 1]
                });
            }
            assert(t[k as int] == m);
            assert forall|i: int, j: int| 0 <= i < j < t.len() implies !ranks_before(
                #[trigger] t[j],
                #[trigger] t[i],
            ) by {
                if i == k {
                    let b = s[j - 1];
                    assert(t[j] == b);
                    if ranks_before(b, m) {
                        ranking_is_transitive(b, m, s[k as int]);
                        ranking_is_strict(b);
                        assert(false);
                    }
                } else if j == k {
                    assert(t[i] == s[i]);
                } else if j < k {
                    assert(t[i] == s[i] && t[j] == s[j]);
                } else if i > k {
                    assert(t[i] == s[i - 1] && t[j] == s[j - 1]);
                } else {
                    assert(t[i] == s[i] && t[j] == s[j - 1]);
                }
            }
        }
    }
    moved.insert(k, m);
}

/// The difference of a run from a baseline.
#[derive(Debug, PartialEq, Eq)]
pub struct BaselineDiff {
    pub baseline_label: Option<String>,
    pub baseline_engine_version: Option<String>,
    pub engine_version: Option<String>,
    pub was: Float,
    pub now: Float,
    /// Fixtures scored in both and the same.
    pub unchanged: usize,
    /// Every fixture that changed, ranked.
    pub moved: Vec<Movement>,
    /// Fixtures of the run that did not score.
    pub unscored: usize,
}

/// All movements between a baseline and a run, before they are ranked.
pub open spec fn movements(base: Seq<NamedEntry>, fresh: Seq<NamedEntry>) -> Seq<Movement> {
    changes_in(base, fresh) + additions_in(base, fresh)
}

/// Ranks the movements: structural ones first, then the larger gain or loss, then by name. Those
/// that tie keep their order.
pub fn sort_movements(moved: Vec<Movement>) -> (sorted: Vec<Movement>)
    ensures
        measured(moved@) ==> ranked(sorted@) && ties_in_order(moved@, sorted@),
        sorted@.to_multiset() == moved@.to_multiset(),
{
    let mut sorted: Vec<Movement> = Vec::new();
    let mut i: usize = 0;
    proof {
        assert(moved@.take(0) =~= Seq::<Movement>::empty());
        assert(sorted@ =~= Seq::<Movement>::empty());
    }
    while i < moved.len()
        invariant
            i <= moved@.len(),
            measured(moved@) ==> ranked(sorted@) && measured(sorted@) && ties_in_order(
                moved@.take(i as int),
                sorted@,
            ),
            sorted@.to_multiset() == moved@.take(i as int).to_multiset(),
        decreases moved@.len() - i,
    {
        proof {
            let before = moved@.take(i as int);
            assert(moved@.take(i + 1) =~= before.push(moved@[i as int]));
            before.to_multiset_ensures();
        }
        let ghost prior = sorted@;
        insert_movement(&mut sorted, moved[i].clone());
        proof {
            if measured(moved@) {
                measured_insert(prior, sorted@, moved@[i as int]);
                let (before, m) = (moved@.take(i as int), moved@[i as int]);
                assert(moved@.take(i + 1) =~= before.push(m));
                assert(before.push(m).drop_last() =~= before);
                assert(prior.push(m).drop_last() =~= prior);
                assert forall|x: Movement| !x.gain().nan() implies #[trigger] tied_with(sorted@, x)
                    == tied_with(moved@.take(i + 1), x) by {
                    assert(tied_with(sorted@, x) == tied_with(prior.push(m), x));
                    assert(tied_with(prior, x) == tied_with(before, x));
                }
            }
        }
        i = i + 1;
    }
    assert(moved@.take(i as int) =~= moved@);
    sorted
}

proof fn measured_insert(before: Seq<Movement>, after: Seq<Movement>, m: Movement)
    requires
        measured(before),
        !m.gain().nan(),
        after.to_multiset() == before.to_multiset().insert(m),
    ensures
        measured(after),
{
    before.to_multiset_ensures();
    after.to_multiset_ensures();
    assert forall|i: int| 0 <= i < after.len() implies !(#[trigger] after[i]).gain().nan() by {
        let x = after[i];
        assert(after.contains(x));
        assert(after.to_multiset().count(x) > 0);
        if x != m {
            assert(before.to_multiset().count(x) > 0);
            assert(before.contains(x));
            let j = choose|j: int| 0 <= j < before.len() && before[j] == x;
            assert(!before[j].gain().nan());
        }
    }
}

/// Where an entry under a name is.
fn find_entry(entries: &Vec<NamedEntry>, name: &String) -> (at: Option<usize>)
    ensures
        match at {
            Some(k) => k < entries@.len() && entry_named(entries@, name@) == Some(
                entries@[k as int].entry,
            ),
            None => entry_named(entries@, name@) is None,
        },
{
    let mut k: usize = 0;
    assert(entries@.skip(0) =~= entries@);
    while k < entries.len()
        invariant
            k <= entries@.len(),
            entry_named(entries@, name@) == entry_named(entries@.skip(k as int), name@),
        decreases entries@.len() - k,
    {
        assert(entries@.skip(k as int)[0] == entries@[k as int]);
        assert(entries@.skip(k as int).drop_first() =~= entries@.skip(k + 1));
        if same_text(entries[k].name.as_str(), name.as_str()) {
            return Some(k);
        }
        k = k + 1;
    }
    None
}

impl BaselineDiff {
    /// The difference is that of the run from the baseline.
    pub open spec fn compares(self, baseline: Baseline, summary: BatchSummary) -> bool {
        let base = baseline.entries@;
        let fresh = scored_entries(summary.results@);
        &&& self.baseline_label == baseline.label
        &&& self.baseline_engine_version == baseline.engine_version
        &&& shared_version(summary.results@, self.engine_version)
        &&& self.was == baseline.net_r
        &&& self.now == without_minus_zero(sum_entries(fresh))
        &&& self.unchanged == unchanged_in(base, fresh)
        &&& self.moved@.to_multiset() == movements(base, fresh).to_multiset()
        &&& measured(movements(base, fresh)) ==> ranked(self.moved@)
        &&& self.unscored == summary.failed
    }
}

/// Compares a run with a baseline. Rows that did not score are counted, and show as removed.
pub fn diff(baseline: &Baseline, summary: &BatchSummary) -> (d: BaselineDiff)
    ensures
        d.compares(*baseline, *summary),
{
    let base: &Vec<NamedEntry> = &baseline.entries;
    let fresh: Vec<NamedEntry> = entries_of(&summary.results);
    let mut moved: Vec<Movement> = Vec::new();
    let mut unchanged: usize = 0;
    let mut i: usize = 0;
    assert(base@.take(0) =~= Seq::<NamedEntry>::empty());
    while i < base.len()
        invariant
            unchanged <= i <= base@.len(),
            moved@ == changes_in(base@.take(i as int), fresh@),
            unchanged == unchanged_in(base@.take(i as int), fresh@),
        decreases base@.len() - i,
    {
        assert(base@.take(i + 1).drop_last() =~= base@.take(i as int));
        let old_entry: &NamedEntry = &base[i];
        match find_entry(&fresh, &old_entry.name) {
            Some(k) => match classify(&old_entry.entry, &fresh[k].entry) {
                Some(kind) => {
                    moved.push(
                        movement(
                            &old_entry.name,
                            kind,
                            old_entry.entry.net_r,
                            fresh[k].entry.net_r,
                            &fresh[k].entry,
                        ),
                    );
                },
                None => {
                    unchanged = unchanged + 1;
                },
            },
            None => {
                moved.push(
                    movement(
                        &old_entry.name,
                        MoveKind::Removed,
                        old_entry.entry.net_r,
                        Float { bits: 0 },
                        &old_entry.entry,
                    ),
                );
            },
        }
        i = i + 1;
    }
    assert(base@.take(i as int) =~= base@);
    let mut j: usize = 0;
    assert(fresh@.take(0) =~= Seq::<NamedEntry>::empty());
    assert(changes_in(base@, fresh@) + additions_in(base@, fresh@.take(0)) =~= changes_in(
        base@,
        fresh@,
    ));
    while j < fresh.len()
        invariant
            j <= fresh@.len(),
            moved@ == changes_in(base@, fresh@) + additions_in(base@, fresh@.take(j as int)),
        decreases fresh@.len() - j,
    {
        assert(fresh@.take(j + 1).drop_last() =~= fresh@.take(j as int));
        let new_entry: &NamedEntry = &fresh[j];
        if find_entry(base, &new_entry.name).is_none() {
            moved.push(
                movement(
                    &new_entry.name,
                    MoveKind::Added,
                    Float { bits: 0 },
                    new_entry.entry.net_r,
                    &new_entry.entry,
                ),
            );
        }
        assert(moved@ =~= changes_in(base@, fresh@) + additions_in(base@, fresh@.take(j + 1)));
        j = j + 1;
    }
    assert(fresh@.take(j as int) =~= fresh@);
    BaselineDiff {
        baseline_label: copied(&baseline.label),
        baseline_engine_version: copied(&baseline.engine_version),
        engine_version: common_version(summary),
        was: baseline.net_r,
        now: total(&fresh).plus(Float { bits: 0 }),
        unchanged,
        moved: sort_movements(moved),
        unscored: summary.failed,
    }
}

/// The number of movements that gained.
pub open spec fn gainers(moved: Seq<Movement>) -> nat
    decreases moved.len(),
{
    if moved.len() == 0 {
        0
    } else {
        gainers(moved.drop_last()) + if (Float { bits: 0 }).less(moved.last().gain()) {
            1nat
        } else {
            0nat
        }
    }
}

/// The number of movements that lost.
pub open spec fn losers(moved: Seq<Movement>) -> nat
    decreases moved.len(),
{
    if moved.len() == 0 {
        0
    } else {
        losers(moved.drop_last()) + if moved.last().gain().less(Float { bits: 0 }) {
            1nat
        } else {
            0nat
        }
    }
}

/// The movements that the calendar cannot have caused, in their order.
pub open spec fn code_moves(moved: Seq<Movement>) -> Seq<Movement>
    decreases moved.len(),
{
    if moved.len() == 0 {
        Seq::empty()
    } else if moved.last().calendar_sensitive {
        code_moves(moved.drop_last())
    } else {
        code_moves(moved.drop_last()).push(moved.last())
    }
}

impl BaselineDiff {
    /// The gain in net R.
    pub open spec fn gain(self) -> Float {
        difference(self.now, self.was)
    }

    /// The gain in net R.
    pub fn delta(&self) -> (d: Float)
        ensures
            d == self.gain(),
    {
        self.now.minus(self.was)
    }

    /// How many fixtures gained.
    pub fn improved(&self) -> (n: usize)
        ensures
            n == gainers(self.moved@),
            n <= self.moved@.len(),
    {
        let mut n: usize = 0;
        let mut i: usize = 0;
        while i < self.moved.len()
            invariant
                n <= i <= self.moved@.len(),
                n == gainers(self.moved@.take(i as int)),
            decreases self.moved@.len() - i,
        {
            assert(self.moved@.take(i + 1).drop_last() =~= self.moved@.take(i as int));
            if (Float { bits: 0 }).lt(self.moved[i].delta()) {
                n = n + 1;
            }
            i = i + 1;
        }
        assert(self.moved@.take(i as int) =~= self.moved@);
        n
    }

    /// How many fixtures lost.
    pub fn worsened(&self) -> (n: usize)
        ensures
            n == losers(self.moved@),
            n <= self.moved@.len(),
    {
        let mut n: usize = 0;
        let mut i: usize = 0;
        while i < self.moved.len()
            invariant
                n <= i <= self.moved@.len(),
                n == losers(self.moved@.take(i as int)),
            decreases self.moved@.len() - i,
        {
            assert(self.moved@.take(i + 1).drop_last() =~= self.moved@.take(i as int));
            if self.moved[i].delta().lt(Float { bits: 0 }) {
                n = n + 1;
            }
            i = i + 1;
        }
        assert(self.moved@.take(i as int) =~= self.moved@);
        n
    }

    /// The movements that only the code can explain.
    pub fn reproducible(&self) -> (moves: Vec<Movement>)
        ensures
            moves@ == code_moves(self.moved@),
            moves@.len() <= self.moved@.len(),
    {
        let mut moves: Vec<Movement> = Vec::new();
        let mut i: usize = 0;
        assert(self.moved@.take(0) =~= Seq::<Movement>::empty());
        while i < self.moved.len()
            invariant
                moves@.len() <= i <= self.moved@.len(),
                moves@ == code_moves(self.moved@.take(i as int)),
            decreases self.moved@.len() - i,
        {
            assert(self.moved@.take(i + 1).drop_last() =~= self.moved@.take(i as int));
            if !self.moved[i].calendar_sensitive {
                moves.push(self.moved[i].clone());
            }
            i = i + 1;
        }
        assert(self.moved@.take(i as int) =~= self.moved@);
        moves
    }

    /// Whether nothing changed.
    pub fn is_clean(&self) -> (b: bool)
        ensures
            b == (self.moved@.len() == 0),
    {
        self.moved.len() == 0
    }
}

} // verus!
