//! A replay frozen to files: what is written, what is read back, and the snapshot of what it did.
//!
//! A fixture holds its plan, its candles, its scalars and its expected outcome, and the finer
//! candles that the run asked for, where it asked for any.
use vstd::prelude::*;
use vstd::string::*;
use crate::arm_record::ArmRecord;
use crate::binary64::Float;
use crate::economics::{same_economics, ReplayEconomics};
use crate::market::BidAskCandle;
use crate::outcome::FailureKind;
use crate::text::{join_path, joined_path};
use crate::time::Instant;
use crate::window::Granularity;

verus! {

/// The scalars of a fixture.
#[derive(Debug, PartialEq, Eq)]
pub struct FixtureMeta {
    /// The broker's symbol.
    pub instrument: String,
    pub granularity: Granularity,
    /// Whose candles they are.
    pub source: String,
    pub start: Instant,
    pub end: Instant,
    /// What the fixture is meant to show.
    pub message: Option<String>,
    /// How it was armed.
    pub arm: Option<ArmRecord>,
}

/// One fired rule of a replay, with its action and the candle that triggered it.
#[derive(Debug, PartialEq, Eq)]
pub struct Fire<A> {
    pub rule_id: String,
    pub action: A,
    pub candle: BidAskCandle,
    /// The blackouts that suppressed it.
    pub suppressed_by: Vec<String>,
}

/// One fired rule's decision: which rule, what action, on which candle. It says nothing of a fill
/// or of what a position earned.
#[derive(Debug, PartialEq, Eq)]
pub struct FireOutcome<A> {
    pub rule_id: String,
    pub action: A,
    /// When the triggering candle opened.
    pub candle_time: Instant,
    pub candle_close: Float,
    /// The blackouts that suppressed it.
    pub suppressed_by: Vec<String>,
}

/// A completed replay.
#[derive(Debug, PartialEq, Eq)]
pub struct Replay<A, P> {
    pub fires: Vec<Fire<A>>,
    pub done: bool,
    pub final_phase: P,
    pub warnings: Vec<String>,
}

/// The snapshot of a replay: every fire's decision, how it ended, and what it earned.
#[derive(Debug, PartialEq, Eq)]
pub struct ReplayOutcome<A, P> {
    pub fires: Vec<FireOutcome<A>>,
    pub done: bool,
    pub final_phase: P,
    pub warnings: Vec<String>,
    pub outcome: Option<ReplayEconomics>,
}

/// The record is that of the fire.
pub open spec fn records<A>(o: FireOutcome<A>, fire: Fire<A>) -> bool {
    &&& o.rule_id == fire.rule_id
    &&& o.action == fire.action
    &&& o.candle_time == fire.candle.time
    &&& o.candle_close == fire.candle.c
    &&& o.suppressed_by@ == fire.suppressed_by@
}

fn copied_texts(texts: &Vec<String>) -> (r: Vec<String>)
    ensures
        r@ == texts@,
{
    let mut r: Vec<String> = Vec::new();
    let mut i: usize = 0;
    while i < texts.len()
        invariant
            i <= texts@.len(),
            r@ == texts@.take(i as int),
        decreases texts@.len() - i,
    {
        r.push(texts[i].clone());
        i = i + 1;
        assert(r@ =~= texts@.take(i as int));
    }
    assert(texts@.take(i as int) =~= texts@);
    r
}

impl<A: Copy, P: Copy> ReplayOutcome<A, P> {
    /// The snapshot of a replay. What it earned is handed in, the same that the report prints, and
    /// recorded only for a simulated run.
    pub fn compute(
        replay: &Replay<A, P>,
        simulate: bool,
        economics: Option<&ReplayEconomics>,
    ) -> (o: ReplayOutcome<A, P>)
        ensures
            o.fires@.len() == replay.fires@.len(),
            forall|i: int|
                0 <= i < o.fires@.len() ==> records(#[trigger] o.fires@[i], replay.fires@[i]),
            forall|i: int|
                0 <= i < o.fires@.len() ==> {
                    let fire = replay.fires@[i];
                    &&& (#[trigger] o.fires@[i]).rule_id == fire.rule_id
                    &&& o.fires@[i].action == fire.action
                    &&& o.fires@[i].candle_time == fire.candle.time
                    &&& o.fires@[i].candle_close == fire.candle.c
                    &&& o.fires@[i].suppressed_by@ == fire.suppressed_by@
                },
            o.outcome is Some <==> simulate && economics is Some,
            o.outcome matches Some(kept) ==> {
                &&& kept.net_r == economics->0.net_r && kept.legs@ == economics->0.legs@
                &&& kept.tp_hits == economics->0.tp_hits && kept.sl_hits == economics->0.sl_hits
                &&& kept.reversal_closes == economics->0.reversal_closes
                &&& kept.expiry_closes == economics->0.expiry_closes
                &&& kept.invalidation_closes == economics->0.invalidation_closes
                &&& kept.open_at_end == economics->0.open_at_end
            },
            o.done == replay.done,
            o.final_phase == replay.final_phase,
            o.warnings@ == replay.warnings@,
            match economics {
                Some(e) if simulate => o.outcome matches Some(kept) && same_economics(kept, *e),
                _ => o.outcome is None,
            },
    {
        let mut fires: Vec<FireOutcome<A>> = Vec::new();
        let mut i: usize = 0;
        while i < replay.fires.len()
            invariant
                i <= replay.fires@.len(),
                fires@.len() == i,
                forall|j: int|
                    0 <= j < i ==> records(#[trigger] fires@[j], replay.fires@[j]),
            decreases replay.fires@.len() - i,
        {
            let fire: &Fire<A> = &replay.fires[i];
            fires.push(
                FireOutcome {
                    rule_id: fire.rule_id.clone(),
                    action: fire.action,
                    candle_time: fire.candle.time,
                    candle_close: fire.candle.c,
                    suppressed_by: copied_texts(&fire.suppressed_by),
                },
            );
            i = i + 1;
        }
        ReplayOutcome {
            fires,
            done: replay.done,
            final_phase: replay.final_phase,
            warnings: copied_texts(&replay.warnings),
            outcome: if simulate {
                match economics {
                    Some(e) => Some(e.clone()),
                    None => None,
                }
            } else {
                None
            },
        }
    }
}

/// A file of a fixture.
#[derive(Clone, Copy, Debug, PartialEq, Eq, Structural)]
pub enum FixtureFile {
    Plan,
    Candles,
    Meta,
    Expected,
    SubBars,
}

impl FixtureFile {
    /// The file's name in the fixture's directory.
    pub open spec fn name(self) -> Seq<char> {
        match self {
            FixtureFile::Plan => "plan.json"@,
            FixtureFile::Candles => "candles.json"@,
            FixtureFile::Meta => "meta.json"@,
            FixtureFile::Expected => "expected.json"@,
            FixtureFile::SubBars => "sub_bars.json"@,
        }
    }

    /// The file's name in the fixture's directory.
    pub fn file_name(self) -> (n: &'static str)
        ensures
            n@ == self.name(),
    {
        match self {
            FixtureFile::Plan => "plan.json",
            FixtureFile::Candles => "candles.json",
            FixtureFile::Meta => "meta.json",
            FixtureFile::Expected => "expected.json",
            FixtureFile::SubBars => "sub_bars.json",
        }
    }
}

/// One thing done to a fixture's directory.
#[derive(Clone, Copy, Debug, PartialEq, Eq, Structural)]
pub enum FileStep {
    Write(FixtureFile),
    Remove(FixtureFile),
    Read(FixtureFile),
}

/// The file is there after the steps.
pub open spec fn there_after(steps: Seq<FileStep>, file: FixtureFile, before: bool) -> bool
    decreases steps.len(),
{
    if steps.len() == 0 {
        before
    } else {
        match steps.last() {
            FileStep::Write(f) if f == file => true,
            FileStep::Remove(f) if f == file => false,
            _ => there_after(steps.drop_last(), file, before),
        }
    }
}

/// The steps of saving a fixture.
pub open spec fn saving(has_sub_bars: bool, sub_bars_there: bool) -> Seq<FileStep> {
    let four = seq![
        FileStep::Write(FixtureFile::Plan),
        FileStep::Write(FixtureFile::Candles),
        FileStep::Write(FixtureFile::Meta),
        FileStep::Write(FixtureFile::Expected),
    ];
    if has_sub_bars {
        four.push(FileStep::Write(FixtureFile::SubBars))
    } else if sub_bars_there {
        four.push(FileStep::Remove(FixtureFile::SubBars))
    } else {
        four
    }
}

/// The steps of saving a fixture: its four files, and its finer candles only where there are any.
/// Those of an earlier save are removed otherwise.
pub fn save_steps(sub_bars: &Vec<BidAskCandle>, sub_bars_there: bool) -> (steps: Vec<FileStep>)
    ensures
        steps@ == saving(sub_bars@.len() > 0, sub_bars_there),
{
    let mut steps: Vec<FileStep> = Vec::new();
    steps.push(FileStep::Write(FixtureFile::Plan));
    steps.push(FileStep::Write(FixtureFile::Candles));
    steps.push(FileStep::Write(FixtureFile::Meta));
    steps.push(FileStep::Write(FixtureFile::Expected));
    assert(steps@ =~= seq![
        FileStep::Write(FixtureFile::Plan),
        FileStep::Write(FixtureFile::Candles),
        FileStep::Write(FixtureFile::Meta),
        FileStep::Write(FixtureFile::Expected),
    ]);
    if sub_bars.len() > 0 {
        steps.push(FileStep::Write(FixtureFile::SubBars));
    } else if sub_bars_there {
        steps.push(FileStep::Remove(FixtureFile::SubBars));
    }
    steps
}

/// The steps of loading a fixture: its inputs, and its finer candles where the file is there.
pub fn load_steps(sub_bars_there: bool) -> (steps: Vec<FileStep>)
    ensures
        steps@ == {
            let three = seq![
                FileStep::Read(FixtureFile::Plan),
                FileStep::Read(FixtureFile::Candles),
                FileStep::Read(FixtureFile::Meta),
            ];
            if sub_bars_there {
                three.push(FileStep::Read(FixtureFile::SubBars))
            } else {
                three
            }
        },
{
    let mut steps: Vec<FileStep> = Vec::new();
    steps.push(FileStep::Read(FixtureFile::Plan));
    steps.push(FileStep::Read(FixtureFile::Candles));
    steps.push(FileStep::Read(FixtureFile::Meta));
    assert(steps@ =~= seq![
        FileStep::Read(FixtureFile::Plan),
        FileStep::Read(FixtureFile::Candles),
        FileStep::Read(FixtureFile::Meta),
    ]);
    if sub_bars_there {
        steps.push(FileStep::Read(FixtureFile::SubBars));
    }
    steps
}

/// A file's text: the document with a line end after it.
pub fn write_json(document: String) -> (text: String)
    ensures
        text@ == document@.push('\n'),
{
    let mut text: String = document;
    text.push('\n');
    text
}

/// At which step a file could not be read back.
#[derive(Clone, Copy, Debug, PartialEq, Eq, Structural)]
pub enum ReadFailure {
    /// The file could not be read.
    Read,
    /// Its text is no such document.
    Parse,
}

/// A file that does not parse is bad input; one that cannot be read may be read another time.
pub fn read_failure_kind(failure: ReadFailure) -> (kind: FailureKind)
    ensures
        kind == match failure {
            ReadFailure::Read => FailureKind::Infrastructure,
            ReadFailure::Parse => FailureKind::BadInput,
        },
{
    match failure {
        ReadFailure::Read => FailureKind::Infrastructure,
        ReadFailure::Parse => FailureKind::BadInput,
    }
}

/// The repository's fixtures, seen from a crate's directory.
pub fn fixtures_root(manifest_dir: &str) -> (root: String)
    ensures
        root@ == joined_path(manifest_dir@, "../replay-fixtures"@),
{
    join_path(manifest_dir, "../replay-fixtures")
}

/// After a save, the finer candles are there exactly where the run had some, whatever an earlier
/// save left, and the other four files are there.
pub proof fn a_save_leaves_what_the_run_had(has_sub_bars: bool, sub_bars_there: bool)
    ensures
        there_after(saving(has_sub_bars, sub_bars_there), FixtureFile::SubBars, sub_bars_there)
            == has_sub_bars,
        forall|file: FixtureFile, before: bool|
            !(file is SubBars) ==> #[trigger] there_after(
                saving(has_sub_bars, sub_bars_there),
                file,
                before,
            ),
{
    let steps = saving(has_sub_bars, sub_bars_there);
    let four = saving(false, false);
    if has_sub_bars || sub_bars_there {
        assert(steps.drop_last() =~= four);
    } else {
        assert(steps =~= four);
    }
    let three = four.drop_last();
    let two = three.drop_last();
    let one = two.drop_last();
    assert(four.last() == FileStep::Write(FixtureFile::Expected));
    assert(three.last() == FileStep::Write(FixtureFile::Meta));
    assert(two.last() == FileStep::Write(FixtureFile::Candles));
    assert(one.last() == FileStep::Write(FixtureFile::Plan));
    assert forall|file: FixtureFile, before: bool| !(file is SubBars) implies there_after(
        four,
        file,
        before,
    ) by {
        assert(there_after(one, FixtureFile::Plan, before));
        assert(there_after(two, FixtureFile::Candles, before));
        assert(there_after(two, FixtureFile::Plan, before));
        assert(there_after(three, FixtureFile::Meta, before));
        assert(there_after(three, FixtureFile::Candles, before));
        assert(there_after(three, FixtureFile::Plan, before));
        assert(there_after(four, FixtureFile::Expected, before));
    }
    assert forall|file: FixtureFile, before: bool| !(file is SubBars) implies #[trigger] there_after(
        steps,
        file,
        before,
    ) by {
        assert(there_after(four, file, before));
    }
    assert(one.drop_last() =~= Seq::<FileStep>::empty());
    assert(there_after(one.drop_last(), FixtureFile::SubBars, sub_bars_there) == sub_bars_there);
    assert(there_after(one, FixtureFile::SubBars, sub_bars_there) == sub_bars_there);
    assert(there_after(two, FixtureFile::SubBars, sub_bars_there) == sub_bars_there);
    assert(there_after(three, FixtureFile::SubBars, sub_bars_there) == sub_bars_there);
    assert(there_after(four, FixtureFile::SubBars, sub_bars_there) == sub_bars_there);
}

/// A save writes the four files that every fixture has, and of the finer candles it writes the file
/// where there are some, removes one that an earlier save left where there are none, and does
/// nothing more.
pub proof fn a_save_does_no_more_than_it_must(
    has_sub_bars: bool,
    sub_bars_there: bool,
    step: FileStep,
)
    ensures
        saving(has_sub_bars, sub_bars_there).contains(step) == match step {
            FileStep::Write(FixtureFile::SubBars) => has_sub_bars,
            FileStep::Write(_) => true,
            FileStep::Remove(file) => file == FixtureFile::SubBars && !has_sub_bars
                && sub_bars_there,
            FileStep::Read(_) => false,
        },
{
    let steps = saving(has_sub_bars, sub_bars_there);
    assert(steps[0] == FileStep::Write(FixtureFile::Plan));
    assert(steps[1] == FileStep::Write(FixtureFile::Candles));
    assert(steps[2] == FileStep::Write(FixtureFile::Meta));
    assert(steps[3] == FileStep::Write(FixtureFile::Expected));
    if has_sub_bars {
        assert(steps[4] == FileStep::Write(FixtureFile::SubBars));
    } else if sub_bars_there {
        assert(steps[4] == FileStep::Remove(FixtureFile::SubBars));
    }
}

} // verus!
