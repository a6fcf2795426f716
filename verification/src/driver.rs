//! The decisions between a replay's outside steps: what is run, pulled, drawn and saved, and in
//! which order.
use vstd::prelude::*;
use vstd::string::*;
use crate::arm_record::{copied, rule_named, ArmRecord, EntryRule};
use crate::batch::{BatchResult, BatchSummary};
use crate::decimal::{count_text, decimal, fixed, fixed_text};
use crate::economics::ReplayEconomics;
use crate::market::BidAskCandle;
use crate::outcome::{aggregate_kind, overall_kind, FailureKind};
use crate::time::{Instant, NANOS_PER_SECOND};
use crate::window::{complaint, inverted_window_error, shown, ResolvedWindow};

verus! {

/// How many movers the printed comparison lists.
pub const DIFF_ROWS_SHOWN: usize = 20;

/// The seconds of 365 days.
pub const YEAR_SECONDS: i64 = 31_536_000;

/// What a run starts as.
#[derive(Clone, Copy, Debug, PartialEq, Eq, Structural)]
pub enum RunStart {
    /// Prints shell completions and ends.
    Completions,
    /// Replays saved fixtures.
    TestMode,
    /// Ends: no plan was given.
    MissingPlan,
    /// Replays the plan over pulled candles.
    Live,
}

/// What a run starts as. Completions come before anything else, and test mode needs no plan.
pub fn run_start(completions: bool, test_mode: bool, has_plan: bool) -> (start: RunStart)
    ensures
        start == if completions {
            RunStart::Completions
        } else if test_mode {
            RunStart::TestMode
        } else if !has_plan {
            RunStart::MissingPlan
        } else {
            RunStart::Live
        },
{
    if completions {
        RunStart::Completions
    } else if test_mode {
        RunStart::TestMode
    } else if !has_plan {
        RunStart::MissingPlan
    } else {
        RunStart::Live
    }
}

/// Whether positions are drawn and fills simulated.
#[derive(Clone, Copy, Debug, PartialEq, Eq, Structural)]
pub struct RunMode {
    pub annotate: bool,
    pub simulate: bool,
}

/// Drawing the positions that were not taken implies drawing, and drawing needs the fills.
pub fn run_mode(annotate: bool, annotate_unfilled: bool, simulate: bool) -> (mode: RunMode)
    ensures
        mode.annotate == (annotate || annotate_unfilled),
        mode.simulate == (simulate || annotate || annotate_unfilled),
{
    RunMode {
        annotate: annotate || annotate_unfilled,
        simulate: simulate || annotate || annotate_unfilled,
    }
}

/// Where the pull ends: one bar past the window, so that an expiry at its end fires, and never
/// past the last closed bar.
pub fn pull_end(end: Instant, bar_secs: i64, now: Instant) -> (t: Instant)
    requires
        end.valid(),
        now.valid(),
        0 < bar_secs,
    ensures
        ({
            let bar = bar_secs * NANOS_PER_SECOND;
            t.nanos == if end.nanos + bar < now.nanos - bar {
                end.nanos + bar
            } else {
                now.nanos - bar
            }
        }),
{
    let bar: i128 = bar_secs as i128 * NANOS_PER_SECOND;
    let wanted: i128 = end.nanos + bar;
    let closed: i128 = now.nanos - bar;
    Instant {
        nanos: if wanted < closed {
            wanted
        } else {
            closed
        },
    }
}

/// The candles wanted before the start: as many as asked for, and no fewer than the detector looks
/// back over.
pub fn warmup_depth(asked: usize, lookback: usize) -> (n: usize)
    ensures
        n == if asked > lookback {
            asked
        } else {
            lookback
        },
{
    if asked > lookback {
        asked
    } else {
        lookback
    }
}

/// When the state of a replay expires: a year after its last moment, so that nothing does while it
/// runs.
pub fn expires_at(last: Instant) -> (t: Instant)
    requires
        last.valid(),
    ensures
        t.nanos == last.nanos + YEAR_SECONDS * NANOS_PER_SECOND,
{
    Instant { nanos: last.nanos + YEAR_SECONDS as i128 * NANOS_PER_SECOND }
}

/// The last moment of frozen candles: the last candle's, or now where there is none.
pub fn frozen_end(candles: &Vec<BidAskCandle>, now: Instant) -> (t: Instant)
    ensures
        t == if candles@.len() > 0 {
            candles@.last().time
        } else {
            now
        },
{
    if candles.len() > 0 {
        candles[candles.len() - 1].time
    } else {
        now
    }
}

/// The seconds of a finer bar: those of the next finer bar size, or a minute where there is none.
pub fn finer_bar_seconds(finer: Option<i64>) -> (secs: i64)
    ensures
        secs == match finer {
            Some(s) => s,
            None => 60i64,
        },
{
    match finer {
        Some(s) => s,
        None => 60,
    }
}

/// What follows the first pass of a replay, or a fetch of finer candles.
#[derive(Clone, Copy, Debug, PartialEq, Eq, Structural)]
pub enum ZoomAction {
    /// The first pass stands.
    Keep(KeepReason),
    /// Fetch finer candles for the ambiguous windows.
    Fetch,
    /// Run again with the finer candles.
    RunAgain,
}

/// Why the first pass stands.
#[derive(Clone, Copy, Debug, PartialEq, Eq, Structural)]
pub enum KeepReason {
    /// No bar was ambiguous.
    NothingAmbiguous,
    /// The replay must stay offline.
    MayNotFetch,
    /// There are no finer candles than the plan's.
    NoFiner,
    /// None came.
    NothingFetched,
}

/// What follows the first pass, by the number of windows that finer candles are lacking for.
pub fn after_first_pass(lacking: usize, may_fetch: bool, has_finer: bool) -> (action: ZoomAction)
    ensures
        action == if lacking == 0 {
            ZoomAction::Keep(KeepReason::NothingAmbiguous)
        } else if !may_fetch {
            ZoomAction::Keep(KeepReason::MayNotFetch)
        } else if !has_finer {
            ZoomAction::Keep(KeepReason::NoFiner)
        } else {
            ZoomAction::Fetch
        },
{
    if lacking == 0 {
        ZoomAction::Keep(KeepReason::NothingAmbiguous)
    } else if !may_fetch {
        ZoomAction::Keep(KeepReason::MayNotFetch)
    } else if !has_finer {
        ZoomAction::Keep(KeepReason::NoFiner)
    } else {
        ZoomAction::Fetch
    }
}

/// What follows a fetch.
pub fn after_fetch(fetched: &Vec<BidAskCandle>) -> (action: ZoomAction)
    ensures
        action == if fetched@.len() == 0 {
            ZoomAction::Keep(KeepReason::NothingFetched)
        } else {
            ZoomAction::RunAgain
        },
{
    if fetched.len() == 0 {
        ZoomAction::Keep(KeepReason::NothingFetched)
    } else {
        ZoomAction::RunAgain
    }
}

/// The finer candles of the second pass: those that were saved, then those that were fetched. A
/// replay of pulled candles has none saved.
pub fn second_pass_bars(saved: &Vec<BidAskCandle>, fetched: &Vec<BidAskCandle>) -> (bars: Vec<
    BidAskCandle,
>)
    ensures
        bars@ == saved@ + fetched@,
{
    let mut bars: Vec<BidAskCandle> = Vec::new();
    let mut i: usize = 0;
    while i < saved.len()
        invariant
            i <= saved@.len(),
            bars@ == saved@.take(i as int),
        decreases saved@.len() - i,
    {
        bars.push(saved[i]);
        i = i + 1;
        assert(bars@ =~= saved@.take(i as int));
    }
    let mut j: usize = 0;
    assert(bars@ =~= saved@ + fetched@.take(0));
    while j < fetched.len()
        invariant
            j <= fetched@.len(),
            bars@ == saved@ + fetched@.take(j as int),
        decreases fetched@.len() - j,
    {
        bars.push(fetched[j]);
        j = j + 1;
        assert(bars@ =~= saved@ + fetched@.take(j as int));
    }
    assert(fetched@.take(j as int) =~= fetched@);
    bars
}

/// What a run of the plan does once it has its report.
#[derive(Clone, Copy, Debug, PartialEq, Eq, Structural)]
pub enum FinalStep {
    Print,
    Annotate,
    Save,
}

/// The last steps of a run, in order: the report, the drawings, the fixture.
pub fn final_steps(annotate: bool, save: bool) -> (steps: Vec<FinalStep>)
    ensures
        steps@ == seq![FinalStep::Print] + (if annotate {
            seq![FinalStep::Annotate]
        } else {
            Seq::empty()
        }) + (if save {
            seq![FinalStep::Save]
        } else {
            Seq::empty()
        }),
{
    let mut steps: Vec<FinalStep> = Vec::new();
    steps.push(FinalStep::Print);
    if annotate {
        steps.push(FinalStep::Annotate);
    }
    if save {
        steps.push(FinalStep::Save);
    }
    steps
}

/// The flags that say how a plan was armed.
#[derive(Debug, PartialEq, Eq)]
pub struct ArmFlags {
    pub entry_rule: Option<String>,
    pub skip_calendar_bars: bool,
    pub skip_golden: bool,
    pub skip_reversals: bool,
    pub start: Option<String>,
    pub chart_symbol: Option<String>,
    pub tv_arm_version: Option<String>,
    pub trade_ref: Option<String>,
}

/// How a fixture that is saved was armed: by the flags, with the source of its candles and the
/// version that produces its outcome.
pub fn arm_record(flags: &ArmFlags, source: &str, engine_version: &str) -> (arm: ArmRecord)
    ensures
        arm.entry_rule@ == rule_named(
            match flags.entry_rule {
                Some(l) => Some(l@),
                None => None,
            },
        ),
        arm.skip_calendar_bars == flags.skip_calendar_bars,
        arm.skip_golden == flags.skip_golden,
        arm.skip_reversals == flags.skip_reversals,
        arm.start == flags.start,
        arm.candle_source matches Some(s) && s@ == source@,
        arm.chart_symbol == flags.chart_symbol,
        arm.tv_arm_version == flags.tv_arm_version,
        arm.engine_version matches Some(v) && v@ == engine_version@,
        arm.journal_ref == flags.trade_ref,
{
    let label: Option<&str> = match &flags.entry_rule {
        Some(l) => Some(l.as_str()),
        None => None,
    };
    ArmRecord {
        entry_rule: EntryRule::parse(label),
        skip_calendar_bars: flags.skip_calendar_bars,
        skip_golden: flags.skip_golden,
        skip_reversals: flags.skip_reversals,
        start: copied(&flags.start),
        candle_source: Some(source.to_owned()),
        chart_symbol: copied(&flags.chart_symbol),
        tv_arm_version: copied(&flags.tv_arm_version),
        engine_version: Some(engine_version.to_owned()),
        journal_ref: copied(&flags.trade_ref),
    }
}

/// Which saved fixtures are replayed.
#[derive(Debug, PartialEq, Eq)]
pub enum TestPath {
    /// Those whose names match a pattern.
    Batch(String),
    /// The one of this name.
    Single(String),
    /// None is named.
    Missing,
}

/// Which saved fixtures are replayed: a pattern comes before a name.
pub fn test_path(pattern: Option<String>, fixture: Option<String>) -> (path: TestPath)
    ensures
        path == match (pattern, fixture) {
            (Some(p), _) => TestPath::Batch(p),
            (None, Some(f)) => TestPath::Single(f),
            (None, None) => TestPath::Missing,
        },
{
    match (pattern, fixture) {
        (Some(p), _) => TestPath::Batch(p),
        (None, Some(f)) => TestPath::Single(f),
        (None, None) => TestPath::Missing,
    }
}

/// What a batch does once all its fixtures have run.
#[derive(Clone, Copy, Debug, PartialEq, Eq, Structural)]
pub enum BatchStep {
    /// Prints the rows and their roll-up.
    Print,
    /// Compares with a baseline; beside a JSON document, on standard error.
    Compare { on_stderr: bool },
    /// Blesses the run as a baseline.
    Bless,
    /// Ends with a failure.
    Fail(FailureKind),
}

/// The comparison and the blessing that were asked for, in this order.
pub open spec fn scoring(baseline: bool, bless: bool, json: bool) -> Seq<BatchStep> {
    (if baseline {
        seq![BatchStep::Compare { on_stderr: json }]
    } else {
        Seq::empty()
    }) + (if bless {
        seq![BatchStep::Bless]
    } else {
        Seq::empty()
    })
}

/// The steps of a batch.
pub open spec fn batch_plan(
    matched: nat,
    failed: nat,
    kinds: Seq<FailureKind>,
    baseline: bool,
    bless: bool,
    json: bool,
) -> Seq<BatchStep> {
    if matched == 0 {
        seq![BatchStep::Print, BatchStep::Fail(FailureKind::BadInput)]
    } else {
        seq![BatchStep::Print] + scoring(baseline, bless, json) + (if failed > 0 {
            seq![BatchStep::Fail(overall_kind(kinds))]
        } else {
            Seq::empty()
        })
    }
}

/// The steps of scoring a run: compare, then bless, so that what moved is seen before a baseline
/// of the same name is written over.
pub fn score_against_baseline(baseline: bool, bless: bool, json: bool) -> (steps: Vec<BatchStep>)
    ensures
        steps@ == scoring(baseline, bless, json),
{
    let mut steps: Vec<BatchStep> = Vec::new();
    if baseline {
        steps.push(BatchStep::Compare { on_stderr: json });
    }
    if bless {
        steps.push(BatchStep::Bless);
    }
    assert(steps@ =~= scoring(baseline, bless, json));
    steps
}

/// The steps of a batch. The rows are always printed first. A pattern that matches nothing is bad
/// input. Scoring comes before a failure, so that a partial run still shows what moved; the
/// failure's kind is that of all rows' kinds.
pub fn run_test_mode_batch(
    summary: &BatchSummary,
    kinds: &Vec<FailureKind>,
    baseline: bool,
    bless: bool,
    json: bool,
) -> (steps: Vec<BatchStep>)
    ensures
        steps@ == batch_plan(
            summary.matched as nat,
            summary.failed as nat,
            kinds@,
            baseline,
            bless,
            json,
        ),
{
    let mut steps: Vec<BatchStep> = Vec::new();
    steps.push(BatchStep::Print);
    if summary.matched == 0 {
        steps.push(BatchStep::Fail(FailureKind::BadInput));
        assert(steps@ =~= seq![BatchStep::Print, BatchStep::Fail(FailureKind::BadInput)]);
        return steps;
    }
    let mut scores: Vec<BatchStep> = score_against_baseline(baseline, bless, json);
    steps.append(&mut scores);
    if summary.failed > 0 {
        steps.push(BatchStep::Fail(aggregate_kind(kinds)));
    }
    assert(steps@ =~= batch_plan(
        summary.matched as nat,
        summary.failed as nat,
        kinds@,
        baseline,
        bless,
        json,
    ));
    steps
}

/// What is said of a batch with failures.
pub fn failed_batch_message(summary: &BatchSummary) -> (message: String)
    ensures
        message@ == decimal(summary.failed as nat) + " of "@ + decimal(summary.matched as nat)
            + " fixture(s) failed — see the rows above (net R "@ + fixed(summary.net_r, 2, true)
            + " excludes them)"@,
{
    count_text(summary.failed as u64).concat(" of ").concat(
        count_text(summary.matched as u64).as_str(),
    ).concat(" fixture(s) failed — see the rows above (net R ").concat(
        fixed_text(summary.net_r, 2, true).as_str(),
    ).concat(" excludes them)")
}

/// What is said of a pattern that matches nothing, with the pattern and the directory in print.
pub fn empty_batch_message(pattern: &str, root: &str, summary: &BatchSummary) -> (message: String)
    ensures
        message@ == "no fixtures matched "@ + pattern@ + " under "@ + root@
            + " — check the glob and --fixtures-dir. (Nothing ran, so the "@ + fixed(
            summary.net_r,
            2,
            true,
        ) + " net R above is vacuous.)"@,
{
    "no fixtures matched ".to_owned().concat(pattern).concat(" under ").concat(root).concat(
        " — check the glob and --fixtures-dir. (Nothing ran, so the ",
    ).concat(fixed_text(summary.net_r, 2, true).as_str()).concat(" net R above is vacuous.)")
}

/// A failure with what is said of it.
#[derive(Debug, PartialEq, Eq)]
pub struct Failure {
    pub text: String,
    pub kind: FailureKind,
}

/// What ends a run over a window with nothing to replay. It is bad input: trying again cannot mend
/// it.
pub fn refuse_window(w: &ResolvedWindow) -> (failure: Option<Failure>)
    requires
        w.start.valid(),
        w.end.valid(),
    ensures
        failure is Some == w.inverted(),
        failure matches Some(f) ==> f.kind == FailureKind::BadInput && f.text@ == complaint(
            *w,
            shown(w.start),
            shown(w.end),
        ),
{
    if w.is_inverted() {
        Some(Failure { text: inverted_window_error(w), kind: FailureKind::BadInput })
    } else {
        None
    }
}

/// One fixture's replay: its row, and the kind of its failure.
#[derive(Debug, PartialEq, Eq)]
pub struct FixtureRun {
    pub row: BatchResult,
    pub kind: Option<FailureKind>,
}

impl FixtureRun {
    /// The run is that of a fixture that could not be replayed.
    pub open spec fn is_failure(self, name: Seq<char>, text: Seq<char>, kind: FailureKind) -> bool {
        &&& self.row.fixture@ == name
        &&& !self.row.ok
        &&& self.row.error matches Some(e) && e@ == text
        &&& self.row.outcome is None && self.row.arm is None && self.row.cell is None
        &&& self.row.trade_id is None && self.row.expected_net_r is None
        &&& self.kind == Some(kind)
    }

    /// A fixture that could not be replayed.
    pub fn failed(name: &str, failure: &Failure) -> (run: FixtureRun)
        ensures
            run.is_failure(name@, failure.text@, failure.kind),
    {
        FixtureRun {
            row: BatchResult::failed(name, failure.text.as_str()),
            kind: Some(failure.kind),
        }
    }

    /// A fixture that replayed and disagreed with its golden: its measurements are kept.
    pub fn mismatched(
        row: BatchResult,
        expected: Option<&ReplayEconomics>,
        text: &str,
    ) -> (run: FixtureRun)
        ensures
            run.kind == Some(FailureKind::CheckMismatch),
            !run.row.ok,
            run.row.error matches Some(e) && e@ == text@,
            run.row.expected_net_r == match expected {
                Some(e) => Some(e.net_r),
                None => None,
            },
            run.row.fixture == row.fixture && run.row.arm == row.arm && run.row.cell == row.cell,
            run.row.trade_id == row.trade_id && run.row.outcome == row.outcome,
    {
        FixtureRun {
            row: BatchResult::mismatched(row, expected, text),
            kind: Some(FailureKind::CheckMismatch),
        }
    }
}

/// What the replay of one fixture is to check and write.
#[derive(Clone, Copy, Debug, PartialEq, Eq, Structural)]
pub struct FixtureFlags {
    pub check: bool,
    pub rebless: bool,
    pub simulate: bool,
}

/// What is done next with one fixture.
pub enum FixtureStep {
    /// Read the golden and compare; the row so far.
    ReadExpected(BatchResult),
    /// Write the outcome as the golden; the row so far.
    SaveExpected(BatchResult),
    /// The fixture is done.
    Done(FixtureRun),
}

/// What came of reading a golden and comparing with it.
pub enum ExpectedRead {
    Matches,
    /// It differs: what it earned, and the two in print.
    Differs { expected: Option<ReplayEconomics>, text: String },
    Unreadable(Failure),
}

/// What is said where a golden would lose its economics.
pub open spec fn refusal(name: Seq<char>) -> Seq<char> {
    "refusing to re-bless "@ + name
        + " with --simulate false: the outcome would carry no economics (net_r / legs), silently removing the Net R gate from this fixture. Re-bless with simulation on (the default)."@
}

/// The step after the golden has been compared, or where it need not be: the fixture is done, or
/// is blessed anew, which only a simulated run may be.
pub open spec fn then_bless(
    name: Seq<char>,
    row: BatchResult,
    flags: FixtureFlags,
    step: FixtureStep,
) -> bool {
    if !flags.rebless {
        step == FixtureStep::Done(FixtureRun { row, kind: None })
    } else if flags.simulate {
        step == FixtureStep::SaveExpected(row)
    } else {
        &&& step matches FixtureStep::Done(run)
        &&& run.is_failure(name, refusal(name), FailureKind::BadInput)
    }
}

fn bless_or_finish(name: &str, row: BatchResult, flags: FixtureFlags) -> (step: FixtureStep)
    ensures
        then_bless(name@, row, flags, step),
{
    if !flags.rebless {
        FixtureStep::Done(FixtureRun { row, kind: None })
    } else if flags.simulate {
        FixtureStep::SaveExpected(row)
    } else {
        let text: String = "refusing to re-bless ".to_owned().concat(name).concat(
            " with --simulate false: the outcome would carry no economics (net_r / legs), silently removing the Net R gate from this fixture. Re-bless with simulation on (the default).",
        );
        FixtureStep::Done(
            FixtureRun::failed(name, &Failure { text, kind: FailureKind::BadInput }),
        )
    }
}

/// The step after a fixture has replayed, with the row it gave.
pub fn after_replay(name: &str, row: BatchResult, flags: FixtureFlags) -> (step: FixtureStep)
    ensures
        if flags.check {
            step == FixtureStep::ReadExpected(row)
        } else {
            then_bless(name@, row, flags, step)
        },
{
    if flags.check {
        FixtureStep::ReadExpected(row)
    } else {
        bless_or_finish(name, row, flags)
    }
}

/// The step after a golden has been read and compared. One that differs ends the fixture with its
/// measurements kept; one that cannot be read ends it without.
pub fn after_check(name: &str, row: BatchResult, flags: FixtureFlags, read: ExpectedRead) -> (step:
    FixtureStep)
    ensures
        match read {
            ExpectedRead::Matches => then_bless(name@, row, flags, step),
            ExpectedRead::Differs { expected, text } => {
                &&& step matches FixtureStep::Done(run)
                &&& run.kind == Some(FailureKind::CheckMismatch)
                &&& !run.row.ok
                &&& run.row.error matches Some(e) && e@ == text@
                &&& run.row.expected_net_r == match expected {
                    Some(e) => Some(e.net_r),
                    None => None,
                }
                &&& run.row.fixture == row.fixture && run.row.arm == row.arm && run.row.cell
                    == row.cell
                &&& run.row.trade_id == row.trade_id && run.row.outcome == row.outcome
            },
            ExpectedRead::Unreadable(failure) => step matches FixtureStep::Done(run)
                && run.is_failure(name@, failure.text@, failure.kind),
        },
{
    match read {
        ExpectedRead::Matches => bless_or_finish(name, row, flags),
        ExpectedRead::Differs { expected, text } => {
            FixtureStep::Done(FixtureRun::mismatched(row, expected.as_ref(), text.as_str()))
        },
        ExpectedRead::Unreadable(failure) => FixtureStep::Done(FixtureRun::failed(name, &failure)),
    }
}

/// A fixture whose golden was written anew is done; one whose golden could not be has failed.
pub fn after_save(name: &str, row: BatchResult, failure: Option<Failure>) -> (run: FixtureRun)
    ensures
        match failure {
            None => run == (FixtureRun { row, kind: None }),
            Some(f) => run.is_failure(name@, f.text@, f.kind),
        },
{
    match failure {
        None => FixtureRun { row, kind: None },
        Some(f) => FixtureRun::failed(name, &f),
    }
}

/// What is said where a replay does not match its golden, with both in print.
pub fn diff_error(expected: &str, got: &str) -> (message: String)
    ensures
        message@ == "fixture outcome does not match expected.json\n--- expected ---\n"@ + expected@
            + "\n--- got ---\n"@ + got@,
{
    "fixture outcome does not match expected.json\n--- expected ---\n".to_owned().concat(
        expected,
    ).concat("\n--- got ---\n").concat(got)
}

/// A batch always prints its rows first, and where both are asked for it compares before it
/// blesses and blesses before it fails.
pub proof fn a_batch_compares_before_it_blesses(
    matched: nat,
    failed: nat,
    kinds: Seq<FailureKind>,
    json: bool,
)
    requires
        matched > 0,
    ensures
        ({
            let plan = batch_plan(matched, failed, kinds, true, true, json);
            &&& plan[0] == BatchStep::Print
            &&& plan[1] == (BatchStep::Compare { on_stderr: json })
            &&& plan[2] == BatchStep::Bless
            &&& if failed > 0 {
                plan.len() == 4 && plan[3] == BatchStep::Fail(overall_kind(kinds))
            } else {
                plan.len() == 3
            }
        }),
{
}

/// Neither comparing nor blessing changes how a batch ends.
pub proof fn scoring_does_not_change_the_verdict(
    matched: nat,
    failed: nat,
    kinds: Seq<FailureKind>,
    baseline: bool,
    bless: bool,
    json: bool,
    kind: FailureKind,
)
    ensures
        batch_plan(matched, failed, kinds, baseline, bless, json).contains(BatchStep::Fail(kind))
            == batch_plan(matched, failed, kinds, false, false, json).contains(
            BatchStep::Fail(kind),
        ),
{
    let one = batch_plan(matched, failed, kinds, baseline, bless, json);
    let other = batch_plan(matched, failed, kinds, false, false, json);
    if matched > 0 {
        let s = scoring(baseline, bless, json);
        assert forall|i: int| 0 <= i < s.len() implies !(#[trigger] s[i] is Fail) by {}
        if failed > 0 {
            let f = BatchStep::Fail(overall_kind(kinds));
            assert(one[one.len() - 1] == f);
            assert(other[other.len() - 1] == f);
            assert(one =~= seq![BatchStep::Print] + s + seq![f]);
            assert(other =~= seq![BatchStep::Print, f]);
        } else {
            assert(one =~= seq![BatchStep::Print] + s);
            assert(other =~= seq![BatchStep::Print]);
        }
    }
}

/// The steps of a batch are what was asked for: it compares where there is a baseline and something
/// to compare, blesses where it is told to and there is something to bless, and fails where nothing
/// matched or something failed, and nothing else.
pub proof fn a_batch_does_what_it_is_asked(
    matched: nat,
    failed: nat,
    kinds: Seq<FailureKind>,
    baseline: bool,
    bless: bool,
    json: bool,
    step: BatchStep,
)
    ensures
        batch_plan(matched, failed, kinds, baseline, bless, json).contains(step) == match step {
            BatchStep::Print => true,
            BatchStep::Compare { on_stderr } => baseline && matched > 0 && on_stderr == json,
            BatchStep::Bless => bless && matched > 0,
            BatchStep::Fail(kind) => (matched == 0 && kind == FailureKind::BadInput) || (matched > 0
                && failed > 0 && kind == overall_kind(kinds)),
        },
{
    let plan = batch_plan(matched, failed, kinds, baseline, bless, json);
    assert(plan[0] == BatchStep::Print);
    if matched == 0 {
        assert(plan[1] == BatchStep::Fail(FailureKind::BadInput));
    } else {
        let n = plan.len() as int;
        if failed > 0 {
            assert(plan[n - 1] == BatchStep::Fail(overall_kind(kinds)));
        }
        if baseline {
            assert(plan[1] == BatchStep::Compare { on_stderr: json });
            if bless {
                assert(plan[2] == BatchStep::Bless);
            }
        } else if bless {
            assert(plan[1] == BatchStep::Bless);
        }
    }
}

/// A fixture is blessed anew only where that was asked for and the run was simulated. Without the
/// asking it is done as it is; asked for without a simulation it fails as bad input, with nothing of
/// its row left but the name and the reason.
pub proof fn blessing_needs_simulation(
    name: Seq<char>,
    row: BatchResult,
    flags: FixtureFlags,
    step: FixtureStep,
)
    requires
        then_bless(name, row, flags, step),
    ensures
        step matches FixtureStep::SaveExpected(r) ==> flags.rebless && flags.simulate && r == row,
        flags.rebless && flags.simulate ==> step is SaveExpected,
        !flags.rebless ==> step == FixtureStep::Done(FixtureRun { row, kind: None }),
        flags.rebless && !flags.simulate ==> {
            &&& step matches FixtureStep::Done(run)
            &&& run.kind == Some(FailureKind::BadInput)
            &&& !run.row.ok && run.row.fixture@ == name
            &&& run.row.error is Some && run.row.expected_net_r is None
            &&& run.row.arm is None && run.row.cell is None
            &&& run.row.trade_id is None && run.row.outcome is None
        },
        !(step is ReadExpected),
{
}

} // verus!
