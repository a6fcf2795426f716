//! The window of a replay: where its ends come from, and what is said of one that makes no sense.
use vstd::prelude::*;
use vstd::string::*;
use crate::binary64::{from_integer, quotient, Float};
use crate::brisbane::{utc, utc_text};
use crate::decimal::{count_text, decimal, fixed, fixed_text};
use crate::time::{Instant, FIRST_SECOND, LAST_SECOND, NANOS_PER_SECOND};

verus! {

/// The seconds of a day, as a binary64 pattern.
pub const DAY_BITS: u64 = 0x40f5_1800_0000_0000;

/// The seconds of an hour, as a binary64 pattern.
pub const HOUR_BITS: u64 = 0x40ac_2000_0000_0000;

/// Which of its two ends the chart gave.
#[derive(Clone, Copy, Debug, PartialEq, Eq, Structural)]
pub enum WindowEnd {
    Start,
    End,
}

/// Where one end of the window came from.
#[derive(Clone, Copy, Debug, PartialEq, Eq, Structural)]
pub enum WindowSource {
    /// A flag on the command line.
    Flag(WindowEnd),
    /// The start that the plan carries.
    PlanReplayStart,
    /// The plan's trade-expiry rule.
    PlanTradeExpiry,
    /// The chart: its replay cursor, or the end of what it shows.
    Chart(WindowEnd),
}

impl WindowSource {
    /// Where the end came from and how to override it.
    pub open spec fn description(self) -> Seq<char> {
        match self {
            WindowSource::Flag(WindowEnd::Start) => "the --start flag"@,
            WindowSource::Flag(WindowEnd::End) => "the --end flag"@,
            WindowSource::PlanReplayStart =>
                "the plan's baked replay_start (from `tv-arm --start`); override with --start"@,
            WindowSource::PlanTradeExpiry =>
                "the plan's 02-veto-trade-expiry rule (the expiry drawn on the chart); override with --end"@,
            WindowSource::Chart(WindowEnd::Start) =>
                "the TradingView chart's start; override with --start"@,
            WindowSource::Chart(WindowEnd::End) =>
                "the TradingView chart's end; override with --end"@,
        }
    }

    /// Where the end came from and how to override it.
    pub fn describe(self) -> (text: &'static str)
        ensures
            text@ == self.description(),
    {
        match self {
            WindowSource::Flag(WindowEnd::Start) => "the --start flag",
            WindowSource::Flag(WindowEnd::End) => "the --end flag",
            WindowSource::PlanReplayStart =>
                "the plan's baked replay_start (from `tv-arm --start`); override with --start",
            WindowSource::PlanTradeExpiry =>
                "the plan's 02-veto-trade-expiry rule (the expiry drawn on the chart); override with --end",
            WindowSource::Chart(WindowEnd::Start) =>
                "the TradingView chart's start; override with --start",
            WindowSource::Chart(WindowEnd::End) =>
                "the TradingView chart's end; override with --end",
        }
    }
}

/// A resolved window: the instrument, where one was named, and both ends with their sources.
#[derive(Debug, PartialEq, Eq)]
pub struct ResolvedWindow {
    pub instrument: Option<String>,
    pub start: Instant,
    pub end: Instant,
    pub start_source: WindowSource,
    pub end_source: WindowSource,
}

/// What the chart offers.
#[derive(Debug, PartialEq, Eq)]
pub struct TvDefaults {
    pub instrument: String,
    pub start: Instant,
    pub fallback_end: Instant,
}

/// A flag for one end: absent, read, or why it cannot be read.
pub type EndFlag = Option<Result<Instant, String>>;

/// Why there is no window: a flag cannot be read.
#[derive(Debug, PartialEq, Eq)]
pub enum WindowError {
    Start(String),
    End(String),
}

/// The instant at a second that a calendar date names.
pub open spec fn calendar_instant(at: Option<i64>) -> Option<Instant> {
    match at {
        Some(secs) if FIRST_SECOND <= secs <= LAST_SECOND => Some(
            Instant { nanos: (secs * NANOS_PER_SECOND) as i128 },
        ),
        _ => None,
    }
}

/// The instant at a second that a calendar date names; none for any other.
pub fn at_second(at: Option<i64>) -> (t: Option<Instant>)
    ensures
        t == calendar_instant(at),
{
    match at {
        Some(secs) => if FIRST_SECOND <= secs && secs <= LAST_SECOND {
            Some(Instant::from_seconds(secs))
        } else {
            None
        },
        None => None,
    }
}

/// The chart must be asked: for a start, an instrument or an end that nothing else gives.
pub open spec fn chart_needed(
    start_flag: bool,
    end_flag: bool,
    instrument_flag: bool,
    plan_start: Option<i64>,
    plan_expiry: Option<i64>,
) -> bool {
    ||| !start_flag && calendar_instant(plan_start) is None
    ||| !instrument_flag
    ||| !end_flag && calendar_instant(plan_expiry) is None
}

/// Whether the chart must be asked. A window that flags and plan give needs no chart.
pub fn needs_chart(
    start_flag: bool,
    end_flag: bool,
    instrument_flag: bool,
    plan_start: Option<i64>,
    plan_expiry: Option<i64>,
) -> (b: bool)
    ensures
        b == chart_needed(start_flag, end_flag, instrument_flag, plan_start, plan_expiry),
{
    (!start_flag && at_second(plan_start).is_none()) || !instrument_flag || (!end_flag && at_second(
        plan_expiry,
    ).is_none())
}

/// The window of flags, plan and chart, or the flag that cannot be read.
pub open spec fn window_of(
    start_flag: EndFlag,
    end_flag: EndFlag,
    instrument_flag: Option<String>,
    plan_start: Option<i64>,
    plan_expiry: Option<i64>,
    chart: Option<TvDefaults>,
) -> Result<ResolvedWindow, WindowError> {
    match (start_flag, end_flag) {
        (Some(Err(reason)), _) => Err(WindowError::Start(reason)),
        (_, Some(Err(reason))) => Err(WindowError::End(reason)),
        _ => {
            let (start, start_source) = match (start_flag, calendar_instant(plan_start)) {
                (Some(flag), _) => (flag->Ok_0, WindowSource::Flag(WindowEnd::Start)),
                (None, Some(at)) => (at, WindowSource::PlanReplayStart),
                (None, None) => (chart->0.start, WindowSource::Chart(WindowEnd::Start)),
            };
            let (end, end_source) = match (end_flag, calendar_instant(plan_expiry)) {
                (Some(flag), _) => (flag->Ok_0, WindowSource::Flag(WindowEnd::End)),
                (None, Some(at)) => (at, WindowSource::PlanTradeExpiry),
                (None, None) => (chart->0.fallback_end, WindowSource::Chart(WindowEnd::End)),
            };
            let instrument = match (instrument_flag, chart) {
                (Some(name), _) => Some(name),
                (None, Some(d)) => Some(d.instrument),
                (None, None) => None,
            };
            Ok(ResolvedWindow { instrument, start, end, start_source, end_source })
        },
    }
}

/// Resolves the window. The start comes from its flag, else from the plan, else from the chart;
/// the end from its flag, else from the plan's trade expiry, else from the chart; the instrument
/// from its flag, else from the chart. A start flag that cannot be read is reported first.
pub fn resolve_window(
    start_flag: EndFlag,
    end_flag: EndFlag,
    instrument_flag: Option<String>,
    plan_start: Option<i64>,
    plan_expiry: Option<i64>,
    chart: &Option<TvDefaults>,
) -> (window: Result<ResolvedWindow, WindowError>)
    requires
        chart_needed(
            start_flag is Some,
            end_flag is Some,
            instrument_flag is Some,
            plan_start,
            plan_expiry,
        ) ==> chart is Some,
    ensures
        window == window_of(
            start_flag,
            end_flag,
            instrument_flag,
            plan_start,
            plan_expiry,
            *chart,
        ),
{
    let instrument: Option<String> = match instrument_flag {
        Some(name) => Some(name),
        None => match chart {
            Some(d) => Some(d.instrument.clone()),
            None => None,
        },
    };
    let (start, start_source): (Instant, WindowSource) = match start_flag {
        Some(Ok(at)) => (at, WindowSource::Flag(WindowEnd::Start)),
        Some(Err(reason)) => {
            return Err(WindowError::Start(reason));
        },
        None => match at_second(plan_start) {
            Some(at) => (at, WindowSource::PlanReplayStart),
            None => match chart {
                Some(d) => (d.start, WindowSource::Chart(WindowEnd::Start)),
                None => {
                    assert(false);
                    (Instant { nanos: 0 }, WindowSource::Chart(WindowEnd::Start))
                },
            },
        },
    };
    let (end, end_source): (Instant, WindowSource) = match end_flag {
        Some(Ok(at)) => (at, WindowSource::Flag(WindowEnd::End)),
        Some(Err(reason)) => {
            return Err(WindowError::End(reason));
        },
        None => match at_second(plan_expiry) {
            Some(at) => (at, WindowSource::PlanTradeExpiry),
            None => match chart {
                Some(d) => (d.fallback_end, WindowSource::Chart(WindowEnd::End)),
                None => {
                    assert(false);
                    (Instant { nanos: 0 }, WindowSource::Chart(WindowEnd::End))
                },
            },
        },
    };
    Ok(ResolvedWindow { instrument, start, end, start_source, end_source })
}

impl ResolvedWindow {
    /// The window ends where it starts or before.
    pub open spec fn inverted(self) -> bool {
        self.end.nanos <= self.start.nanos
    }

    /// Whether there is nothing to replay in the window.
    pub fn is_inverted(&self) -> (b: bool)
        ensures
            b == self.inverted(),
    {
        self.end.nanos <= self.start.nanos
    }

    /// The instrument to replay: the window's, else the plan's.
    pub fn instrument_or(&self, plan_instrument: &str) -> (name: String)
        ensures
            name@ == match self.instrument {
                Some(i) => i@,
                None => plan_instrument@,
            },
    {
        match &self.instrument {
            Some(i) => i.clone(),
            None => plan_instrument.to_owned(),
        }
    }
}

/// The whole seconds that a window runs backwards.
pub open spec fn seconds_back(w: ResolvedWindow) -> int {
    if w.start.nanos > w.end.nanos {
        (w.start.nanos - w.end.nanos) / NANOS_PER_SECOND as int
    } else {
        0
    }
}

/// How far a window runs backwards, in the largest unit that it fills.
pub open spec fn gap_text(secs: int) -> Seq<char> {
    if secs >= 86_400 {
        fixed(quotient(from_integer(secs), Float { bits: DAY_BITS }), 1, false) + " days"@
    } else if secs >= 3_600 {
        fixed(quotient(from_integer(secs), Float { bits: HOUR_BITS }), 1, false) + " hours"@
    } else if secs >= 60 {
        decimal((secs / 60) as nat) + " minutes"@
    } else {
        decimal(secs as nat) + " seconds"@
    }
}

/// How far a window runs backwards, in print.
pub fn start_end_gap(w: &ResolvedWindow) -> (text: String)
    requires
        w.start.valid(),
        w.end.valid(),
    ensures
        text@ == gap_text(seconds_back(*w)),
{
    let secs: i64 = if w.start.nanos > w.end.nanos {
        ((w.start.nanos - w.end.nanos) / NANOS_PER_SECOND) as i64
    } else {
        0
    };
    if secs >= 86_400 {
        let days: Float = Float::from_i64(secs).over(Float { bits: DAY_BITS });
        fixed_text(days, 1, false).concat(" days")
    } else if secs >= 3_600 {
        let hours: Float = Float::from_i64(secs).over(Float { bits: HOUR_BITS });
        fixed_text(hours, 1, false).concat(" hours")
    } else if secs >= 60 {
        count_text((secs / 60) as u64).concat(" minutes")
    } else {
        count_text(secs as u64).concat(" seconds")
    }
}

/// What is said of a window that makes no sense, with both ends in print: that it is empty or runs
/// backwards, where each end came from, and what to do. The common case, a chart whose expiry lies
/// behind its start, gets its own advice.
pub open spec fn complaint(w: ResolvedWindow, start: Seq<char>, end: Seq<char>) -> Seq<char> {
    (if w.end.nanos == w.start.nanos {
        "the replay window is empty: start and end are the same instant ("@ + start + ")"@
    } else {
        "the replay window runs backwards: it ends "@ + gap_text(seconds_back(w))
            + " before it starts (start "@ + start + ", end "@ + end + ")"@
    }) + "\n  start = "@ + start + " — from "@ + w.start_source.description() + "\n  end   = "@ + end
        + " — from "@ + w.end_source.description() + (if w.start_source == WindowSource::Chart(
        WindowEnd::Start,
    ) && w.end_source == WindowSource::PlanTradeExpiry {
        "\n  The trade-expiry drawn on the chart is BEHIND the replay start anchor, so there is nothing to replay. Move the expiry past the start anchor and re-arm, or pass an explicit --end. (`tv-arm --plan-out` only warns about a past expiry, so the plan still armed — this is the replay refusing the resulting window.)"@
    } else {
        "\n  Move whichever end is wrong, or override it with the flag named above."@
    })
}

/// What is said of a window that makes no sense, with both ends in print.
pub fn complain(w: &ResolvedWindow, start: &str, end: &str) -> (message: String)
    requires
        w.start.valid(),
        w.end.valid(),
    ensures
        message@ == complaint(*w, start@, end@),
{
    let headline: String = if w.end.nanos == w.start.nanos {
        "the replay window is empty: start and end are the same instant (".to_owned().concat(
            start,
        ).concat(")")
    } else {
        "the replay window runs backwards: it ends ".to_owned().concat(
            start_end_gap(w).as_str(),
        ).concat(" before it starts (start ").concat(start).concat(", end ").concat(end).concat(
            ")",
        )
    };
    let behind: bool = w.start_source == WindowSource::Chart(WindowEnd::Start) && w.end_source
        == WindowSource::PlanTradeExpiry;
    let hint: &'static str = if behind {
        "\n  The trade-expiry drawn on the chart is BEHIND the replay start anchor, so there is nothing to replay. Move the expiry past the start anchor and re-arm, or pass an explicit --end. (`tv-arm --plan-out` only warns about a past expiry, so the plan still armed — this is the replay refusing the resulting window.)"
    } else {
        "\n  Move whichever end is wrong, or override it with the flag named above."
    };
    headline.concat("\n  start = ").concat(start).concat(" — from ").concat(
        w.start_source.describe(),
    ).concat("\n  end   = ").concat(end).concat(" — from ").concat(w.end_source.describe()).concat(
        hint,
    )
}

/// An instant in print.
pub open spec fn shown(t: Instant) -> Seq<char> {
    utc_text(t.seconds(), t.nanos as int % NANOS_PER_SECOND as int)
}

/// What is said of a window that makes no sense.
pub fn inverted_window_error(w: &ResolvedWindow) -> (message: String)
    requires
        w.start.valid(),
        w.end.valid(),
    ensures
        message@ == complaint(*w, shown(w.start), shown(w.end)),
{
    let start: String = utc(w.start);
    let end: String = utc(w.end);
    complain(w, start.as_str(), end.as_str())
}

/// One rule of a plan, as far as the expiry reads it.
#[derive(Clone, Copy, Debug, PartialEq, Eq)]
pub struct RuleExpiry {
    /// The rule's name is that of the trade-expiry veto.
    pub is_trade_expiry: bool,
    /// The second at which it triggers, where it triggers by time.
    pub time_reached: Option<i64>,
}

/// The expiry of the first rule from `i` on that is one and triggers by time.
pub open spec fn expiry_from(rules: Seq<RuleExpiry>, i: int) -> Option<i64>
    decreases rules.len() - i,
{
    if i >= rules.len() {
        None
    } else if rules[i].is_trade_expiry && rules[i].time_reached is Some {
        rules[i].time_reached
    } else {
        expiry_from(rules, i + 1)
    }
}

/// The second at which the plan's trade expires, if it does.
pub fn trade_expiry_epoch(rules: &Vec<RuleExpiry>) -> (at: Option<i64>)
    ensures
        at == expiry_from(rules@, 0),
{
    let mut i: usize = 0;
    while i < rules.len()
        invariant
            i <= rules@.len(),
            expiry_from(rules@, 0) == expiry_from(rules@, i as int),
        decreases rules@.len() - i,
    {
        if rules[i].is_trade_expiry && rules[i].time_reached.is_some() {
            return rules[i].time_reached;
        }
        i = i + 1;
    }
    None
}

/// A bar size: its seconds and its label.
#[derive(Debug, PartialEq, Eq)]
pub struct Granularity {
    pub seconds: i64,
    pub label: String,
}

/// Why a bar size is refused.
#[derive(Debug, PartialEq, Eq)]
pub enum GranularityError {
    /// It cannot be read.
    Unreadable(String),
    /// It is not the plan's; what is said of it.
    Mismatch(String),
}

/// What is said of a bar size that is not the plan's.
pub open spec fn mismatch_text(raw: Seq<char>, plan_label: Seq<char>) -> Seq<char> {
    "granularity "@ + raw + " does not match the plan's granularity "@ + plan_label
        + " — drop --granularity to use the plan's, or pass --granularity "@ + plan_label
}

/// The bar size of a replay: the plan's, by what its label reads as. One that is asked for must be
/// the plan's own.
pub fn resolve_granularity(
    asked: Option<(&str, Result<i64, String>)>,
    plan: &Granularity,
    plan_reading: Result<i64, String>,
) -> (seconds: Result<i64, GranularityError>)
    ensures
        match asked {
            None => seconds == match plan_reading {
                Ok(s) => Ok::<i64, GranularityError>(s),
                Err(reason) => Err(GranularityError::Unreadable(reason)),
            },
            Some((raw, Err(reason))) => seconds == Err::<i64, GranularityError>(
                GranularityError::Unreadable(reason),
            ),
            Some((raw, Ok(s))) => if s == plan.seconds {
                seconds == Ok::<i64, GranularityError>(s)
            } else {
                seconds matches Err(GranularityError::Mismatch(message)) && message@
                    == mismatch_text(raw@, plan.label@)
            },
        },
{
    match asked {
        None => match plan_reading {
            Ok(s) => Ok(s),
            Err(reason) => Err(GranularityError::Unreadable(reason)),
        },
        Some((_, Err(reason))) => Err(GranularityError::Unreadable(reason)),
        Some((raw, Ok(s))) => if s == plan.seconds {
            Ok(s)
        } else {
            Err(
                GranularityError::Mismatch(
                    "granularity ".to_owned().concat(raw).concat(
                        " does not match the plan's granularity ",
                    ).concat(plan.label.as_str()).concat(
                        " — drop --granularity to use the plan's, or pass --granularity ",
                    ).concat(plan.label.as_str()),
                ),
            )
        },
    }
}

/// A window whose ends and instrument the flags and the plan give needs no chart.
pub proof fn a_flagged_window_needs_no_chart(plan_start: Option<i64>, plan_expiry: Option<i64>)
    ensures
        !chart_needed(true, true, true, plan_start, plan_expiry),
        calendar_instant(plan_start) is Some && calendar_instant(plan_expiry) is Some
            ==> !chart_needed(false, false, true, plan_start, plan_expiry),
{
}

/// A window that needs no chart takes nothing from one: it is the same with any chart and with
/// none.
pub proof fn an_unneeded_chart_changes_nothing(
    start_flag: EndFlag,
    end_flag: EndFlag,
    instrument_flag: Option<String>,
    plan_start: Option<i64>,
    plan_expiry: Option<i64>,
    chart: Option<TvDefaults>,
)
    requires
        !chart_needed(
            start_flag is Some,
            end_flag is Some,
            instrument_flag is Some,
            plan_start,
            plan_expiry,
        ),
    ensures
        window_of(start_flag, end_flag, instrument_flag, plan_start, plan_expiry, chart)
            == window_of(start_flag, end_flag, instrument_flag, plan_start, plan_expiry, None),
{
}

/// The flags come before the plan, and the plan before the chart, at either end.
pub proof fn flags_come_before_the_plan_and_the_chart(
    start: Instant,
    end: Instant,
    name: String,
    plan_start: Option<i64>,
    plan_expiry: Option<i64>,
    chart: Option<TvDefaults>,
)
    ensures
        window_of(Some(Ok(start)), Some(Ok(end)), Some(name), plan_start, plan_expiry, chart) == Ok::<
            ResolvedWindow,
            WindowError,
        >(
            (ResolvedWindow {
                instrument: Some(name),
                start,
                end,
                start_source: WindowSource::Flag(WindowEnd::Start),
                end_source: WindowSource::Flag(WindowEnd::End),
            }),
        ),
        calendar_instant(plan_start) is Some && calendar_instant(plan_expiry) is Some ==> window_of(
            None,
            None,
            Some(name),
            plan_start,
            plan_expiry,
            chart,
        ) == Ok::<ResolvedWindow, WindowError>(
            (ResolvedWindow {
                instrument: Some(name),
                start: calendar_instant(plan_start)->0,
                end: calendar_instant(plan_expiry)->0,
                start_source: WindowSource::PlanReplayStart,
                end_source: WindowSource::PlanTradeExpiry,
            }),
        ),
{
}

/// The start of a window has its own precedence, whatever gives the end and the instrument: its
/// flag; else the plan's start, where a calendar date names that second; else the chart's.
pub proof fn the_start_is_by_flag_then_plan_then_chart(
    start_flag: EndFlag,
    end_flag: EndFlag,
    instrument_flag: Option<String>,
    plan_start: Option<i64>,
    plan_expiry: Option<i64>,
    chart: Option<TvDefaults>,
)
    requires
        !(end_flag matches Some(Err(_))),
    ensures
        match window_of(
            start_flag,
            end_flag,
            instrument_flag,
            plan_start,
            plan_expiry,
            chart,
        ) {
            Err(e) => start_flag is Some && start_flag->0 is Err && e == WindowError::Start(
                start_flag->0->Err_0,
            ),
            Ok(w) => {
                &&& start_flag is Some ==> {
                    &&& start_flag->0 == Ok::<Instant, String>(w.start)
                    &&& w.start_source == WindowSource::Flag(WindowEnd::Start)
                }
                &&& start_flag is None && plan_start is Some && -8_334_601_228_800 <= plan_start->0
                    <= 8_210_266_876_799 ==> {
                    &&& w.start.nanos == plan_start->0 * 1_000_000_000
                    &&& w.start_source == WindowSource::PlanReplayStart
                }
                &&& start_flag is None && (plan_start is None || plan_start->0 < -8_334_601_228_800
                    || plan_start->0 > 8_210_266_876_799) ==> {
                    &&& w.start == chart->0.start
                    &&& w.start_source == WindowSource::Chart(WindowEnd::Start)
                }
            },
        },
{
}

/// The end of a window has its own precedence, whatever gives the start and the instrument: its
/// flag; else the plan's trade expiry, where a calendar date names that second; else the chart's.
pub proof fn the_end_is_by_flag_then_plan_then_chart(
    start_flag: EndFlag,
    end_flag: EndFlag,
    instrument_flag: Option<String>,
    plan_start: Option<i64>,
    plan_expiry: Option<i64>,
    chart: Option<TvDefaults>,
)
    requires
        !(start_flag matches Some(Err(_))),
    ensures
        match window_of(
            start_flag,
            end_flag,
            instrument_flag,
            plan_start,
            plan_expiry,
            chart,
        ) {
            Err(e) => end_flag is Some && end_flag->0 is Err && e == WindowError::End(
                end_flag->0->Err_0,
            ),
            Ok(w) => {
                &&& end_flag is Some ==> {
                    &&& end_flag->0 == Ok::<Instant, String>(w.end)
                    &&& w.end_source == WindowSource::Flag(WindowEnd::End)
                }
                &&& end_flag is None && plan_expiry is Some && -8_334_601_228_800 <= plan_expiry->0
                    <= 8_210_266_876_799 ==> {
                    &&& w.end.nanos == plan_expiry->0 * 1_000_000_000
                    &&& w.end_source == WindowSource::PlanTradeExpiry
                }
                &&& end_flag is None && (plan_expiry is None || plan_expiry->0
                    < -8_334_601_228_800 || plan_expiry->0 > 8_210_266_876_799) ==> {
                    &&& w.end == chart->0.fallback_end
                    &&& w.end_source == WindowSource::Chart(WindowEnd::End)
                }
            },
        },
{
}

/// The instrument of a window is the flag's, else the chart's, whatever gives its ends; a start flag
/// that cannot be read is reported before an end flag.
pub proof fn the_instrument_is_by_flag_then_chart(
    start_flag: EndFlag,
    end_flag: EndFlag,
    instrument_flag: Option<String>,
    plan_start: Option<i64>,
    plan_expiry: Option<i64>,
    chart: Option<TvDefaults>,
)
    ensures
        ({
            let w = window_of(
                start_flag,
                end_flag,
                instrument_flag,
                plan_start,
                plan_expiry,
                chart,
            );
            &&& w is Ok <==> !(start_flag matches Some(Err(_))) && !(end_flag matches Some(Err(_)))
            &&& w matches Err(WindowError::End(_)) ==> !(start_flag matches Some(Err(_)))
            &&& w is Ok && instrument_flag is Some ==> w->Ok_0.instrument == instrument_flag
            &&& w is Ok && instrument_flag is None && chart is Some ==> w->Ok_0.instrument == Some(
                chart->0.instrument,
            )
            &&& w is Ok && instrument_flag is None && chart is None ==> w->Ok_0.instrument is None
        }),
{
}

/// A chart is needed exactly where some part of the window is left to it: a start with neither a
/// flag nor a plan's date, an end with neither, or an instrument without a flag.
pub proof fn a_chart_is_needed_for_what_nothing_else_gives(
    start_flag: bool,
    end_flag: bool,
    instrument_flag: bool,
    plan_start: Option<i64>,
    plan_expiry: Option<i64>,
)
    ensures
        ({
            let dated = |at: Option<i64>|
                at is Some && -8_334_601_228_800 <= at->0 && at->0 <= 8_210_266_876_799;
            !chart_needed(start_flag, end_flag, instrument_flag, plan_start, plan_expiry) <==> {
                &&& start_flag || dated(plan_start)
                &&& end_flag || dated(plan_expiry)
                &&& instrument_flag
            }
        }),
{
}

/// The trade expires at the time of the first rule that is its expiry and triggers by time; it has
/// no expiry only where there is no such rule.
pub proof fn the_first_expiry_rule_with_a_time_counts(rules: Seq<RuleExpiry>, i: int)
    requires
        0 <= i,
    ensures
        match expiry_from(rules, i) {
            Some(at) => exists|k: int|
                {
                    &&& i <= k < rules.len()
                    &&& (#[trigger] rules[k]).is_trade_expiry
                    &&& rules[k].time_reached == Some(at)
                    &&& forall|j: int|
                        i <= j < k ==> !(#[trigger] rules[j]).is_trade_expiry
                            || rules[j].time_reached is None
                },
            None => forall|k: int|
                i <= k < rules.len() ==> !(#[trigger] rules[k]).is_trade_expiry
                    || rules[k].time_reached is None,
        },
    decreases rules.len() - i,
{
    if i < rules.len() {
        if rules[i].is_trade_expiry && rules[i].time_reached is Some {
            assert(rules[i].time_reached == rules[i].time_reached);
        } else {
            the_first_expiry_rule_with_a_time_counts(rules, i + 1);
        }
    }
}

/// A window is refused exactly where it does not end after it starts, and a gap is told in whole
/// seconds below a minute, in whole minutes below an hour, in hours below a day, else in days.
pub proof fn a_gap_is_told_in_its_largest_unit(w: ResolvedWindow)
    ensures
        w.inverted() == !(w.start.nanos < w.end.nanos),
        ({
            let secs = (w.start.nanos - w.end.nanos) / 1_000_000_000;
            let text = gap_text(seconds_back(w));
            &&& w.start.nanos <= w.end.nanos ==> text == decimal(0) + " seconds"@
            &&& w.start.nanos > w.end.nanos ==> {
                &&& secs < 60 ==> text == decimal(secs as nat) + " seconds"@
                &&& 60 <= secs < 3_600 ==> text == decimal((secs / 60) as nat) + " minutes"@
                &&& 3_600 <= secs < 86_400 ==> text == fixed(
                    quotient(from_integer(secs), Float { bits: 0x40ac_2000_0000_0000 }),
                    1,
                    false,
                ) + " hours"@
                &&& 86_400 <= secs ==> text == fixed(
                    quotient(from_integer(secs), Float { bits: 0x40f5_1800_0000_0000 }),
                    1,
                    false,
                ) + " days"@
            }
        }),
{
}

/// A complaint says that a window is empty where its ends are the same instant and that it runs
/// backwards where they are not; the advice on the chart's expiry is given where the chart gave the
/// start and the expiry the end, and only there.
pub proof fn a_complaint_fits_its_window(w: ResolvedWindow, start: Seq<char>, end: Seq<char>)
    ensures
        w.end.nanos == w.start.nanos ==> "the replay window is empty: "@.is_prefix_of(
            complaint(w, start, end),
        ),
        w.end.nanos != w.start.nanos ==> "the replay window runs backwards: it ends "@.is_prefix_of(
            complaint(w, start, end),
        ),
        ({
            let behind = w.start_source == WindowSource::Chart(WindowEnd::Start) && w.end_source
                == WindowSource::PlanTradeExpiry;
            let advice = "\n  Move whichever end is wrong, or override it with the flag named above."@;
            let c = complaint(w, start, end);
            !behind ==> c.len() >= advice.len() && c.skip(c.len() - advice.len()) == advice
        }),
{
    let c = complaint(w, start, end);
    let empty = "the replay window is empty: start and end are the same instant ("@;
    let back = "the replay window runs backwards: it ends "@;
    reveal_strlit("the replay window is empty: start and end are the same instant (");
    reveal_strlit("the replay window is empty: ");
    let advice = "\n  Move whichever end is wrong, or override it with the flag named above."@;
    if w.end.nanos == w.start.nanos {
        let short = "the replay window is empty: "@;
        assert(c.take(empty.len() as int) =~= empty);
        assert(short =~= empty.take(short.len() as int));
        assert(short =~= c.subrange(0, short.len() as int)) by {
            assert(forall|i: int| 0 <= i < short.len() ==> c[i] == empty[i]);
        }
    } else {
        assert(back =~= c.subrange(0, back.len() as int));
    }
    if !(w.start_source == WindowSource::Chart(WindowEnd::Start) && w.end_source
        == WindowSource::PlanTradeExpiry) {
        assert(c.skip(c.len() - advice.len()) =~= advice);
    }
}

} // verus!
