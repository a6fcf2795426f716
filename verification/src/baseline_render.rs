//! The report of a comparison with a baseline.
use vstd::prelude::*;
use vstd::string::*;
use crate::baseline::{code_moves, gainers, losers, BaselineDiff, Movement};
use crate::decimal::{count_text, decimal, fixed, fixed_text};

verus! {

/// `n` spaces.
pub open spec fn spaces(n: nat) -> Seq<char> {
    Seq::new(n, |i: int| ' ')
}

/// The text, filled up with spaces on the right.
pub open spec fn padded(text: Seq<char>, width: nat) -> Seq<char> {
    text + spaces(
        if text.len() < width {
            (width - text.len()) as nat
        } else {
            0
        },
    )
}

/// The text, filled up with spaces on the right.
pub fn pad_right(text: &str, width: usize) -> (s: String)
    ensures
        s@ == padded(text@, width as nat),
{
    let len: usize = text.unicode_len();
    let mut s: String = text.to_owned();
    let mut i: usize = len;
    assert(s@ =~= text@ + spaces(0));
    while i < width
        invariant
            len == text@.len(),
            len <= i,
            i <= width || i == len,
            s@ == text@ + spaces((i - len) as nat),
        decreases width - i,
    {
        s.push(' ');
        i = i + 1;
        assert(s@ =~= text@ + spaces((i - len) as nat));
    }
    s
}

/// One movement as a line.
pub open spec fn row_text(m: Movement) -> Seq<char> {
    "    "@ + padded(m.kind.name(), 12) + " "@ + padded(m.fixture@, 40) + " "@ + fixed(
        m.was,
        2,
        true,
    ) + " → "@ + fixed(m.now, 2, true) + (if m.calendar_sensitive {
        "  [calendar]"@
    } else {
        ""@
    }) + "\n"@
}

/// The movements as lines.
pub open spec fn rows_text(moved: Seq<Movement>) -> Seq<char>
    decreases moved.len(),
{
    if moved.len() == 0 {
        ""@
    } else {
        rows_text(moved.drop_last()) + row_text(moved.last())
    }
}

/// The label of the baseline or a stand-in.
pub open spec fn text_or(text: Option<String>, otherwise: Seq<char>) -> Seq<char> {
    match text {
        Some(s) => s@,
        None => otherwise,
    }
}

/// The head of the report: the two sides, net R, how many moved which way and how many did not.
pub open spec fn head_text(d: BaselineDiff) -> Seq<char> {
    "vs "@ + text_or(d.baseline_label, "baseline"@) + " → "@ + text_or(
        d.engine_version,
        "this run"@,
    ) + "\n  net R:  "@ + fixed(d.was, 2, true) + " → "@ + fixed(d.now, 2, true) + "  ("@ + fixed(
        d.gain(),
        2,
        true,
    ) + ")\n  moved:  "@ + decimal(d.moved@.len()) + " fixture(s)  ("@ + decimal(
        gainers(d.moved@),
    ) + " improved, "@ + decimal(losers(d.moved@)) + " worse)\n  same:   "@ + decimal(
        d.unchanged as nat,
    ) + "\n"@
}

/// What the movers say of the code: that there are none, or how many the calendar cannot explain.
pub open spec fn cause_text(d: BaselineDiff) -> Seq<char> {
    let code = code_moves(d.moved@).len();
    if d.moved@.len() == 0 {
        "  nothing moved.\n"@
    } else {
        "  of which: "@ + decimal(code) + " reproducible, "@ + decimal(
            (d.moved@.len() - code) as nat,
        ) + " calendar-sensitive\n"@ + (if code == 0 {
            "  ← every mover was armed with the live calendar; none of this is necessarily a code change\n"@
        } else {
            ""@
        })
    }
}

/// The report: at most `limit` movers are listed, and how many are not.
pub open spec fn report_text(d: BaselineDiff, limit: nat) -> Seq<char> {
    let shown = if d.moved@.len() < limit {
        d.moved@.len()
    } else {
        limit
    };
    head_text(d) + cause_text(d) + (if d.unscored > 0 {
        "  ← INCOMPLETE: "@ + decimal(d.unscored as nat)
            + " fixture(s) did not score; the net R above excludes them\n"@
    } else {
        ""@
    }) + rows_text(d.moved@.take(shown as int)) + (if d.moved@.len() > limit {
        "    … and "@ + decimal((d.moved@.len() - limit) as nat) + " more\n"@
    } else {
        ""@
    })
}

fn head(d: &BaselineDiff) -> (out: String)
    ensures
        out@ == head_text(*d),
{
    let from: &str = match &d.baseline_label {
        Some(s) => s.as_str(),
        None => "baseline",
    };
    let to: &str = match &d.engine_version {
        Some(s) => s.as_str(),
        None => "this run",
    };
    let mut out: String = "vs ".to_owned();
    out.append(from);
    out.append(" → ");
    out.append(to);
    out.append("\n  net R:  ");
    out.append(fixed_text(d.was, 2, true).as_str());
    out.append(" → ");
    out.append(fixed_text(d.now, 2, true).as_str());
    out.append("  (");
    out.append(fixed_text(d.delta(), 2, true).as_str());
    out.append(")\n  moved:  ");
    out.append(count_text(d.moved.len() as u64).as_str());
    out.append(" fixture(s)  (");
    out.append(count_text(d.improved() as u64).as_str());
    out.append(" improved, ");
    out.append(count_text(d.worsened() as u64).as_str());
    out.append(" worse)\n  same:   ");
    out.append(count_text(d.unchanged as u64).as_str());
    out.append("\n");
    out
}

fn cause(d: &BaselineDiff) -> (out: String)
    ensures
        out@ == cause_text(*d),
{
    if d.is_clean() {
        return "  nothing moved.\n".to_owned();
    }
    let code: usize = d.reproducible().len();
    let mut out: String = "  of which: ".to_owned();
    out.append(count_text(code as u64).as_str());
    out.append(" reproducible, ");
    out.append(count_text((d.moved.len() - code) as u64).as_str());
    out.append(" calendar-sensitive\n");
    let note: &str = if code == 0 {
        "  ← every mover was armed with the live calendar; none of this is necessarily a code change\n"
    } else {
        ""
    };
    out.append(note);
    out
}

fn row(m: &Movement) -> (out: String)
    ensures
        out@ == row_text(*m),
{
    let mut out: String = "    ".to_owned();
    out.append(pad_right(m.kind.label(), 12).as_str());
    out.append(" ");
    out.append(pad_right(m.fixture.as_str(), 40).as_str());
    out.append(" ");
    out.append(fixed_text(m.was, 2, true).as_str());
    out.append(" → ");
    out.append(fixed_text(m.now, 2, true).as_str());
    let flag: &str = if m.calendar_sensitive {
        "  [calendar]"
    } else {
        ""
    };
    out.append(flag);
    out.append("\n");
    out
}

/// Renders a comparison, listing at most `limit` movers.
pub fn render(diff: &BaselineDiff, limit: usize) -> (out: String)
    ensures
        out@ == report_text(*diff, limit as nat),
{
    let mut out: String = head(diff);
    out.append(cause(diff).as_str());
    let mut incomplete: String = "".to_owned();
    if diff.unscored > 0 {
        incomplete = "  ← INCOMPLETE: ".to_owned();
        incomplete.append(count_text(diff.unscored as u64).as_str());
        incomplete.append(" fixture(s) did not score; the net R above excludes them\n");
    }
    out.append(incomplete.as_str());
    let shown: usize = if diff.moved.len() < limit {
        diff.moved.len()
    } else {
        limit
    };
    let mut rows: String = "".to_owned();
    let mut i: usize = 0;
    assert(diff.moved@.take(0) =~= Seq::<Movement>::empty());
    while i < shown
        invariant
            i <= shown <= diff.moved@.len(),
            rows@ == rows_text(diff.moved@.take(i as int)),
        decreases shown - i,
    {
        assert(diff.moved@.take(i + 1).drop_last() =~= diff.moved@.take(i as int));
        rows.append(row(&diff.moved[i]).as_str());
        i = i + 1;
    }
    out.append(rows.as_str());
    let mut more: String = "".to_owned();
    if diff.moved.len() > limit {
        more = "    … and ".to_owned();
        more.append(count_text((diff.moved.len() - limit) as u64).as_str());
        more.append(" more\n");
    }
    out.append(more.as_str());
    out
}

/// A report lists its movers in order, up to the limit: what stands before the list and behind it
/// does not depend on them but by their number, and each more that is listed adds its own line.
pub proof fn a_report_lists_its_movers(d: BaselineDiff, limit: nat, moved: Seq<Movement>, m: Movement)
    ensures
        rows_text(Seq::empty()).len() == 0,
        rows_text(moved.push(m)) == rows_text(moved) + row_text(m),
        ({
            let flag = if m.calendar_sensitive {
                "  [calendar]\n"@
            } else {
                "\n"@
            };
            row_text(m) == "    "@ + padded(m.kind.name(), 12) + " "@ + padded(m.fixture@, 40) + " "@
                + fixed(m.was, 2, true) + " → "@ + fixed(m.now, 2, true) + flag
        }),
        ({
            let listed = if d.moved@.len() <= limit {
                d.moved@
            } else {
                d.moved@.take(limit as int)
            };
            let incomplete = if d.unscored == 0 {
                Seq::empty()
            } else {
                "  ← INCOMPLETE: "@ + decimal(d.unscored as nat)
                    + " fixture(s) did not score; the net R above excludes them\n"@
            };
            let more = if d.moved@.len() <= limit {
                Seq::empty()
            } else {
                "    … and "@ + decimal((d.moved@.len() - limit) as nat) + " more\n"@
            };
            report_text(d, limit) == head_text(d) + cause_text(d) + incomplete + rows_text(listed)
                + more
        }),
{
    reveal_strlit("");
    reveal_strlit("\n");
    reveal_strlit("  [calendar]");
    reveal_strlit("  [calendar]\n");
    assert(moved.push(m).drop_last() =~= moved);
    assert(""@ =~= Seq::<char>::empty());
    assert("  [calendar]"@ + "\n"@ =~= "  [calendar]\n"@);
    let start = "    "@ + padded(m.kind.name(), 12) + " "@ + padded(m.fixture@, 40) + " "@ + fixed(
        m.was,
        2,
        true,
    ) + " → "@ + fixed(m.now, 2, true);
    if m.calendar_sensitive {
        assert(start + "  [calendar]"@ + "\n"@ =~= start + "  [calendar]\n"@);
    } else {
        assert(start + ""@ + "\n"@ =~= start + "\n"@);
    }
    assert(d.moved@.take(d.moved@.len() as int) =~= d.moved@);
}

/// A padded text is the text with spaces behind it, up to the width and no further.
pub proof fn padding_only_adds_spaces(text: Seq<char>, width: nat)
    ensures
        ({
            let p = padded(text, width);
            &&& p.len() == if text.len() < width { width } else { text.len() }
            &&& p.take(text.len() as int) == text
            &&& forall|i: int| text.len() <= i < p.len() ==> #[trigger] p[i] == ' '
        }),
{
    assert(padded(text, width).take(text.len() as int) =~= text);
}

/// Where nothing moved the report says so; else it says how many of the movers the calendar cannot
/// explain and how many it can, and warns exactly where it can explain them all.
pub proof fn a_report_says_what_the_calendar_explains(d: BaselineDiff)
    ensures
        ({
            let all = d.moved@.len();
            let code = d.moved@.filter(|m: Movement| !m.calendar_sensitive).len();
            let counts = "  of which: "@ + decimal(code) + " reproducible, "@ + decimal(
                (all - code) as nat,
            ) + " calendar-sensitive\n"@;
            &&& all == 0 ==> cause_text(d) == "  nothing moved.\n"@
            &&& all > 0 && code > 0 ==> cause_text(d) == counts
            &&& all > 0 && code == 0 ==> cause_text(d) == counts
                + "  ← every mover was armed with the live calendar; none of this is necessarily a code change\n"@
        }),
{
    reveal_strlit("");
    crate::baseline_laws::movers_are_counted_by_their_change(d.moved@);
    let code = code_moves(d.moved@).len();
    let counts = "  of which: "@ + decimal(code) + " reproducible, "@ + decimal(
        (d.moved@.len() - code) as nat,
    ) + " calendar-sensitive\n"@;
    assert(counts + ""@ =~= counts);
}

} // verus!
