//! What holds of blessing and comparing as a whole.
use vstd::prelude::*;
use crate::baseline::{
    additions_in, agreed, by_name, change_in, change_of, changes_in, code_moves, entry_named,
    entry_of, gainers, losers, measured, moved_as, movements, ranked, ranks_before, row_version,
    scored_entries, shared_version, sum_entries, unchanged_in, with_entry, Baseline, BaselineDiff,
    BaselineEntry, MoveKind, Movement, NamedEntry,
};
use crate::batch::{BatchResult, BatchSummary};
use crate::binary64::{
    difference, excess, magnitude_units, nearest, opposite, sum, zero_units, Float, HIDDEN,
    INFINITY_BITS,
};
use crate::text::{text_before, text_before_is_total, text_before_is_transitive};

verus! {

/// An entry put in by name keeps the names ascending, and is found under its name; every other
/// name keeps what it had.
proof fn an_entry_is_found(
    entries: Seq<NamedEntry>,
    name: String,
    entry: BaselineEntry,
    other: Seq<char>,
)
    requires
        by_name(entries),
    ensures
        by_name(with_entry(entries, name, entry)),
        entry_named(with_entry(entries, name, entry), name@) == Some(entry),
        other != name@ ==> entry_named(with_entry(entries, name, entry), other) == entry_named(
            entries,
            other,
        ),
        forall|k: int|
            0 <= k < with_entry(entries, name, entry).len() ==> (
            #[trigger] with_entry(entries, name, entry)[k]).name@ == name@ || exists|j: int|
                0 <= j < entries.len() && (#[trigger] entries[j]).name@ == with_entry(
                    entries,
                    name,
                    entry,
                )[k].name@,
    decreases entries.len(),
{
    let result = with_entry(entries, name, entry);
    if entries.len() == 0 || text_before(name@, entries[0].name@) {
        let first = NamedEntry { name, entry };
        assert(result.drop_first() =~= entries);
        assert(result[0] == first);
        assert forall|i: int, j: int| 0 <= i < j < result.len() implies text_before(
            (#[trigger] result[i]).name@,
            (#[trigger] result[j]).name@,
        ) by {
            assert(result[j] == entries[j - 1]);
            if i == 0 {
                if j > 1 {
                    assert(text_before(entries[0].name@, entries[j - 1].name@));
                    text_before_is_transitive(name@, entries[0].name@, entries[j - 1].name@);
                }
            } else {
                assert(result[i] == entries[i - 1]);
            }
        }
        assert forall|k: int| 0 <= k < result.len() implies (#[trigger] result[k]).name@ == name@
            || exists|j: int|
            0 <= j < entries.len() && (#[trigger] entries[j]).name@ == result[k].name@ by {
            if k > 0 {
                assert(result[k] == entries[k - 1]);
            }
        }
    } else if entries[0].name@ == name@ {
        let first = NamedEntry { name: entries[0].name, entry };
        assert(result.drop_first() =~= entries.drop_first());
        assert(result[0] == first);
        assert forall|i: int, j: int| 0 <= i < j < result.len() implies text_before(
            (#[trigger] result[i]).name@,
            (#[trigger] result[j]).name@,
        ) by {
            assert(result[j] == entries[j]);
            assert(result[i].name == entries[i].name);
        }
        assert forall|k: int| 0 <= k < result.len() implies (#[trigger] result[k]).name@ == name@
            || exists|j: int|
            0 <= j < entries.len() && (#[trigger] entries[j]).name@ == result[k].name@ by {
            if k > 0 {
                assert(result[k] == entries[k]);
            }
        }
    } else {
        let rest = entries.drop_first();
        assert(by_name(rest)) by {
            assert forall|i: int, j: int| 0 <= i < j < rest.len() implies text_before(
                (#[trigger] rest[i]).name@,
                (#[trigger] rest[j]).name@,
            ) by {
                assert(rest[i] == entries[i + 1] && rest[j] == entries[j + 1]);
            }
        }
        an_entry_is_found(rest, name, entry, other);
        let tail = with_entry(rest, name, entry);
        assert(result.drop_first() =~= tail);
        assert(result[0] == entries[0]);
        text_before_is_total(entries[0].name@, name@);
        assert forall|i: int, j: int| 0 <= i < j < result.len() implies text_before(
            (#[trigger] result[i]).name@,
            (#[trigger] result[j]).name@,
        ) by {
            assert(result[j] == tail[j - 1]);
            if i == 0 {
                if tail[j - 1].name@ != name@ {
                    let m = choose|m: int|
                        0 <= m < rest.len() && (#[trigger] rest[m]).name@ == tail[j - 1].name@;
                    assert(rest[m] == entries[m + 1]);
                }
            } else {
                assert(result[i] == tail[i - 1]);
            }
        }
        assert forall|k: int| 0 <= k < result.len() implies (#[trigger] result[k]).name@ == name@
            || exists|j: int|
            0 <= j < entries.len() && (#[trigger] entries[j]).name@ == result[k].name@ by {
            if k > 0 {
                assert(result[k] == tail[k - 1]);
                if tail[k - 1].name@ != name@ {
                    let m = choose|m: int|
                        0 <= m < rest.len() && (#[trigger] rest[m]).name@ == tail[k - 1].name@;
                    assert(rest[m] == entries[m + 1]);
                }
            }
        }
    }
}

/// The blessed entries are sorted by name, each name once.
pub proof fn blessed_entries_are_by_name(rows: Seq<BatchResult>)
    ensures
        by_name(scored_entries(rows)),
    decreases rows.len(),
{
    if rows.len() > 0 {
        blessed_entries_are_by_name(rows.drop_last());
        if let Some(entry) = entry_of(rows.last()) {
            an_entry_is_found(
                scored_entries(rows.drop_last()),
                rows.last().fixture,
                entry,
                Seq::empty(),
            );
        }
    }
}

/// A fixture is blessed with the entry of its last row that scored.
pub proof fn the_last_scored_row_is_blessed(rows: Seq<BatchResult>, i: int)
    requires
        0 <= i < rows.len(),
        entry_of(rows[i]) is Some,
        forall|j: int|
            i < j < rows.len() && (#[trigger] rows[j]).fixture@ == rows[i].fixture@ ==> entry_of(
                rows[j],
            ) is None,
    ensures
        entry_named(scored_entries(rows), rows[i].fixture@) == entry_of(rows[i]),
    decreases rows.len(),
{
    let before = rows.drop_last();
    let last = rows.last();
    blessed_entries_are_by_name(before);
    if let Some(entry) = entry_of(last) {
        an_entry_is_found(scored_entries(before), last.fixture, entry, rows[i].fixture@);
    }
    if i < rows.len() - 1 {
        assert(before[i] == rows[i]);
        assert forall|j: int|
            i < j < before.len() && (#[trigger] before[j]).fixture@ == before[i].fixture@ implies entry_of(
            before[j],
        ) is None by {
            assert(before[j] == rows[j]);
        }
        the_last_scored_row_is_blessed(before, i);
        assert(rows[rows.len() - 1] == last);
    }
}

/// A fixture that no row scored is not blessed.
pub proof fn an_unscored_fixture_is_not_blessed(rows: Seq<BatchResult>, name: Seq<char>)
    requires
        forall|j: int|
            0 <= j < rows.len() && (#[trigger] rows[j]).fixture@ == name ==> entry_of(rows[j]) is None,
    ensures
        entry_named(scored_entries(rows), name) is None,
    decreases rows.len(),
{
    if rows.len() > 0 {
        let before = rows.drop_last();
        blessed_entries_are_by_name(before);
        assert forall|j: int| 0 <= j < before.len() && (#[trigger] before[j]).fixture@ == name implies entry_of(
            before[j],
        ) is None by {
            assert(before[j] == rows[j]);
        }
        an_unscored_fixture_is_not_blessed(before, name);
        assert(rows[rows.len() - 1] == rows.last());
        if let Some(entry) = entry_of(rows.last()) {
            an_entry_is_found(scored_entries(before), rows.last().fixture, entry, name);
        }
    }
}

/// Under ascending names each entry is found under its own.
proof fn each_entry_is_found(entries: Seq<NamedEntry>, i: int)
    requires
        by_name(entries),
        0 <= i < entries.len(),
    ensures
        entry_named(entries, entries[i].name@) == Some(entries[i].entry),
    decreases entries.len(),
{
    if i > 0 {
        assert(text_before(entries[0].name@, entries[i].name@));
        text_before_is_total(entries[0].name@, entries[0].name@);
        let rest = entries.drop_first();
        assert forall|a: int, b: int| 0 <= a < b < rest.len() implies text_before(
            (#[trigger] rest[a]).name@,
            (#[trigger] rest[b]).name@,
        ) by {
            assert(rest[a] == entries[a + 1] && rest[b] == entries[b + 1]);
        }
        assert(rest[i - 1] == entries[i]);
        each_entry_is_found(rest, i - 1);
    }
}

/// The scores are numbers.
pub open spec fn scores_are_numbers(entries: Seq<NamedEntry>) -> bool {
    forall|i: int| 0 <= i < entries.len() ==> !(#[trigger] entries[i]).entry.net_r.nan()
}

proof fn nothing_changes_in_itself(entries: Seq<NamedEntry>, part: Seq<NamedEntry>)
    requires
        by_name(entries),
        scores_are_numbers(entries),
        part.is_prefix_of(entries),
    ensures
        changes_in(part, entries).len() == 0,
        unchanged_in(part, entries) == part.len(),
        additions_in(entries, part).len() == 0,
    decreases part.len(),
{
    if part.len() > 0 {
        let less = part.drop_last();
        let i = part.len() - 1;
        assert(less =~= entries.subrange(0, less.len() as int)) by {
            assert(part =~= entries.subrange(0, part.len() as int));
        }
        nothing_changes_in_itself(entries, less);
        assert(part.last() == entries[i]) by {
            assert(part =~= entries.subrange(0, part.len() as int));
        }
        each_entry_is_found(entries, i);
        assert(!entries[i].entry.net_r.nan());
        assert(change_in(part.last(), entries) is None);
    }
}

/// A run compared with the baseline blessed from it has not moved: no movement, every entry
/// unchanged, and the same net R to the last bit. (A score that is not a number differs from
/// itself, and is left out.)
pub proof fn a_run_agrees_with_its_own_blessing(
    summary: BatchSummary,
    label: Option<String>,
    baseline: Baseline,
    d: BaselineDiff,
)
    requires
        baseline.blesses(summary, label),
        d.compares(baseline, summary),
        scores_are_numbers(baseline.entries@),
    ensures
        d.moved@.len() == 0,
        d.unchanged == baseline.entries@.len(),
        d.was == d.now,
{
    let entries = baseline.entries@;
    blessed_entries_are_by_name(summary.results@);
    assert(entries.is_prefix_of(entries));
    nothing_changes_in_itself(entries, entries);
    d.moved@.to_multiset_ensures();
    movements(entries, entries).to_multiset_ensures();
}

/// A baseline that was only ever blessed is consistent with its entries. (A sum that is not a
/// number differs from itself, and is left out.)
pub proof fn a_blessed_baseline_is_self_consistent(
    summary: BatchSummary,
    label: Option<String>,
    baseline: Baseline,
)
    requires
        baseline.blesses(summary, label),
        !baseline.net_r.nan(),
    ensures
        baseline.self_consistent(),
{
}

/// No two movements are of the same fixture.
pub open spec fn each_once(moved: Seq<Movement>) -> bool {
    forall|i: int, j: int|
        0 <= i < j < moved.len() ==> (#[trigger] moved[i]).fixture@ != (
        #[trigger] moved[j]).fixture@
}

/// Some movement is that of a fixture, and of this kind.
pub open spec fn moved_under(moved: Seq<Movement>, name: Seq<char>, kind: MoveKind) -> bool {
    exists|i: int|
        0 <= i < moved.len() && (#[trigger] moved[i]).fixture@ == name && moved[i].kind == kind
}

/// What became of a fixture between a baseline and a run, if anything did.
pub open spec fn fate_of(
    base: Seq<NamedEntry>,
    fresh: Seq<NamedEntry>,
    name: Seq<char>,
) -> Option<MoveKind> {
    match (entry_named(base, name), entry_named(fresh, name)) {
        (None, None) => None,
        (None, Some(_)) => Some(MoveKind::Added),
        (Some(_), None) => Some(MoveKind::Removed),
        (Some(old_entry), Some(new_entry)) => change_of(old_entry, new_entry),
    }
}

/// Names that ascend strictly differ.
proof fn names_differ(entries: Seq<NamedEntry>, i: int, j: int)
    requires
        by_name(entries),
        0 <= i < j < entries.len(),
    ensures
        entries[i].name@ != entries[j].name@,
{
    text_before_is_total(entries[i].name@, entries[j].name@);
}

proof fn shorter_is_by_name(entries: Seq<NamedEntry>)
    requires
        by_name(entries),
        entries.len() > 0,
    ensures
        by_name(entries.drop_last()),
{
    let less = entries.drop_last();
    assert forall|i: int, j: int| 0 <= i < j < less.len() implies text_before(
        (#[trigger] less[i]).name@,
        (#[trigger] less[j]).name@,
    ) by {
        assert(less[i] == entries[i] && less[j] == entries[j]);
    }
}

/// A name under which an entry is found is that of an entry.
proof fn a_found_entry_is_there(entries: Seq<NamedEntry>, name: Seq<char>) -> (k: int)
    requires
        entry_named(entries, name) is Some,
    ensures
        0 <= k < entries.len(),
        entries[k].name@ == name,
        entry_named(entries, name) == Some(entries[k].entry),
    decreases entries.len(),
{
    if entries[0].name@ == name {
        0
    } else {
        let k = a_found_entry_is_there(entries.drop_first(), name);
        assert(entries.drop_first()[k] == entries[k + 1]);
        k + 1
    }
}

/// The changes are those of the baseline's entries, one for each that changed.
proof fn changes_are_of_entries(base: Seq<NamedEntry>, fresh: Seq<NamedEntry>)
    ensures
        forall|i: int|
            0 <= i < changes_in(base, fresh).len() ==> exists|k: int|
                0 <= k < base.len() && change_in(#[trigger] base[k], fresh) == Some(
                    #[trigger] changes_in(base, fresh)[i],
                ),
        forall|k: int|
            0 <= k < base.len() && change_in(#[trigger] base[k], fresh) is Some ==> changes_in(
                base,
                fresh,
            ).contains(change_in(base[k], fresh)->0),
        by_name(base) ==> each_once(changes_in(base, fresh)),
    decreases base.len(),
{
    let all = changes_in(base, fresh);
    if base.len() > 0 {
        let less = base.drop_last();
        let before = changes_in(less, fresh);
        let last = base.last();
        changes_are_of_entries(less, fresh);
        assert(base[base.len() - 1] == last);
        assert forall|i: int| 0 <= i < all.len() implies exists|k: int|
            0 <= k < base.len() && change_in(#[trigger] base[k], fresh) == Some(
                #[trigger] all[i],
            ) by {
            if i < before.len() {
                assert(all[i] == before[i]);
                let k = choose|k: int|
                    0 <= k < less.len() && change_in(#[trigger] less[k], fresh) == Some(before[i]);
                assert(base[k] == less[k]);
            }
        }
        assert forall|k: int|
            0 <= k < base.len() && change_in(#[trigger] base[k], fresh) is Some implies all.contains(
            change_in(base[k], fresh)->0,
        ) by {
            let m = change_in(base[k], fresh)->0;
            if k < less.len() {
                assert(less[k] == base[k]);
                assert(before.contains(m));
                let i = choose|i: int| 0 <= i < before.len() && before[i] == m;
                assert(all[i] == m);
            } else {
                assert(all[all.len() - 1] == m);
            }
        }
        if by_name(base) {
            shorter_is_by_name(base);
            assert forall|i: int, j: int| 0 <= i < j < all.len() implies (
            #[trigger] all[i]).fixture@ != (#[trigger] all[j]).fixture@ by {
                if j < before.len() {
                    assert(all[i] == before[i] && all[j] == before[j]);
                } else {
                    assert(all[i] == before[i]);
                    let k = choose|k: int|
                        0 <= k < less.len() && change_in(#[trigger] less[k], fresh) == Some(
                            before[i],
                        );
                    assert(less[k] == base[k]);
                    names_differ(base, k, base.len() - 1);
                }
            }
        }
    }
}

/// The movement of an entry that the baseline lacks.
spec fn addition_of(e: NamedEntry) -> Movement {
    moved_as(e.name, MoveKind::Added, Float { bits: 0 }, e.entry.net_r, e.entry)
}

/// The additions are those of the run's entries that the baseline lacks, one for each.
proof fn additions_are_of_entries(base: Seq<NamedEntry>, fresh: Seq<NamedEntry>)
    ensures
        forall|i: int|
            0 <= i < additions_in(base, fresh).len() ==> exists|k: int|
                0 <= k < fresh.len() && entry_named(base, (#[trigger] fresh[k]).name@) is None
                    && addition_of(fresh[k]) == #[trigger] additions_in(base, fresh)[i],
        forall|k: int|
            0 <= k < fresh.len() && entry_named(base, (#[trigger] fresh[k]).name@) is None
                ==> additions_in(base, fresh).contains(addition_of(fresh[k])),
        by_name(fresh) ==> each_once(additions_in(base, fresh)),
    decreases fresh.len(),
{
    let all = additions_in(base, fresh);
    if fresh.len() > 0 {
        let less = fresh.drop_last();
        let before = additions_in(base, less);
        let last = fresh.last();
        additions_are_of_entries(base, less);
        assert(fresh[fresh.len() - 1] == last);
        assert forall|i: int| 0 <= i < all.len() implies exists|k: int|
            0 <= k < fresh.len() && entry_named(base, (#[trigger] fresh[k]).name@) is None
                && addition_of(fresh[k]) == #[trigger] all[i] by {
            if i < before.len() {
                assert(all[i] == before[i]);
                let k = choose|k: int|
                    0 <= k < less.len() && entry_named(base, (#[trigger] less[k]).name@) is None
                        && addition_of(less[k]) == before[i];
                assert(fresh[k] == less[k]);
            }
        }
        assert forall|k: int|
            0 <= k < fresh.len() && entry_named(
                base,
                (#[trigger] fresh[k]).name@,
            ) is None implies all.contains(addition_of(fresh[k])) by {
            let m = addition_of(fresh[k]);
            if k < less.len() {
                assert(less[k] == fresh[k]);
                assert(before.contains(m));
                let i = choose|i: int| 0 <= i < before.len() && before[i] == m;
                assert(all[i] == m);
            } else {
                assert(all[all.len() - 1] == m);
            }
        }
        if by_name(fresh) {
            shorter_is_by_name(fresh);
            assert forall|i: int, j: int| 0 <= i < j < all.len() implies (
            #[trigger] all[i]).fixture@ != (#[trigger] all[j]).fixture@ by {
                if j < before.len() {
                    assert(all[i] == before[i] && all[j] == before[j]);
                } else {
                    assert(all[i] == before[i]);
                    let k = choose|k: int|
                        0 <= k < less.len() && entry_named(base, (#[trigger] less[k]).name@) is None
                            && addition_of(less[k]) == before[i];
                    assert(less[k] == fresh[k]);
                    names_differ(fresh, k, fresh.len() - 1);
                }
            }
        }
    }
}

/// Each fixture is among the movements at most once.
proof fn movements_name_each_fixture_once(base: Seq<NamedEntry>, fresh: Seq<NamedEntry>)
    requires
        by_name(base),
        by_name(fresh),
    ensures
        each_once(movements(base, fresh)),
{
    let (changes, additions) = (changes_in(base, fresh), additions_in(base, fresh));
    let all = movements(base, fresh);
    changes_are_of_entries(base, fresh);
    additions_are_of_entries(base, fresh);
    assert forall|i: int, j: int| 0 <= i < j < all.len() implies (#[trigger] all[i]).fixture@ != (
    #[trigger] all[j]).fixture@ by {
        if j < changes.len() {
            assert(all[i] == changes[i] && all[j] == changes[j]);
        } else if i >= changes.len() {
            assert(all[i] == additions[i - changes.len()]);
            assert(all[j] == additions[j - changes.len()]);
        } else {
            assert(all[i] == changes[i] && all[j] == additions[j - changes.len()]);
            let k = choose|k: int|
                0 <= k < base.len() && change_in(#[trigger] base[k], fresh) == Some(changes[i]);
            each_entry_is_found(base, k);
        }
    }
}

/// The movements hold a fixture's fate, and no other kind of it.
proof fn movements_hold_each_fate(
    base: Seq<NamedEntry>,
    fresh: Seq<NamedEntry>,
    name: Seq<char>,
    kind: MoveKind,
)
    requires
        by_name(base),
        by_name(fresh),
    ensures
        moved_under(movements(base, fresh), name, kind) == (fate_of(base, fresh, name) == Some(
            kind,
        )),
{
    let (changes, additions) = (changes_in(base, fresh), additions_in(base, fresh));
    let all = movements(base, fresh);
    changes_are_of_entries(base, fresh);
    additions_are_of_entries(base, fresh);
    if moved_under(all, name, kind) {
        let i = choose|i: int|
            0 <= i < all.len() && (#[trigger] all[i]).fixture@ == name && all[i].kind == kind;
        if i < changes.len() {
            assert(all[i] == changes[i]);
            let k = choose|k: int|
                0 <= k < base.len() && change_in(#[trigger] base[k], fresh) == Some(changes[i]);
            each_entry_is_found(base, k);
        } else {
            let a = i - changes.len();
            assert(all[i] == additions[a]);
            let k = choose|k: int|
                0 <= k < fresh.len() && entry_named(base, (#[trigger] fresh[k]).name@) is None
                    && addition_of(fresh[k]) == additions[a];
            each_entry_is_found(fresh, k);
        }
    }
    if fate_of(base, fresh, name) == Some(kind) {
        if entry_named(base, name) is Some {
            let k = a_found_entry_is_there(base, name);
            let m = change_in(base[k], fresh)->0;
            assert(changes.contains(m));
            let i = choose|i: int| 0 <= i < changes.len() && changes[i] == m;
            assert(all[i] == m);
        } else {
            let k = a_found_entry_is_there(fresh, name);
            let m = addition_of(fresh[k]);
            assert(additions.contains(m));
            let i = choose|i: int| 0 <= i < additions.len() && additions[i] == m;
            assert(all[changes.len() + i] == m);
        }
    }
}

/// A comparison accounts for every fixture, and for each once. No fixture is among the movements
/// twice. A fixture that only the run scored is there as added, one that only the baseline has as
/// removed, one that both have as what changed, and no fixture in any other way.
pub proof fn each_fixture_moves_once_and_as_it_changed(
    baseline: Baseline,
    summary: BatchSummary,
    d: BaselineDiff,
)
    requires
        baseline.well_formed(),
        d.compares(baseline, summary),
    ensures
        each_once(d.moved@),
        forall|name: Seq<char>, kind: MoveKind| #[trigger]
            moved_under(d.moved@, name, kind) == (fate_of(
                baseline.entries@,
                scored_entries(summary.results@),
                name,
            ) == Some(kind)),
{
    let base = baseline.entries@;
    let fresh = scored_entries(summary.results@);
    let (all, moved) = (movements(base, fresh), d.moved@);
    blessed_entries_are_by_name(summary.results@);
    movements_name_each_fixture_once(base, fresh);
    all.to_multiset_ensures();
    moved.to_multiset_ensures();
    assert(all.no_duplicates());
    all.lemma_multiset_has_no_duplicates();
    moved.lemma_multiset_has_no_duplicates_conv();
    assert forall|i: int| 0 <= i < moved.len() implies all.contains(#[trigger] moved[i]) by {
        assert(moved.contains(moved[i]));
        assert(moved.to_multiset().count(moved[i]) > 0);
    }
    assert forall|i: int| 0 <= i < all.len() implies moved.contains(#[trigger] all[i]) by {
        assert(all.contains(all[i]));
        assert(all.to_multiset().count(all[i]) > 0);
    }
    assert forall|i: int, j: int| 0 <= i < j < moved.len() implies (#[trigger] moved[i]).fixture@
        != (#[trigger] moved[j]).fixture@ by {
        let a = choose|a: int| 0 <= a < all.len() && all[a] == moved[i];
        let b = choose|b: int| 0 <= b < all.len() && all[b] == moved[j];
        assert(moved[i] != moved[j]);
        assert(a != b);
    }
    assert forall|name: Seq<char>, kind: MoveKind| #[trigger]
        moved_under(moved, name, kind) == (fate_of(base, fresh, name) == Some(kind)) by {
        movements_hold_each_fate(base, fresh, name, kind);
        if moved_under(moved, name, kind) {
            let i = choose|i: int|
                0 <= i < moved.len() && (#[trigger] moved[i]).fixture@ == name && moved[i].kind
                    == kind;
            let a = choose|a: int| 0 <= a < all.len() && all[a] == moved[i];
            assert(all[a].fixture@ == name);
        }
        if moved_under(all, name, kind) {
            let a = choose|a: int|
                0 <= a < all.len() && (#[trigger] all[a]).fixture@ == name && all[a].kind == kind;
            let i = choose|i: int| 0 <= i < moved.len() && moved[i] == all[a];
            assert(moved[i].fixture@ == name);
        }
    }
}

/// A movement says what its fixture scored on both sides, nothing where it was not there, and where
/// the fixture belongs by the run, or by the baseline where the run lacks it.
pub open spec fn told_by_its_entries(
    m: Movement,
    base: Seq<NamedEntry>,
    fresh: Seq<NamedEntry>,
) -> bool {
    match (entry_named(base, m.fixture@), entry_named(fresh, m.fixture@)) {
        (Some(o), Some(n)) => {
            &&& m.was == o.net_r && m.now == n.net_r
            &&& m.cell == n.cell && m.trade_id == n.trade_id
            &&& m.calendar_sensitive == n.news_on
        },
        (Some(o), None) => {
            &&& m.kind == MoveKind::Removed
            &&& m.was == o.net_r && m.now.bits == 0
            &&& m.cell == o.cell && m.trade_id == o.trade_id
            &&& m.calendar_sensitive == o.news_on
        },
        (None, Some(n)) => {
            &&& m.kind == MoveKind::Added
            &&& m.was.bits == 0 && m.now == n.net_r
            &&& m.cell == n.cell && m.trade_id == n.trade_id
            &&& m.calendar_sensitive == n.news_on
        },
        (None, None) => false,
    }
}

/// Every movement of a comparison is told by its fixture's entries.
pub proof fn a_movement_is_told_by_its_entries(
    baseline: Baseline,
    summary: BatchSummary,
    d: BaselineDiff,
    i: int,
)
    requires
        baseline.well_formed(),
        d.compares(baseline, summary),
        0 <= i < d.moved@.len(),
    ensures
        told_by_its_entries(d.moved@[i], baseline.entries@, scored_entries(summary.results@)),
{
    let base = baseline.entries@;
    let fresh = scored_entries(summary.results@);
    let (changes, additions) = (changes_in(base, fresh), additions_in(base, fresh));
    let all = movements(base, fresh);
    let m = d.moved@[i];
    blessed_entries_are_by_name(summary.results@);
    changes_are_of_entries(base, fresh);
    additions_are_of_entries(base, fresh);
    all.to_multiset_ensures();
    d.moved@.to_multiset_ensures();
    assert(d.moved@.contains(m));
    assert(all.to_multiset().count(m) > 0);
    assert(all.contains(m));
    let a = choose|a: int| 0 <= a < all.len() && all[a] == m;
    if a < changes.len() {
        assert(all[a] == changes[a]);
        let k = choose|k: int|
            0 <= k < base.len() && change_in(#[trigger] base[k], fresh) == Some(changes[a]);
        each_entry_is_found(base, k);
    } else {
        let b = a - changes.len();
        assert(all[a] == additions[b]);
        let k = choose|k: int|
            0 <= k < fresh.len() && entry_named(base, (#[trigger] fresh[k]).name@) is None
                && addition_of(fresh[k]) == additions[b];
        each_entry_is_found(fresh, k);
    }
}

/// Ranked movements begin with those of whether there is a trade. Within these and within the rest,
/// the change in R falls in size, and of one size the names rise.
pub proof fn ranked_moves_fall_in_size(moved: Seq<Movement>, i: int, j: int)
    requires
        ranked(moved),
        measured(moved),
        0 <= i < j < moved.len(),
    ensures
        ({
            let (a, b) = (moved[i], moved[j]);
            let is_trade = |k: MoveKind|
                k == MoveKind::Entered || k == MoveKind::Stopped || k == MoveKind::Added || k
                    == MoveKind::Removed;
            let size = |m: Movement| difference(m.now, m.was).magnitude().units();
            &&& is_trade(b.kind) ==> is_trade(a.kind)
            &&& is_trade(a.kind) == is_trade(b.kind) ==> size(a) >= size(b)
            &&& is_trade(a.kind) == is_trade(b.kind) && size(a) == size(b) ==> !text_before(
                b.fixture@,
                a.fixture@,
            )
        }),
{
    assert(!ranks_before(moved[j], moved[i]));
    assert(!moved[i].gain().nan() && !moved[j].gain().nan());
}

/// How many fixtures gained, how many lost and which moves the calendar cannot explain are read off
/// the movements themselves.
pub proof fn movers_are_counted_by_their_change(moved: Seq<Movement>)
    ensures
        gainers(moved) == moved.filter(
            |m: Movement| (Float { bits: 0 }).less(difference(m.now, m.was)),
        ).len(),
        losers(moved) == moved.filter(
            |m: Movement| difference(m.now, m.was).less(Float { bits: 0 }),
        ).len(),
        code_moves(moved) == moved.filter(|m: Movement| !m.calendar_sensitive),
    decreases moved.len(),
{
    reveal(Seq::filter);
    if moved.len() > 0 {
        movers_are_counted_by_their_change(moved.drop_last());
    }
}

/// The total of entries grows entry by entry.
pub proof fn one_more_entry_adds_its_score(entries: Seq<NamedEntry>, e: NamedEntry)
    ensures
        sum_entries(Seq::empty()).bits == 0,
        sum_entries(entries.push(e)) == sum(sum_entries(entries), e.entry.net_r),
{
    assert(entries.push(e).drop_last() =~= entries);
}

/// Every baseline entry is either unchanged or moved: none is passed over.
pub proof fn every_entry_is_accounted_for(base: Seq<NamedEntry>, fresh: Seq<NamedEntry>)
    ensures
        unchanged_in(base, fresh) + changes_in(base, fresh).len() == base.len(),
    decreases base.len(),
{
    if base.len() > 0 {
        every_entry_is_accounted_for(base.drop_last(), fresh);
    }
}

/// A fixture of the baseline that the run did not score is reported as removed.
pub proof fn a_fixture_that_stops_scoring_is_removed(
    base: Seq<NamedEntry>,
    fresh: Seq<NamedEntry>,
    i: int,
)
    requires
        0 <= i < base.len(),
        entry_named(fresh, base[i].name@) is None,
    ensures
        changes_in(base, fresh).contains(
            moved_as(
                base[i].name,
                MoveKind::Removed,
                base[i].entry.net_r,
                Float { bits: 0 },
                base[i].entry,
            ),
        ),
    decreases base.len(),
{
    let m = moved_as(
        base[i].name,
        MoveKind::Removed,
        base[i].entry.net_r,
        Float { bits: 0 },
        base[i].entry,
    );
    let before = changes_in(base.drop_last(), fresh);
    let all = changes_in(base, fresh);
    if i == base.len() - 1 {
        assert(base.last() == base[i]);
        assert(all[before.len() as int] == m);
    } else {
        assert(base.drop_last()[i] == base[i]);
        a_fixture_that_stops_scoring_is_removed(base.drop_last(), fresh, i);
        let k = choose|k: int| 0 <= k < before.len() && before[k] == m;
        assert(all[k] == m);
    }
}

/// In a ranked list the structural movements come first, whatever their size, and among movements
/// of one sort a larger gain or loss comes first.
pub proof fn structural_moves_come_first(moved: Seq<Movement>, i: int, j: int)
    requires
        ranked(moved),
        measured(moved),
        0 <= i < j < moved.len(),
    ensures
        moved[j].kind.structural() ==> moved[i].kind.structural(),
        moved[j].kind.structural() == moved[i].kind.structural()
            ==> moved[j].gain().magnitude().at_most(moved[i].gain().magnitude()),
{
    assert(!ranks_before(moved[j], moved[i]));
    assert(!moved[i].gain().nan() && !moved[j].gain().nan());
}

/// A score of one step or more rounds to a pattern above zero.
proof fn a_nonzero_number_does_not_round_to_zero(n: nat)
    requires
        n > 0,
    ensures
        0 < nearest(n, 1) <= INFINITY_BITS,
{
    let k = excess(n);
    assert(n as int / 1 == n);
    excess_leaves_a_significand(n);
    let p = vstd::arithmetic::power2::pow2(k);
    vstd::arithmetic::power2::lemma_pow2_pos(k);
    assert(1 * p == p);
    assert(n / p > 0);
}

/// Halving until the number fits leaves something.
proof fn excess_leaves_a_significand(n: nat)
    requires
        n > 0,
    ensures
        n / vstd::arithmetic::power2::pow2(excess(n)) > 0,
    decreases n,
{
    vstd::arithmetic::power2::lemma2_to64();
    if n >= 2 * HIDDEN {
        let k = excess(n / 2);
        excess_leaves_a_significand(n / 2);
        vstd::arithmetic::power2::lemma_pow2_unfold(k + 1);
        vstd::arithmetic::power2::lemma_pow2_pos(k);
        let p = vstd::arithmetic::power2::pow2(k);
        vstd::arithmetic::div_mod::lemma_div_denominator(n as int, 2, p as int);
    } else {
        assert(n as int / 1 == n);
    }
}

/// For finite scores, a fixture gains exactly where its score is larger than before, and loses
/// exactly where it is smaller: rounding never hides a movement.
pub proof fn a_gain_is_a_larger_score(m: Movement)
    requires
        m.was.finite(),
        m.now.finite(),
    ensures
        (Float { bits: 0 }).less(m.gain()) == m.was.less(m.now),
        m.gain().less(Float { bits: 0 }) == m.now.less(m.was),
{
    reveal(sum);
    zero_units();
    let exact = m.now.units() - m.was.units();
    assert(opposite(m.was).units() == -m.was.units());
    if exact != 0 {
        let n = if exact < 0 {
            (-exact) as nat
        } else {
            exact as nat
        };
        a_nonzero_number_does_not_round_to_zero(n);
        let mag = nearest(n, 1);
        crate::binary64::magnitudes_are_ordered(0, mag);
    } else {
        reveal(magnitude_units);
    }
}

/// A fixture that both runs scored counts as unchanged only where its net R is the same number, a
/// trade was taken in both or in neither, and all five counters are the same. Where a trade is taken
/// in only one, that is what changed; else where the net R differs, that is, whatever the counters.
pub proof fn an_unchanged_fixture_agrees_in_everything(o: BaselineEntry, n: BaselineEntry)
    ensures
        ({
            let same_r = !o.net_r.nan() && !n.net_r.nan() && o.net_r.units() == n.net_r.units();
            let same_exits = o.tp_hits == n.tp_hits && o.sl_hits == n.sl_hits && o.reversal_closes
                == n.reversal_closes && o.expiry_closes == n.expiry_closes && o.invalidation_closes
                == n.invalidation_closes;
            let kind = change_of(o, n);
            &&& kind is None <==> o.taken == n.taken && same_r && same_exits
            &&& kind == Some(MoveKind::Entered) <==> n.taken && !o.taken
            &&& kind == Some(MoveKind::Stopped) <==> o.taken && !n.taken
            &&& kind == Some(MoveKind::Requantified) <==> o.taken == n.taken && !same_r
            &&& kind == Some(MoveKind::Reshaped) <==> o.taken == n.taken && same_r && !same_exits
        }),
{
}

/// A fixture counts as unchanged in a comparison exactly where it is in both and agrees in
/// everything.
pub proof fn the_unchanged_are_those_without_a_movement(
    base: Seq<NamedEntry>,
    fresh: Seq<NamedEntry>,
)
    ensures
        unchanged_in(base, fresh) == base.filter(
            |e: NamedEntry|
                entry_named(fresh, e.name@) is Some && change_of(
                    e.entry,
                    entry_named(fresh, e.name@)->0,
                ) is None,
        ).len(),
    decreases base.len(),
{
    reveal(Seq::filter);
    if base.len() > 0 {
        the_unchanged_are_those_without_a_movement(base.drop_last(), fresh);
    }
}

/// A version is shared exactly where some row is ok and all that are record it. There is none where
/// no row is ok, one that is records none, or two record different ones.
pub proof fn a_shared_version_is_every_rows(rows: Seq<BatchResult>, version: Option<String>)
    requires
        shared_version(rows, version),
    ensures
        version matches Some(v) ==> {
            &&& exists|i: int| 0 <= i < rows.len() && (#[trigger] rows[i]).ok
            &&& forall|i: int|
                0 <= i < rows.len() && (#[trigger] rows[i]).ok ==> {
                    &&& rows[i].arm is Some && rows[i].arm->0.engine_version is Some
                    &&& rows[i].arm->0.engine_version->0@ == v@
                }
        },
        version is None ==> forall|i: int|
            {
                &&& 0 <= i < rows.len()
                &&& (#[trigger] rows[i]).ok
                &&& rows[i].arm is Some && rows[i].arm->0.engine_version is Some
            } ==> exists|j: int|
                {
                    &&& 0 <= j < rows.len()
                    &&& (#[trigger] rows[j]).ok
                    &&& rows[j].arm is None || rows[j].arm->0.engine_version is None
                        || rows[j].arm->0.engine_version->0@ != rows[i].arm->0.engine_version->0@
                },
{
    if version is None {
        assert forall|i: int|
            {
                &&& 0 <= i < rows.len()
                &&& (#[trigger] rows[i]).ok
                &&& rows[i].arm is Some && rows[i].arm->0.engine_version is Some
            } implies exists|j: int|
            {
                &&& 0 <= j < rows.len()
                &&& (#[trigger] rows[j]).ok
                &&& rows[j].arm is None || rows[j].arm->0.engine_version is None
                    || rows[j].arm->0.engine_version->0@ != rows[i].arm->0.engine_version->0@
            } by {
            let v = rows[i].arm->0.engine_version->0@;
            assert(!agreed(rows, v));
            let j = choose|j: int|
                0 <= j < rows.len() && (#[trigger] rows[j]).ok && !(row_version(rows[j]) matches Some(
                    w,
                ) && w@ == v);
            assert(rows[j].ok);
        }
    }
}

} // verus!
