//! What kind of failure a run ends with.
use vstd::prelude::*;

verus! {

/// What a driver can do about a failure.
#[derive(Clone, Copy, Debug, PartialEq, Eq, Structural)]
pub enum FailureKind {
    /// Something outside failed: try again.
    Infrastructure,
    /// The input is wrong: trying again fails again.
    BadInput,
    /// A golden does not match: a regression.
    CheckMismatch,
}

impl FailureKind {
    /// The code that the program exits with, which tells a driver what to do: try again, mend the
    /// input, or look into the regression.
    pub fn exit_code(self) -> (code: i32)
        ensures
            code == match self {
                FailureKind::Infrastructure => 3i32,
                FailureKind::BadInput => 4i32,
                FailureKind::CheckMismatch => 5i32,
            },
    {
        match self {
            FailureKind::Infrastructure => 3,
            FailureKind::BadInput => 4,
            FailureKind::CheckMismatch => 5,
        }
    }
}

/// Some failure is of this kind.
pub open spec fn some_kind(kinds: Seq<FailureKind>, kind: FailureKind) -> bool {
    exists|i: int| 0 <= i < kinds.len() && #[trigger] kinds[i] == kind
}

/// The one kind that mixed failures are reported as.
pub open spec fn overall_kind(kinds: Seq<FailureKind>) -> FailureKind {
    if some_kind(kinds, FailureKind::CheckMismatch) {
        FailureKind::CheckMismatch
    } else if some_kind(kinds, FailureKind::BadInput) {
        FailureKind::BadInput
    } else {
        FailureKind::Infrastructure
    }
}

/// The one kind that mixed failures are reported as: a mismatch is never masked by another
/// failure, and bad input not by one that could be tried again. Without a failure of either kind
/// it is the one that can be tried again.
pub fn aggregate_kind(kinds: &Vec<FailureKind>) -> (kind: FailureKind)
    ensures
        kind == overall_kind(kinds@),
{
    let mut bad_input: bool = false;
    let mut i: usize = 0;
    while i < kinds.len()
        invariant
            i <= kinds@.len(),
            bad_input == some_kind(kinds@.take(i as int), FailureKind::BadInput),
            !some_kind(kinds@.take(i as int), FailureKind::CheckMismatch),
        decreases kinds@.len() - i,
    {
        let ghost before = kinds@.take(i as int);
        let ghost now = kinds@.take(i + 1);
        assert(forall|j: int| 0 <= j < i ==> before[j] == now[j]);
        assert(now[i as int] == kinds@[i as int]);
        match kinds[i] {
            FailureKind::CheckMismatch => {
                assert(kinds@[i as int] == FailureKind::CheckMismatch);
                return FailureKind::CheckMismatch;
            },
            FailureKind::BadInput => {
                bad_input = true;
            },
            FailureKind::Infrastructure => {},
        }
        proof {
            if some_kind(before, FailureKind::BadInput) {
                let j = choose|j: int|
                    0 <= j < before.len() && #[trigger] before[j] == FailureKind::BadInput;
                assert(now[j] == FailureKind::BadInput);
            }
            if some_kind(now, FailureKind::BadInput) && kinds@[i as int] != FailureKind::BadInput {
                let j = choose|j: int|
                    0 <= j < now.len() && #[trigger] now[j] == FailureKind::BadInput;
                assert(before[j] == FailureKind::BadInput);
            }
            if some_kind(now, FailureKind::CheckMismatch) {
                let j = choose|j: int|
                    0 <= j < now.len() && #[trigger] now[j] == FailureKind::CheckMismatch;
                assert(before[j] == FailureKind::CheckMismatch);
            }
        }
        i = i + 1;
    }
    assert(kinds@.take(i as int) =~= kinds@);
    if bad_input {
        FailureKind::BadInput
    } else {
        FailureKind::Infrastructure
    }
}

/// More failures never hide a regression: once a mismatch is among them, the overall kind stays a
/// mismatch, and with bad input it is never one to try again.
pub proof fn more_failures_never_hide_a_worse_one(kinds: Seq<FailureKind>, more: FailureKind)
    ensures
        overall_kind(kinds) is CheckMismatch ==> overall_kind(kinds.push(more)) is CheckMismatch,
        overall_kind(kinds) is BadInput ==> !(overall_kind(kinds.push(more)) is Infrastructure),
{
    let all = kinds.push(more);
    if some_kind(kinds, FailureKind::CheckMismatch) {
        let i = choose|i: int|
            0 <= i < kinds.len() && #[trigger] kinds[i] == FailureKind::CheckMismatch;
        assert(all[i] == FailureKind::CheckMismatch);
    }
    if some_kind(kinds, FailureKind::BadInput) {
        let i = choose|i: int| 0 <= i < kinds.len() && #[trigger] kinds[i] == FailureKind::BadInput;
        assert(all[i] == FailureKind::BadInput);
    }
}

/// Failures are reported as a mismatch exactly where one of them is, as bad input where one of them
/// is and none is a mismatch, and else as something to try again.
pub proof fn the_worst_kind_is_reported(kinds: Seq<FailureKind>)
    ensures
        overall_kind(kinds) == FailureKind::CheckMismatch <==> kinds.contains(
            FailureKind::CheckMismatch,
        ),
        overall_kind(kinds) == FailureKind::BadInput <==> kinds.contains(FailureKind::BadInput)
            && !kinds.contains(FailureKind::CheckMismatch),
        overall_kind(kinds) == FailureKind::Infrastructure <==> forall|i: int|
            0 <= i < kinds.len() ==> #[trigger] kinds[i] == FailureKind::Infrastructure,
{
    if !some_kind(kinds, FailureKind::CheckMismatch) && !some_kind(kinds, FailureKind::BadInput) {
        assert forall|i: int| 0 <= i < kinds.len() implies #[trigger] kinds[i]
            == FailureKind::Infrastructure by {
            assert(kinds[i] != FailureKind::CheckMismatch && kinds[i] != FailureKind::BadInput);
        }
    }
}

} // verus!
