use vstd::prelude::*;

verus! {

/// Three-valued verdict of one assertion. `Inconclusive` (a check that could
/// not be carried out) is kept strictly apart from `Fail`.
#[derive(Clone, Debug)]
pub enum CheckStatus {
    Pass,
    Fail,
    Inconclusive { reason: String },
}

/// The process exit code for a run: 1 when any result fails, otherwise 2 when
/// any result is inconclusive, otherwise 0.
pub open spec fn spec_exit_code(s: Seq<CheckStatus>) -> u8 {
    if exists|i: int| 0 <= i < s.len() && s[i] is Fail {
        1
    } else if exists|i: int| 0 <= i < s.len() && s[i] is Inconclusive {
        2
    } else {
        0
    }
}

/// Exit code of `adc check`: 0 = all pass, 1 = at least one failure,
/// 2 = no failure but at least one inconclusive result.
pub fn exit_code(statuses: &[CheckStatus]) -> (code: u8)
    ensures
        code == spec_exit_code(statuses@),
{
    let mut any_fail = false;
    let mut any_inc = false;
    let mut i: usize = 0;
    while i < statuses.len()
        invariant
            0 <= i <= statuses@.len(),
            any_fail <==> exists|j: int| 0 <= j < i && statuses@[j] is Fail,
            any_inc <==> exists|j: int| 0 <= j < i && statuses@[j] is Inconclusive,
        decreases statuses@.len() - i,
    {
        match &statuses[i] {
            CheckStatus::Fail => {
                any_fail = true;
            },
            CheckStatus::Inconclusive { .. } => {
                any_inc = true;
            },
            CheckStatus::Pass => {},
        }
        i = i + 1;
    }
    if any_fail {
        1
    } else if any_inc {
        2
    } else {
        0
    }
}


/// Law (exit codes): a run exits with 0 exactly when every result passes,
/// with 1 exactly when some result fails, and with 2 exactly when no result
/// fails and some result is inconclusive; an inconclusive result is never
/// counted as a failure.
pub proof fn law_exit_code(s: Seq<CheckStatus>)
    ensures
        (spec_exit_code(s) == 0) <==> (forall|i: int| 0 <= i < s.len() ==> #[trigger] s[i] is Pass),
        (spec_exit_code(s) == 1) <==> (exists|i: int| 0 <= i < s.len() && #[trigger] s[i] is Fail),
        (spec_exit_code(s) == 2) <==> ((forall|i: int| 0 <= i < s.len() ==> !(#[trigger] s[i] is Fail))
            && exists|i: int| 0 <= i < s.len() && #[trigger] s[i] is Inconclusive),
        spec_exit_code(s) == 0 || spec_exit_code(s) == 1 || spec_exit_code(s) == 2,
{
    if forall|i: int| 0 <= i < s.len() ==> #[trigger] s[i] is Pass {
        assert(!exists|i: int| 0 <= i < s.len() && s[i] is Fail);
        assert(!exists|i: int| 0 <= i < s.len() && s[i] is Inconclusive);
    }
    if spec_exit_code(s) == 0 {
        assert forall|i: int| 0 <= i < s.len() implies #[trigger] s[i] is Pass by {
            if !(s[i] is Pass) {
                assert(s[i] is Fail || s[i] is Inconclusive);
            }
        }
    }
}

} // verus!
