//! The check harness around the checkers: run options, cache events, the
//! ranking of statuses for the three-point evaluation of open parameters, the
//! decisions of the interval narrowing, and the selection of results.
use vstd::prelude::*;
use crate::status::CheckStatus;
use crate::text::{lex_lt, str_eq, string_views};

verus! {

broadcast use vstd::seq_lib::group_seq_properties;

/// Cache settings: `cache_dir == None` disables the cache (`--no-cache`).
#[derive(Clone, Debug)]
pub struct CheckOptions {
    pub cache_dir: Option<String>,
}

/// Cache events (for logs and tests; not part of the canonical output).
#[derive(Clone, Debug)]
pub enum CacheEvent {
    PartHit(String),
    PartCompiled(String),
    ResultHit(String),
    ResultComputed(String),
}

/// The log line of a cache event (shown with `--verbose`):
/// `cache<TAB>part:<id><TAB>hit` and the like.
pub open spec fn spec_cache_event_line(e: CacheEvent) -> Seq<char> {
    match e {
        CacheEvent::PartHit(id) => "cache\tpart:"@ + id@ + "\thit"@,
        CacheEvent::PartCompiled(id) => "cache\tpart:"@ + id@ + "\tcompiled"@,
        CacheEvent::ResultHit(id) => "cache\tresult:"@ + id@ + "\thit"@,
        CacheEvent::ResultComputed(id) => "cache\tresult:"@ + id@ + "\tcomputed"@,
    }
}

pub fn cache_event_line(e: &CacheEvent) -> (r: String)
    ensures
        r@ == spec_cache_event_line(*e),
{
    let (head, id, tail) = match e {
        CacheEvent::PartHit(id) => ("cache\tpart:", id, "\thit"),
        CacheEvent::PartCompiled(id) => ("cache\tpart:", id, "\tcompiled"),
        CacheEvent::ResultHit(id) => ("cache\tresult:", id, "\thit"),
        CacheEvent::ResultComputed(id) => ("cache\tresult:", id, "\tcomputed"),
    };
    let r = head.to_owned();
    let r = r.concat(id.as_str());
    r.concat(tail)
}

/// Checker of the bounding box of a part.
#[derive(Clone, Copy, Debug)]
pub struct BoundingBoxChecker;

/// Checker of the minimum distance between two parts or anchored faces.
#[derive(Clone, Copy, Debug)]
pub struct ClearanceChecker;

/// Checker that no two placed instances overlap.
#[derive(Clone, Copy, Debug)]
pub struct NoInterferenceChecker;

impl BoundingBoxChecker {
    pub fn id(&self) -> (r: &'static str)
        ensures
            r@ == "bounding_box"@,
    {
        "bounding_box"
    }
}

impl ClearanceChecker {
    pub fn id(&self) -> (r: &'static str)
        ensures
            r@ == "clearance"@,
    {
        "clearance"
    }
}

impl NoInterferenceChecker {
    pub fn id(&self) -> (r: &'static str)
        ensures
            r@ == "no_interference"@,
    {
        "no_interference"
    }
}

/// How bad a status is: Fail > Inconclusive > Pass.
pub open spec fn spec_status_rank(s: CheckStatus) -> u8 {
    match s {
        CheckStatus::Fail => 2,
        CheckStatus::Inconclusive { .. } => 1,
        CheckStatus::Pass => 0,
    }
}

/// How bad a status is: Fail (2) > Inconclusive (1) > Pass (0).
pub fn status_rank(s: &CheckStatus) -> (r: u8)
    ensures
        r == spec_status_rank(*s),
{
    match s {
        CheckStatus::Fail => 2,
        CheckStatus::Inconclusive { .. } => 1,
        CheckStatus::Pass => 0,
    }
}

pub open spec fn spec_status_label(s: CheckStatus) -> Seq<char> {
    match s {
        CheckStatus::Pass => "pass"@,
        CheckStatus::Fail => "fail"@,
        CheckStatus::Inconclusive { .. } => "inconclusive"@,
    }
}

/// The lowercase status name used to filter evidence ("pass", "fail",
/// "inconclusive").
pub fn status_label(s: &CheckStatus) -> (r: &'static str)
    ensures
        r@ == spec_status_label(*s),
{
    match s {
        CheckStatus::Pass => "pass",
        CheckStatus::Fail => "fail",
        CheckStatus::Inconclusive { .. } => "inconclusive",
    }
}

/// Which end of an open parameter's interval the narrowing searches from.
#[derive(Clone, Copy, Debug, PartialEq, Eq, Structural)]
pub enum FailEnd {
    Lo,
    Hi,
}

/// The narrowing searches an axis only when the nominal sample passes and
/// exactly one end of the interval fails.
pub open spec fn spec_narrow_target(lo: CheckStatus, nominal: CheckStatus, hi: CheckStatus) -> Option<
    FailEnd,
> {
    if !(nominal is Pass) {
        None
    } else if lo is Fail && !(hi is Fail) {
        Some(FailEnd::Lo)
    } else if !(lo is Fail) && hi is Fail {
        Some(FailEnd::Hi)
    } else {
        None
    }
}

/// The end of the interval to narrow from, if the axis fails on one side only.
pub fn narrow_target(lo: &CheckStatus, nominal: &CheckStatus, hi: &CheckStatus) -> (r: Option<
    FailEnd,
>)
    ensures
        r == spec_narrow_target(*lo, *nominal, *hi),
{
    let nominal_pass = match nominal {
        CheckStatus::Pass => true,
        _ => false,
    };
    if !nominal_pass {
        return None;
    }
    let lo_fail = match lo {
        CheckStatus::Fail => true,
        _ => false,
    };
    let hi_fail = match hi {
        CheckStatus::Fail => true,
        _ => false,
    };
    if lo_fail && !hi_fail {
        Some(FailEnd::Lo)
    } else if !lo_fail && hi_fail {
        Some(FailEnd::Hi)
    } else {
        None
    }
}

/// Law (narrowing target): with a failing or inconclusive nominal sample
/// nothing is narrowed; with a passing nominal, the axis is narrowed from the
/// lower end exactly when only the lower end fails, from the upper end
/// exactly when only the upper end fails (an inconclusive end does not
/// fail), and not at all when both or neither end fails.
pub proof fn law_narrow_from_the_failing_end(
    lo: CheckStatus,
    nominal: CheckStatus,
    hi: CheckStatus,
    r: Option<FailEnd>,
)
    requires
        r == spec_narrow_target(lo, nominal, hi),
    ensures
        !(nominal is Pass) ==> r is None,
        nominal is Pass && lo is Fail && !(hi is Fail) ==> r == Some(FailEnd::Lo),
        nominal is Pass && hi is Fail && !(lo is Fail) ==> r == Some(FailEnd::Hi),
        lo is Fail && hi is Fail ==> r is None,
        !(lo is Fail) && !(hi is Fail) ==> r is None,
        r == Some(FailEnd::Lo) ==> nominal is Pass && lo is Fail && !(hi is Fail),
        r == Some(FailEnd::Hi) ==> nominal is Pass && hi is Fail && !(lo is Fail),
{
}

/// Law (bisection): a failing midpoint moves the failing bound, a passing
/// midpoint moves the passing bound, and anything else (inconclusive or no
/// result) stops the search.
pub proof fn law_bisection_moves_by_the_midpoint(midpoint: Option<&CheckStatus>, r: BisectStep)
    requires
        r == spec_bisect_step(midpoint),
    ensures
        (r == BisectStep::MoveBad) <==> (midpoint matches Some(s) && s is Fail),
        (r == BisectStep::MoveGood) <==> (midpoint matches Some(s) && s is Pass),
        (r == BisectStep::Stop) <==> (midpoint is None || (midpoint matches Some(s) && s is Inconclusive)),
{
}

/// Law (badness of statuses): a failure ranks above an inconclusive result,
/// which ranks above a pass; the labels are `fail`, `inconclusive` and
/// `pass`, all different.
pub proof fn law_status_rank_and_label(reason: String)
    ensures
        spec_status_rank(CheckStatus::Fail) > spec_status_rank(CheckStatus::Inconclusive { reason }),
        spec_status_rank(CheckStatus::Inconclusive { reason }) > spec_status_rank(CheckStatus::Pass),
        spec_status_label(CheckStatus::Pass) == "pass"@,
        spec_status_label(CheckStatus::Fail) == "fail"@,
        spec_status_label(CheckStatus::Inconclusive { reason }) == "inconclusive"@,
{
}

/// What one bisection step does with the status at the midpoint.
#[derive(Clone, Copy, Debug, PartialEq, Eq, Structural)]
pub enum BisectStep {
    /// the midpoint fails: it becomes the failing bound
    MoveBad,
    /// the midpoint passes: it becomes the passing bound
    MoveGood,
    /// inconclusive (or missing): stop and keep the passing bound
    Stop,
}

/// Next bisection step from the status at the midpoint.
pub open spec fn spec_bisect_step(midpoint: Option<&CheckStatus>) -> BisectStep {
    match midpoint {
        Some(CheckStatus::Fail) => BisectStep::MoveBad,
        Some(CheckStatus::Pass) => BisectStep::MoveGood,
        _ => BisectStep::Stop,
    }
}

pub fn bisect_step(midpoint: Option<&CheckStatus>) -> (r: BisectStep)
    ensures
        r == spec_bisect_step(midpoint),
{
    match midpoint {
        Some(CheckStatus::Fail) => BisectStep::MoveBad,
        Some(CheckStatus::Pass) => BisectStep::MoveGood,
        _ => BisectStep::Stop,
    }
}

/// `v` holds the string `x`.
pub open spec fn contains_str(v: Seq<String>, x: Seq<char>) -> bool {
    exists|i: int| 0 <= i < v.len() && (#[trigger] v[i])@ == x
}

fn vec_has_str(v: &Vec<String>, x: &str) -> (r: bool)
    ensures
        r == contains_str(v@, x@),
{
    let mut i: usize = 0;
    while i < v.len()
        invariant
            i <= v@.len(),
            forall|j: int| 0 <= j < i ==> (#[trigger] v@[j])@ != x@,
        decreases v@.len() - i,
    {
        if str_eq(v[i].as_str(), x) {
            return true;
        }
        i = i + 1;
    }
    false
}

/// Positions `0..ids.len()` in ascending order whose id is in `filter`
/// (`--filter` / the `filter` argument keep these results).
pub fn filter_positions(ids: &Vec<String>, filter: &Vec<String>) -> (r: Vec<usize>)
    ensures
        forall|k: int| 0 <= k < r@.len() ==> #[trigger] r@[k] < ids@.len(),
        forall|k: int, l: int| 0 <= k < l < r@.len() ==> #[trigger] r@[k] < #[trigger] r@[l],
        forall|i: int|
            0 <= i < ids@.len() ==> (r@.contains(i as usize) <==> contains_str(
                filter@,
                (#[trigger] ids@[i])@,
            )),
{
    let mut r: Vec<usize> = Vec::new();
    let mut i: usize = 0;
    while i < ids.len()
        invariant
            i <= ids@.len(),
            forall|k: int| 0 <= k < r@.len() ==> #[trigger] r@[k] < i,
            forall|k: int, l: int| 0 <= k < l < r@.len() ==> #[trigger] r@[k] < #[trigger] r@[l],
            forall|j: int|
                0 <= j < i ==> (r@.contains(j as usize) <==> contains_str(
                    filter@,
                    (#[trigger] ids@[j])@,
                )),
        decreases ids@.len() - i,
    {
        let ghost old_r = r@;
        if vec_has_str(filter, ids[i].as_str()) {
            r.push(i);
        }
        proof {
            assert forall|j: int| 0 <= j <= i implies (r@.contains(j as usize) <==> contains_str(
                filter@,
                (#[trigger] ids@[j])@,
            )) by {
                if j < i {
                    if r@.contains(j as usize) {
                        let k = choose|k: int| 0 <= k < r@.len() && r@[k] == j as usize;
                        if k == old_r.len() {
                        } else {
                            assert(old_r[k] == j as usize);
                        }
                    }
                    if old_r.contains(j as usize) {
                        let k = choose|k: int| 0 <= k < old_r.len() && old_r[k] == j as usize;
                        assert(r@[k] == j as usize);
                    }
                } else {
                    if r@.contains(j as usize) {
                        let k = choose|k: int| 0 <= k < r@.len() && r@[k] == j as usize;
                        if k < old_r.len() {
                            assert(old_r[k] < i);
                        }
                    }
                    if contains_str(filter@, ids@[j]@) {
                        assert(r@[old_r.len() as int] == j as usize);
                    }
                }
            }
        }
        i = i + 1;
    }
    r
}

/// Keep result `i` for an evidence query: its assertion id is the requested
/// one (if any) and its status label the requested one (if any).
pub open spec fn evidence_wanted(
    id: Seq<char>,
    s: CheckStatus,
    assert_id: Option<Seq<char>>,
    status: Option<Seq<char>>,
) -> bool {
    &&& assert_id matches Some(a) ==> id == a
    &&& status matches Some(l) ==> spec_status_label(s) == l
}

pub open spec fn opt_view(o: Option<&str>) -> Option<Seq<char>> {
    match o {
        Some(s) => Some(s@),
        None => None,
    }
}

/// Positions of the results that an evidence query keeps, in ascending order.
pub fn evidence_positions(
    ids: &Vec<String>,
    statuses: &Vec<CheckStatus>,
    assert_id: Option<&str>,
    status: Option<&str>,
) -> (r: Vec<usize>)
    requires
        ids@.len() == statuses@.len(),
    ensures
        forall|k: int| 0 <= k < r@.len() ==> #[trigger] r@[k] < ids@.len(),
        forall|k: int, l: int| 0 <= k < l < r@.len() ==> #[trigger] r@[k] < #[trigger] r@[l],
        forall|i: int|
            0 <= i < ids@.len() ==> (r@.contains(i as usize) <==> evidence_wanted(
                (#[trigger] ids@[i])@,
                statuses@[i],
                opt_view(assert_id),
                opt_view(status),
            )),
{
    let mut r: Vec<usize> = Vec::new();
    let mut i: usize = 0;
    while i < ids.len()
        invariant
            i <= ids@.len(),
            ids@.len() == statuses@.len(),
            forall|k: int| 0 <= k < r@.len() ==> #[trigger] r@[k] < i,
            forall|k: int, l: int| 0 <= k < l < r@.len() ==> #[trigger] r@[k] < #[trigger] r@[l],
            forall|j: int|
                0 <= j < i ==> (r@.contains(j as usize) <==> evidence_wanted(
                    (#[trigger] ids@[j])@,
                    statuses@[j],
                    opt_view(assert_id),
                    opt_view(status),
                )),
        decreases ids@.len() - i,
    {
        let id_ok = match assert_id {
            Some(a) => str_eq(ids[i].as_str(), a),
            None => true,
        };
        let status_ok = match status {
            Some(l) => str_eq(status_label(&statuses[i]), l),
            None => true,
        };
        let ghost old_r = r@;
        if id_ok && status_ok {
            r.push(i);
        }
        proof {
            assert forall|j: int| 0 <= j <= i implies (r@.contains(j as usize) <==> evidence_wanted(
                (#[trigger] ids@[j])@,
                statuses@[j],
                opt_view(assert_id),
                opt_view(status),
            )) by {
                if j < i {
                    if r@.contains(j as usize) {
                        let k = choose|k: int| 0 <= k < r@.len() && r@[k] == j as usize;
                        if k == old_r.len() {
                        } else {
                            assert(old_r[k] == j as usize);
                        }
                    }
                    if old_r.contains(j as usize) {
                        let k = choose|k: int| 0 <= k < old_r.len() && old_r[k] == j as usize;
                        assert(r@[k] == j as usize);
                    }
                } else {
                    if r@.contains(j as usize) {
                        let k = choose|k: int| 0 <= k < r@.len() && r@[k] == j as usize;
                        if k < old_r.len() {
                            assert(old_r[k] < i);
                        }
                    }
                    if id_ok && status_ok {
                        assert(r@[old_r.len() as int] == j as usize);
                    }
                }
            }
        }
        i = i + 1;
    }
    r
}

} // verus!

verus! {

/// The pairs `(v[i], v[j])` for `i < j`, by `i` and then by `j`.
pub open spec fn pairs_from(v: Seq<Seq<char>>, i: int) -> Seq<(Seq<char>, Seq<char>)>
    decreases v.len() - i,
{
    if i < 0 || i >= v.len() {
        Seq::empty()
    } else {
        Seq::new((v.len() - i - 1) as nat, |k: int| (v[i], v[i + 1 + k])) + pairs_from(v, i + 1)
    }
}

/// Every pair of distinct positions of `v`, in order (`NoInterference` over
/// the whole assembly: each pair of instances' parts once).
pub open spec fn spec_all_pairs(v: Seq<Seq<char>>) -> Seq<(Seq<char>, Seq<char>)> {
    pairs_from(v, 0)
}

pub open spec fn pair_views(p: Seq<(String, String)>) -> Seq<(Seq<char>, Seq<char>)> {
    p.map_values(|x: (String, String)| (x.0@, x.1@))
}

/// The pairs of parts that `NoInterference` over the whole assembly checks:
/// `(parts[i], parts[j])` for every `i < j`.
pub fn all_pairs(parts: &Vec<String>) -> (r: Vec<(String, String)>)
    ensures
        pair_views(r@) == spec_all_pairs(string_views(parts@)),
{
    let ghost v = string_views(parts@);
    let ghost mut done: Seq<(Seq<char>, Seq<char>)> = Seq::empty();
    let mut r: Vec<(String, String)> = Vec::new();
    let n = parts.len();
    let mut i: usize = 0;
    while i < n
        invariant
            n == parts@.len(),
            v == string_views(parts@),
            i <= n,
            pair_views(r@) == done,
            spec_all_pairs(v) == done + pairs_from(v, i as int),
        decreases n - i,
    {
        let ghost row = Seq::new((v.len() - i - 1) as nat, |k: int| (v[i as int], v[i + 1 + k]));
        proof {
            assert(pairs_from(v, i as int) == row + pairs_from(v, i + 1));
        }
        let mut j: usize = i + 1;
        while j < n
            invariant
                n == parts@.len(),
                v == string_views(parts@),
                i < n,
                i + 1 <= j <= n,
                row == Seq::new((v.len() - i - 1) as nat, |k: int| (v[i as int], v[i + 1 + k])),
                pair_views(r@) == done + row.take(j - i - 1),
            decreases n - j,
        {
            let ghost old_r = r@;
            let p = (parts[i].clone(), parts[j].clone());
            r.push(p);
            proof {
                assert(v[i as int] == parts@[i as int]@);
                assert(v[j as int] == parts@[j as int]@);
                assert(pair_views(r@) =~= pair_views(old_r).push((p.0@, p.1@)));
                assert(row.take(j - i) =~= row.take(j - i - 1).push(row[j - i - 1]));
                assert(pair_views(r@) =~= done + row.take(j - i));
            }
            j = j + 1;
        }
        proof {
            assert(row.take(j - i - 1) =~= row);
            assert(done + row + pairs_from(v, i + 1) =~= done + (row + pairs_from(v, i + 1)));
            done = done + row;
        }
        i = i + 1;
    }
    proof {
        assert(done + pairs_from(v, i as int) =~= done);
    }
    r
}

} // verus!

verus! {

/// `r` orders positions `0..ids.len()` by id, equal ids in their input
/// order (the stable sort by assertion id of the results).
pub open spec fn is_stable_order(ids: Seq<Seq<char>>, r: Seq<usize>) -> bool {
    &&& r.len() == ids.len()
    &&& r.no_duplicates()
    &&& forall|k: int| 0 <= k < r.len() ==> #[trigger] r[k] < ids.len()
    &&& forall|a: int, b: int|
        0 <= a < b < r.len() ==> !lex_lt(ids[#[trigger] r[b] as int], ids[#[trigger] r[a] as int])
    &&& forall|a: int, b: int|
        0 <= a < b < r.len() && ids[#[trigger] r[a] as int] == ids[#[trigger] r[b] as int] ==> r[a]
            < r[b]
}

/// The positions of `ids` in stable ascending order of id.
pub fn stable_order(ids: &Vec<String>) -> (r: Vec<usize>)
    ensures
        is_stable_order(string_views(ids@), r@),
{
    let ghost v = string_views(ids@);
    let n = ids.len();
    let mut r: Vec<usize> = Vec::new();
    let mut i: usize = 0;
    while i < n
        invariant
            n == ids@.len(),
            v == string_views(ids@),
            i <= n,
            r@.len() == i,
            r@.no_duplicates(),
            forall|k: int| 0 <= k < r@.len() ==> #[trigger] r@[k] < i,
            forall|a: int, b: int|
                0 <= a < b < r@.len() ==> !lex_lt(v[#[trigger] r@[b] as int], v[#[trigger] r@[a] as int]),
            forall|a: int, b: int|
                0 <= a < b < r@.len() && v[#[trigger] r@[a] as int] == v[#[trigger] r@[b] as int]
                    ==> r@[a] < r@[b],
        decreases n - i,
    {
        let vi = crate::text::chars_of(ids[i].as_str());
        assert(vi@ == v[i as int]);
        let mut p: usize = 0;
        while p < r.len() && !crate::text::lex_less(
            vi.as_slice(),
            crate::text::chars_of(ids[r[p]].as_str()).as_slice(),
        )
            invariant
                n == ids@.len(),
                v == string_views(ids@),
                i < n,
                vi@ == v[i as int],
                p <= r@.len(),
                forall|k: int| 0 <= k < r@.len() ==> #[trigger] r@[k] < i,
                forall|a: int| 0 <= a < p ==> !lex_lt(vi@, v[#[trigger] r@[a] as int]),
            decreases r@.len() - p,
        {
            p = p + 1;
        }
        let ghost old_r = r@;
        proof {
            if p < old_r.len() {
                assert(lex_lt(vi@, v[old_r[p as int] as int]));
            }
        }
        r.insert(p, i);
        proof {
            assert(r@ =~= old_r.insert(p as int, i));
            assert forall|a: int, b: int| 0 <= a < b < r@.len() implies !lex_lt(
                v[#[trigger] r@[b] as int],
                v[#[trigger] r@[a] as int],
            ) by {
                if b < p {
                } else if b == p {
                    assert(!lex_lt(vi@, v[old_r[a] as int]));
                } else if a == p {
                    let x = v[old_r[b - 1] as int];
                    if b - 1 > p {
                        // vi < old[p] <= old[b-1]
                        crate::text::lemma_lex_total(v[old_r[p as int] as int], x);
                        if lex_lt(x, vi@) {
                            crate::text::lemma_lex_transitive(x, vi@, v[old_r[p as int] as int]);
                        }
                    }
                    crate::text::lemma_lex_asymmetric(vi@, x);
                    if lex_lt(x, vi@) {
                        if b - 1 == p {
                            crate::text::lemma_lex_asymmetric(vi@, x);
                        } else {
                            crate::text::lemma_lex_total(v[old_r[p as int] as int], x);
                            if v[old_r[p as int] as int] == x {
                                crate::text::lemma_lex_asymmetric(vi@, x);
                            } else if lex_lt(x, v[old_r[p as int] as int]) {
                            } else {
                                crate::text::lemma_lex_transitive(vi@, v[old_r[p as int] as int], x);
                                crate::text::lemma_lex_asymmetric(vi@, x);
                            }
                        }
                    }
                } else if a < p {
                    if b - 1 >= 0 {
                        let y = v[old_r[a] as int];
                        let x = v[old_r[b - 1] as int];
                        if a < b - 1 {
                            assert(!lex_lt(x, y));
                        }
                    }
                } else {
                }
            }
            assert forall|a: int, b: int|
                0 <= a < b < r@.len() && v[#[trigger] r@[a] as int] == v[#[trigger] r@[b] as int]
                    implies r@[a] < r@[b] by {
                if b == p {
                    assert(old_r[a] < i);
                } else if a == p {
                    // an equal id after the new one would contradict the search
                    let x = v[old_r[b - 1] as int];
                    assert(x == vi@);
                    if b - 1 == p {
                        crate::text::lemma_lex_irreflexive(vi@);
                    } else {
                        assert(!lex_lt(x, v[old_r[p as int] as int]));
                        crate::text::lemma_lex_asymmetric(vi@, v[old_r[p as int] as int]);
                    }
                } else if a < p && b > p {
                    assert(old_r[a] == r@[a]);
                    assert(old_r[b - 1] == r@[b]);
                } else if b < p {
                } else {
                    assert(old_r[a - 1] == r@[a]);
                    assert(old_r[b - 1] == r@[b]);
                }
            }
            assert forall|x: int, y: int| 0 <= x < y < r@.len() implies r@[x] != r@[y] by {
                if x == p {
                    assert(old_r[y - 1] < i);
                } else if y == p {
                    assert(old_r[x] < i);
                } else if x < p && y > p {
                    assert(old_r[x] != old_r[y - 1]);
                } else if y < p {
                    assert(old_r[x] != old_r[y]);
                } else {
                    assert(old_r[x - 1] != old_r[y - 1]);
                }
            }
        }
        i = i + 1;
    }
    r
}

} // verus!

verus! {

/// The distinct values of `v` in ascending order (sort and dedup of the
/// parts that an assertion depends on).
pub fn sorted_unique(v: &Vec<String>) -> (r: Vec<String>)
    ensures
        crate::text::strictly_sorted(string_views(r@)),
        forall|y: Seq<char>|
            #[trigger] string_views(r@).contains(y) <==> string_views(v@).contains(y),
{
    let ghost sv = string_views(v@);
    let mut acc: Vec<Vec<char>> = Vec::new();
    let mut i: usize = 0;
    while i < v.len()
        invariant
            i <= v@.len(),
            sv == string_views(v@),
            crate::text::strictly_sorted(crate::text::views(acc@)),
            forall|y: Seq<char>|
                #[trigger] crate::text::views(acc@).contains(y) <==> sv.take(i as int).contains(y),
        decreases v@.len() - i,
    {
        let c = crate::text::chars_of(v[i].as_str());
        assert(c@ == sv[i as int]);
        crate::text::insert_sorted(&mut acc, c);
        proof {
            assert(sv.take(i + 1) =~= sv.take(i as int).push(sv[i as int]));
            assert forall|y: Seq<char>|
                #[trigger] crate::text::views(acc@).contains(y) <==> sv.take(i + 1).contains(y) by {
                assert(sv.take(i as int).push(sv[i as int]).contains(y) <==> (sv.take(
                    i as int,
                ).contains(y) || y == sv[i as int]));
            }
        }
        i = i + 1;
    }
    proof {
        assert(sv.take(i as int) =~= sv);
    }
    let mut r: Vec<String> = Vec::new();
    let mut k: usize = 0;
    while k < acc.len()
        invariant
            k <= acc@.len(),
            r@.len() == k,
            string_views(r@) == crate::text::views(acc@).take(k as int),
        decreases acc@.len() - k,
    {
        let s = crate::text::string_of(acc[k].as_slice());
        let ghost old_r = r@;
        r.push(s);
        proof {
            assert(string_views(r@) =~= crate::text::views(acc@).take(k + 1));
        }
        k = k + 1;
    }
    proof {
        assert(crate::text::views(acc@).take(k as int) =~= crate::text::views(acc@));
    }
    r
}


/// Law (evidence queries): with neither filter every result is kept; with an
/// assertion id only results of that id are kept; with a status label only
/// results whose status has that label (`pass`, `fail`, `inconclusive`).
pub proof fn law_evidence_filters(
    id: Seq<char>,
    s: CheckStatus,
    assert_id: Option<Seq<char>>,
    status: Option<Seq<char>>,
)
    ensures
        evidence_wanted(id, s, None, None),
        assert_id matches Some(a) && id != a ==> !evidence_wanted(id, s, assert_id, status),
        status == Some("fail"@) ==> (evidence_wanted(id, s, None, status) <==> s is Fail),
        status == Some("pass"@) ==> (evidence_wanted(id, s, None, status) <==> s is Pass),
        status == Some("inconclusive"@) ==> (evidence_wanted(id, s, None, status) <==> s is Inconclusive),
        evidence_wanted(id, s, Some(id), None),
{
    reveal_strlit("fail");
    reveal_strlit("pass");
    reveal_strlit("inconclusive");
    assert("fail"@[0] != "pass"@[0]);
    assert("fail"@ != "pass"@);
    assert("fail"@.len() != "inconclusive"@.len());
    assert("pass"@.len() != "inconclusive"@.len());
}

} // verus!
