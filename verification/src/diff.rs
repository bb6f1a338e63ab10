//! `adc diff` between two revisions of a design: which ids were added,
//! removed or changed (parameters by their value, assertions by their check
//! and rationale), listed once each in ascending id order, and the status
//! labels and worsening mark of the margin table.
use vstd::prelude::*;
use crate::status::CheckStatus;
use crate::text::{
    chars_eq, chars_of, insert_sorted, lex_lt, str_eq, string_of, string_views, strictly_sorted,
    views,
};

verus! {

broadcast use vstd::seq_lib::group_seq_properties;

/// How an id changed between the two revisions.
#[derive(Clone, Copy, Debug, PartialEq, Eq, Structural)]
pub enum Change {
    Added,
    Removed,
    Changed,
}

/// One line of the diff: the id, its change, and its text in each revision.
#[derive(Clone, Debug)]
pub struct EntryDiff {
    pub id: String,
    pub change: Change,
    pub old: Option<String>,
    pub new: Option<String>,
}

/// The ids of the diff lines.
pub open spec fn diff_ids(r: Seq<EntryDiff>) -> Seq<Seq<char>> {
    r.map_values(|d: EntryDiff| d.id@)
}

pub open spec fn pair_views(v: Seq<(String, String)>) -> Seq<(Seq<char>, Seq<char>)> {
    v.map_values(|p: (String, String)| (p.0@, p.1@))
}

/// The text of the first entry with this id (`iter().find`).
#[verifier::opaque]
pub open spec fn first_value(v: Seq<(Seq<char>, Seq<char>)>, id: Seq<char>) -> Option<Seq<char>>
    decreases v.len(),
{
    if v.len() == 0 {
        None
    } else if v[0].0 == id {
        Some(v[0].1)
    } else {
        first_value(v.drop_first(), id)
    }
}

/// Added when only the new revision has it, removed when only the old one
/// has it, changed when the texts differ; nothing when they are equal.
pub open spec fn classify(old: Option<Seq<char>>, new: Option<Seq<char>>) -> Option<Change> {
    match (old, new) {
        (None, Some(_)) => Some(Change::Added),
        (Some(_), None) => Some(Change::Removed),
        (Some(a), Some(b)) => if a != b {
            Some(Change::Changed)
        } else {
            None
        },
        (None, None) => None,
    }
}

pub open spec fn has_id(v: Seq<(Seq<char>, Seq<char>)>, id: Seq<char>) -> bool {
    exists|i: int| 0 <= i < v.len() && (#[trigger] v[i]).0 == id
}

pub open spec fn opt_view(o: Option<String>) -> Option<Seq<char>> {
    match o {
        Some(s) => Some(s@),
        None => None,
    }
}

proof fn lemma_first_value(v: Seq<(Seq<char>, Seq<char>)>, id: Seq<char>)
    ensures
        first_value(v, id) is Some <==> has_id(v, id),
    decreases v.len(),
{
    reveal(first_value);
    if v.len() > 0 {
        lemma_first_value(v.drop_first(), id);
        if has_id(v.drop_first(), id) {
            let i = choose|i: int| 0 <= i < v.drop_first().len() && (#[trigger] v.drop_first()[i]).0 == id;
            assert(v[i + 1].0 == id);
        }
        if has_id(v, id) && v[0].0 != id {
            let i = choose|i: int| 0 <= i < v.len() && (#[trigger] v[i]).0 == id;
            assert(v.drop_first()[i - 1].0 == id);
        }
    }
}

/// The text of the first entry with id `id`.
pub fn lookup_first(v: &Vec<(String, String)>, id: &str) -> (r: Option<String>)
    ensures
        opt_view(r) == first_value(pair_views(v@), id@),
{
    let ghost pv = pair_views(v@);
    let mut i: usize = 0;
    while i < v.len()
        invariant
            i <= v@.len(),
            pv == pair_views(v@),
            first_value(pv, id@) == first_value(pv.skip(i as int), id@),
        decreases v@.len() - i,
    {
        proof {
            reveal(first_value);
            assert(pv.skip(i as int)[0] == pv[i as int]);
            assert(pv.skip(i as int).drop_first() =~= pv.skip(i + 1));
        }
        if str_eq(v[i].0.as_str(), id) {
            return Some(v[i].1.clone());
        }
        i = i + 1;
    }
    proof {
        reveal(first_value);
        assert(pv.skip(i as int).len() == 0);
    }
    None
}

/// Adds the ids of `v` to the sorted id set.
fn add_ids(ids: &mut Vec<Vec<char>>, v: &Vec<(String, String)>)
    requires
        strictly_sorted(views(old(ids)@)),
    ensures
        strictly_sorted(views(final(ids)@)),
        forall|y: Seq<char>|
            #[trigger] views(final(ids)@).contains(y) <==> (views(old(ids)@).contains(y) || has_id(
                pair_views(v@),
                y,
            )),
{
    let ghost start = views(ids@);
    let ghost pv = pair_views(v@);
    let mut i: usize = 0;
    while i < v.len()
        invariant
            i <= v@.len(),
            pv == pair_views(v@),
            strictly_sorted(views(ids@)),
            forall|y: Seq<char>|
                #[trigger] views(ids@).contains(y) <==> (start.contains(y) || exists|j: int|
                    0 <= j < i && (#[trigger] pv[j]).0 == y),
        decreases v@.len() - i,
    {
        let c = chars_of(v[i].0.as_str());
        assert(pv[i as int].0 == c@);
        insert_sorted(ids, c);
        proof {
            assert forall|y: Seq<char>|
                #[trigger] views(ids@).contains(y) <==> (start.contains(y) || exists|j: int|
                    0 <= j < i + 1 && (#[trigger] pv[j]).0 == y) by {
                if exists|j: int| 0 <= j < i + 1 && (#[trigger] pv[j]).0 == y {
                    let j = choose|j: int| 0 <= j < i + 1 && (#[trigger] pv[j]).0 == y;
                    if j < i {
                        assert(exists|j: int| 0 <= j < i && (#[trigger] pv[j]).0 == y);
                    }
                }
            }
        }
        i = i + 1;
    }
}

/// The diff line of one id, if its texts differ.
fn diff_one(old: &Vec<(String, String)>, new: &Vec<(String, String)>, id: String) -> (r: Option<
    EntryDiff,
>)
    ensures
        match r {
            Some(d) => d.id@ == id@ && opt_view(d.old) == first_value(pair_views(old@), id@)
                && opt_view(d.new) == first_value(pair_views(new@), id@) && classify(
                opt_view(d.old),
                opt_view(d.new),
            ) == Some(d.change),
            None => classify(
                first_value(pair_views(old@), id@),
                first_value(pair_views(new@), id@),
            ) is None,
        },
{
    let o = lookup_first(old, id.as_str());
    let n = lookup_first(new, id.as_str());
    let change = match (&o, &n) {
        (None, Some(_)) => Some(Change::Added),
        (Some(_), None) => Some(Change::Removed),
        (Some(a), Some(b)) => if str_eq(a.as_str(), b.as_str()) {
            None
        } else {
            Some(Change::Changed)
        },
        (None, None) => None,
    };
    match change {
        Some(c) => Some(EntryDiff { id, change: c, old: o, new: n }),
        None => None,
    }
}

/// The diff of two revisions given as `(id, text)` entries: every id of
/// either revision whose texts differ, once, in ascending id order.
pub fn diff_entries(old: &Vec<(String, String)>, new: &Vec<(String, String)>) -> (r: Vec<EntryDiff>)
    ensures
        strictly_sorted(diff_ids(r@)),
        forall|k: int|
            0 <= k < r@.len() ==> {
                let d = #[trigger] r@[k];
                &&& opt_view(d.old) == first_value(pair_views(old@), d.id@)
                &&& opt_view(d.new) == first_value(pair_views(new@), d.id@)
                &&& classify(opt_view(d.old), opt_view(d.new)) == Some(d.change)
            },
        forall|y: Seq<char>|
            (has_id(pair_views(old@), y) || has_id(pair_views(new@), y)) && classify(
                first_value(pair_views(old@), y),
                first_value(pair_views(new@), y),
            ) is Some ==> exists|k: int| 0 <= k < r@.len() && (#[trigger] r@[k]).id@ == y,
{
    let mut ids: Vec<Vec<char>> = Vec::new();
    add_ids(&mut ids, old);
    add_ids(&mut ids, new);
    let ghost iv = views(ids@);
    let mut r: Vec<EntryDiff> = Vec::new();
    let mut k: usize = 0;
    while k < ids.len()
        invariant
            k <= ids@.len(),
            iv == views(ids@),
            strictly_sorted(iv),
            r@.len() > 0 ==> exists|j: int| 0 <= j < k && r@.last().id@ == #[trigger] iv[j],
            strictly_sorted(diff_ids(r@)),
            forall|a: int|
                0 <= a < r@.len() ==> {
                    let d = #[trigger] r@[a];
                    &&& opt_view(d.old) == first_value(pair_views(old@), d.id@)
                    &&& opt_view(d.new) == first_value(pair_views(new@), d.id@)
                    &&& classify(opt_view(d.old), opt_view(d.new)) == Some(d.change)
                },
            forall|j: int|
                0 <= j < k && classify(
                    first_value(pair_views(old@), iv[j]),
                    first_value(pair_views(new@), iv[j]),
                ) is Some ==> diff_ids(r@).contains(#[trigger] iv[j]),
        decreases ids@.len() - k,
    {
        let id = string_of(ids[k].as_slice());
        assert(id@ == iv[k as int]);
        let ghost old_r = r@;
        match diff_one(old, new, id) {
            Some(d) => {
                proof {
                    if old_r.len() > 0 {
                        let j = choose|j: int| 0 <= j < k && old_r.last().id@ == #[trigger] iv[j];
                        assert(lex_lt(iv[j], iv[k as int]));
                    }
                }
                r.push(d);
                proof {
                    assert(diff_ids(r@) =~= diff_ids(old_r).push(d.id@));
                    assert forall|a: int, b: int| 0 <= a < b < diff_ids(r@).len() implies lex_lt(
                        #[trigger] diff_ids(r@)[a],
                        #[trigger] diff_ids(r@)[b],
                    ) by {
                        if b == old_r.len() && a < b - 1 {
                            crate::text::lemma_lex_transitive(
                                diff_ids(old_r)[a],
                                diff_ids(old_r)[b - 1],
                                d.id@,
                            );
                        }
                    }
                    assert(r@.last().id@ == iv[k as int]);
                    assert forall|j: int|
                        0 <= j < k + 1 && classify(
                            first_value(pair_views(old@), iv[j]),
                            first_value(pair_views(new@), iv[j]),
                        ) is Some implies diff_ids(r@).contains(#[trigger] iv[j]) by {
                        if j < k {
                            assert(diff_ids(old_r).contains(iv[j]));
                        } else {
                            assert(diff_ids(r@)[old_r.len() as int] == iv[j]);
                        }
                    }
                }
            },
            None => {},
        }
        k = k + 1;
    }
    proof {
        assert forall|y: Seq<char>|
            (has_id(pair_views(old@), y) || has_id(pair_views(new@), y)) && classify(
                first_value(pair_views(old@), y),
                first_value(pair_views(new@), y),
            ) is Some implies exists|a: int| 0 <= a < r@.len() && (#[trigger] r@[a]).id@ == y by {
            assert(iv.contains(y));
            let j = choose|j: int| 0 <= j < iv.len() && iv[j] == y;
            assert(diff_ids(r@).contains(iv[j]));
            let a = choose|a: int| 0 <= a < diff_ids(r@).len() && diff_ids(r@)[a] == iv[j];
            assert(r@[a].id@ == y);
        }
    }
    r
}

/// The status label of the margin table: `Pass`, `Fail`, `Inconclusive(<reason>)`.
pub open spec fn spec_margin_status(s: CheckStatus) -> Seq<char> {
    match s {
        CheckStatus::Pass => "Pass"@,
        CheckStatus::Fail => "Fail"@,
        CheckStatus::Inconclusive { reason } => "Inconclusive("@ + reason@ + ")"@,
    }
}

pub fn margin_status_label(s: &CheckStatus) -> (r: String)
    ensures
        r@ == spec_margin_status(*s),
{
    match s {
        CheckStatus::Pass => "Pass".to_owned(),
        CheckStatus::Fail => "Fail".to_owned(),
        CheckStatus::Inconclusive { reason } => {
            let m = "Inconclusive(".to_owned();
            let m = m.concat(reason.as_str());
            m.concat(")")
        },
    }
}

/// An assertion got worse: it fails in the new revision and did not in the old.
pub fn worsened(old: &CheckStatus, new: &CheckStatus) -> (r: bool)
    ensures
        r == (new is Fail && !(old is Fail)),
{
    let new_fail = match new {
        CheckStatus::Fail => true,
        _ => false,
    };
    let old_fail = match old {
        CheckStatus::Fail => true,
        _ => false,
    };
    new_fail && !old_fail
}


pub open spec fn or_dash(o: Option<Seq<char>>) -> Seq<char> {
    match o {
        Some(t) => t,
        None => "-"@,
    }
}

/// A line of the text diff: `+ id: new`, `- id: old` or `~ id: old → new`
/// (a missing text shows as `-`).
pub open spec fn spec_diff_line(d: EntryDiff) -> Seq<char> {
    match d.change {
        Change::Added => "+ "@ + d.id@ + ": "@ + or_dash(opt_view(d.new)),
        Change::Removed => "- "@ + d.id@ + ": "@ + or_dash(opt_view(d.old)),
        Change::Changed => "~ "@ + d.id@ + ": "@ + or_dash(opt_view(d.old)) + " → "@ + or_dash(
            opt_view(d.new),
        ),
    }
}

fn text_or_dash(o: &Option<String>) -> (r: &str)
    ensures
        r@ == or_dash(opt_view(*o)),
{
    match o {
        Some(t) => t.as_str(),
        None => "-",
    }
}

pub fn diff_line(d: &EntryDiff) -> (r: String)
    ensures
        r@ == spec_diff_line(*d),
{
    let head = match d.change {
        Change::Added => "+ ",
        Change::Removed => "- ",
        Change::Changed => "~ ",
    };
    let r = head.to_owned();
    let r = r.concat(d.id.as_str());
    let r = r.concat(": ");
    match d.change {
        Change::Added => r.concat(text_or_dash(&d.new)),
        Change::Removed => r.concat(text_or_dash(&d.old)),
        Change::Changed => {
            let r = r.concat(text_or_dash(&d.old));
            let r = r.concat(" → ");
            r.concat(text_or_dash(&d.new))
        },
    }
}


/// Law (kinds of change): an id only in the new revision is added, only in
/// the old one removed, in both with different texts changed, and with the
/// same text (or in neither) not listed.
pub proof fn law_change_kinds(a: Seq<char>, b: Seq<char>)
    ensures
        classify(None, Some(b)) == Some(Change::Added),
        classify(Some(a), None) == Some(Change::Removed),
        a != b ==> classify(Some(a), Some(b)) == Some(Change::Changed),
        classify(Some(a), Some(a)) is None,
        classify(None, None) is None,
{
}


/// Law (lookup by id): the text of an id is that of its first entry; an id
/// without entries has none.
pub proof fn law_first_entry_wins(v: Seq<(Seq<char>, Seq<char>)>, id: Seq<char>)
    ensures
        first_value(v, id) is None <==> (forall|i: int| 0 <= i < v.len() ==> (#[trigger] v[i]).0 != id),
        first_value(v, id) matches Some(t) ==> exists|i: int|
            0 <= i < v.len() && v[i] == (id, t) && forall|j: int| 0 <= j < i ==> (#[trigger] v[j]).0 != id,
    decreases v.len(),
{
    reveal(first_value);
    if v.len() > 0 {
        let rest = v.drop_first();
        law_first_entry_wins(rest, id);
        if v[0].0 == id {
            assert(v[0] == (id, v[0].1));
        } else {
            assert forall|i: int| 1 <= i < v.len() implies v[i] == rest[i - 1] by {}
            if first_value(v, id) is None {
                assert forall|i: int| 0 <= i < v.len() implies (#[trigger] v[i]).0 != id by {
                    if i > 0 {
                        assert(rest[i - 1] == v[i]);
                    }
                }
            } else {
                let t = first_value(v, id)->0;
                let i = choose|i: int|
                    0 <= i < rest.len() && rest[i] == (id, t) && forall|j: int|
                        0 <= j < i ==> (#[trigger] rest[j]).0 != id;
                assert(v[i + 1] == (id, t));
                assert forall|j: int| 0 <= j < i + 1 implies (#[trigger] v[j]).0 != id by {
                    if j > 0 {
                        assert(rest[j - 1] == v[j]);
                    }
                }
            }
            if forall|i: int| 0 <= i < v.len() ==> (#[trigger] v[i]).0 != id {
                assert forall|i: int| 0 <= i < rest.len() implies (#[trigger] rest[i]).0 != id by {
                    assert(v[i + 1] == rest[i]);
                }
            }
        }
    }
}

} // verus!
