//! Patching the canonical design source: exact-match string edits that must
//! each match exactly once, an optimistic lock on the source's SHA-256, and
//! the decision whether a validated candidate is written.
use vstd::prelude::*;
use crate::digest::{sha256_hex, sha256_of, spec_hex_lower};
use crate::text::{chars_of, chars_eq, find, matches_at, occurs_at, spec_find, str_eq, string_of};

verus! {

broadcast use vstd::seq_lib::group_seq_properties;

/// One edit of `design_patch`: replace the unique occurrence of `old_string`.
#[derive(Clone, Debug)]
pub struct Edit {
    pub old_string: String,
    pub new_string: String,
}

/// Non-overlapping occurrences of the non-empty `pat` in `s` from `i` on,
/// taken left to right (`str::matches`).
pub open spec fn count_from(s: Seq<char>, pat: Seq<char>, i: int) -> nat
    decreases s.len() - i,
{
    if pat.len() == 0 || i < 0 || i + pat.len() > s.len() {
        0
    } else if occurs_at(s, pat, i) {
        1 + count_from(s, pat, i + pat.len())
    } else {
        count_from(s, pat, i + 1)
    }
}

/// Number of matches of `pat` in `s` (`s.matches(pat).count()`); the empty
/// pattern matches at every character boundary.
pub open spec fn spec_count_matches(s: Seq<char>, pat: Seq<char>) -> nat {
    if pat.len() == 0 {
        s.len() + 1
    } else {
        count_from(s, pat, 0)
    }
}

/// `s` with the first occurrence of `pat` (at `p`) replaced by `new`.
pub open spec fn replace_at(s: Seq<char>, pat: Seq<char>, new: Seq<char>, p: int) -> Seq<char> {
    s.take(p) + new + s.skip(p + pat.len())
}

/// The result of one edit: the source with the unique match replaced, or
/// the number of matches when it is not exactly one.
pub open spec fn spec_apply_edit(s: Seq<char>, pat: Seq<char>, new: Seq<char>) -> Result<
    Seq<char>,
    nat,
> {
    if spec_count_matches(s, pat) == 1 {
        Ok(replace_at(s, pat, new, spec_find(s, pat)->0))
    } else {
        Err(spec_count_matches(s, pat))
    }
}

/// Why an edit was refused: the index of the edit and how often its
/// `old_string` matched (0 = not found, more than 1 = ambiguous).
#[derive(Clone, Copy, Debug, PartialEq, Eq, Structural)]
pub struct EditError {
    pub edit_index: usize,
    pub occurrences: usize,
}

/// The views of the edits, as (old, new) pairs.
pub open spec fn edit_views(edits: Seq<Edit>) -> Seq<(Seq<char>, Seq<char>)> {
    edits.map_values(|e: Edit| (e.old_string@, e.new_string@))
}

/// Applies the edits in order, starting with edit number `from`; the first
/// edit that does not match exactly once stops it.
pub open spec fn spec_apply_edits_from(
    s: Seq<char>,
    edits: Seq<(Seq<char>, Seq<char>)>,
    from: int,
) -> Result<Seq<char>, (int, nat)>
    decreases edits.len() - from,
{
    if from < 0 || from >= edits.len() {
        Ok(s)
    } else {
        match spec_apply_edit(s, edits[from].0, edits[from].1) {
            Ok(t) => spec_apply_edits_from(t, edits, from + 1),
            Err(n) => Err((from, n)),
        }
    }
}

pub open spec fn spec_apply_edits(s: Seq<char>, edits: Seq<(Seq<char>, Seq<char>)>) -> Result<
    Seq<char>,
    (int, nat),
> {
    spec_apply_edits_from(s, edits, 0)
}

proof fn lemma_count_le(s: Seq<char>, pat: Seq<char>, i: int)
    requires
        0 <= i,
    ensures
        count_from(s, pat, i) <= s.len() + 1,
        pat.len() > 0 && i <= s.len() ==> count_from(s, pat, i) <= s.len() - i + 1,
    decreases s.len() - i,
{
    if pat.len() > 0 && i + pat.len() <= s.len() {
        if occurs_at(s, pat, i) {
            lemma_count_le(s, pat, i + pat.len());
        } else {
            lemma_count_le(s, pat, i + 1);
        }
    }
}

/// With at least one match, the first match lies at or after `i` and the
/// count from `i` equals the count from that match.
proof fn lemma_count_first(s: Seq<char>, pat: Seq<char>, i: int, p: int)
    requires
        pat.len() > 0,
        0 <= i <= p,
        occurs_at(s, pat, p),
        forall|j: int| i <= j < p ==> !occurs_at(s, pat, j),
    ensures
        count_from(s, pat, i) == count_from(s, pat, p),
    decreases p - i,
{
    if i < p {
        lemma_count_first(s, pat, i + 1, p);
    }
}

proof fn lemma_count_none(s: Seq<char>, pat: Seq<char>, i: int)
    requires
        pat.len() > 0,
        0 <= i,
        forall|j: int| i <= j ==> !occurs_at(s, pat, j),
    ensures
        count_from(s, pat, i) == 0,
    decreases s.len() - i,
{
    if i + pat.len() <= s.len() {
        lemma_count_none(s, pat, i + 1);
    }
}

/// A count as a `usize`, saturated at `usize::MAX`.
pub open spec fn saturate(n: nat) -> usize {
    if n > usize::MAX {
        usize::MAX
    } else {
        n as usize
    }
}

/// Number of matches of `pat` in `s` (saturated at `usize::MAX`).
pub fn count_matches(s: &[char], pat: &[char]) -> (n: usize)
    ensures
        n == saturate(spec_count_matches(s@, pat@)),
{
    if pat.len() == 0 {
        if s.len() == usize::MAX {
            return usize::MAX;
        }
        return s.len() + 1;
    }
    let mut count: usize = 0;
    let mut i: usize = 0;
    while i < s.len() && pat.len() <= s.len() - i
        invariant
            pat@.len() > 0,
            i <= s@.len(),
            count + count_from(s@, pat@, i as int) == count_from(s@, pat@, 0),
            count <= i,
        decreases s@.len() - i,
    {
        if matches_at(s, pat, i) {
            count = count + 1;
            i = i + pat.len();
        } else {
            i = i + 1;
        }
    }
    count
}

/// Applies one edit when `pat` matches exactly once; otherwise returns the
/// number of matches.
pub fn apply_edit(s: &[char], pat: &[char], new: &[char]) -> (r: Result<Vec<char>, usize>)
    ensures
        match r {
            Ok(t) => spec_apply_edit(s@, pat@, new@) == Ok::<Seq<char>, nat>(t@),
            Err(n) => spec_apply_edit(s@, pat@, new@) is Err && n == saturate(
                spec_apply_edit(s@, pat@, new@)->Err_0,
            ),
        },
{
    let n = count_matches(s, pat);
    if n != 1 {
        return Err(n);
    }
    match find(s, pat) {
        Some(p) => {
            proof {
                assert(occurs_at(s@, pat@, p as int));
                assert(spec_count_matches(s@, pat@) == 1);
            }
            let t = splice(s, p, pat.len(), new);
            assert(t@ == replace_at(s@, pat@, new@, p as int));
            assert(spec_find(s@, pat@)->0 == p as int);
            assert(spec_apply_edit(s@, pat@, new@) == Ok::<Seq<char>, nat>(t@));
            Ok(t)
        },
        None => {
            proof {
                if pat@.len() > 0 {
                    lemma_count_none(s@, pat@, 0);
                } else {
                    assert(s@.subrange(0, 0) =~= pat@);
                    assert(occurs_at(s@, pat@, 0));
                }
                assert(false);
            }
            Err(n)
        },
    }
}

/// `s[..p] + new + s[p + len..]`.
fn splice(s: &[char], p: usize, len: usize, new: &[char]) -> (t: Vec<char>)
    requires
        p + len <= s@.len(),
    ensures
        t@ == s@.take(p as int) + new@ + s@.skip(p + len),
{
    let mut t: Vec<char> = Vec::new();
    let mut k: usize = 0;
    while k < p
        invariant
            k <= p,
            p + len <= s@.len(),
            t@ == s@.take(k as int),
        decreases p - k,
    {
        t.push(s[k]);
        proof {
            assert(t@ =~= s@.take(k + 1));
        }
        k = k + 1;
    }
    let mut m: usize = 0;
    while m < new.len()
        invariant
            m <= new@.len(),
            t@ == s@.take(p as int) + new@.take(m as int),
        decreases new@.len() - m,
    {
        t.push(new[m]);
        proof {
            assert(t@ =~= s@.take(p as int) + new@.take(m + 1));
        }
        m = m + 1;
    }
    let slen = s.len();
    assert(p + len <= slen);
    let mut q: usize = p + len;
    while q < s.len()
        invariant
            p + len <= q <= s@.len(),
            t@ == s@.take(p as int) + new@ + s@.subrange(p + len, q as int),
        decreases s@.len() - q,
    {
        t.push(s[q]);
        proof {
            assert(t@ =~= s@.take(p as int) + new@ + s@.subrange(p + len, q + 1));
        }
        q = q + 1;
    }
    proof {
        assert(new@.take(new@.len() as int) =~= new@);
        assert(s@.subrange(p + len, s@.len() as int) =~= s@.skip(p + len));
    }
    t
}

/// Applies the edits in order; the first edit whose `old_string` does not
/// match exactly once refuses the whole patch.
pub fn apply_edits(source: &str, edits: &Vec<Edit>) -> (r: Result<String, EditError>)
    ensures
        match r {
            Ok(t) => spec_apply_edits(source@, edit_views(edits@)) == Ok::<Seq<char>, (int, nat)>(
                t@,
            ),
            Err(e) => spec_apply_edits(source@, edit_views(edits@)) is Err && e.edit_index
                == spec_apply_edits(source@, edit_views(edits@))->Err_0.0 && e.occurrences == saturate(
                spec_apply_edits(source@, edit_views(edits@))->Err_0.1,
            ),
        },
{
    let ghost ev = edit_views(edits@);
    let mut s = chars_of(source);
    let mut i: usize = 0;
    while i < edits.len()
        invariant
            ev == edit_views(edits@),
            i <= edits@.len(),
            spec_apply_edits(source@, ev) == spec_apply_edits_from(s@, ev, i as int),
        decreases edits@.len() - i,
    {
        let pat = chars_of(edits[i].old_string.as_str());
        let new = chars_of(edits[i].new_string.as_str());
        assert(ev[i as int] == (pat@, new@));
        match apply_edit(s.as_slice(), pat.as_slice(), new.as_slice()) {
            Ok(t) => {
                s = t;
            },
            Err(n) => {
                return Err(EditError { edit_index: i, occurrences: n });
            },
        }
        i = i + 1;
    }
    Ok(string_of(s.as_slice()))
}


proof fn lemma_first_occurrence(s: Seq<char>, pat: Seq<char>, i: int)
    requires
        occurs_at(s, pat, i),
    ensures
        exists|p: int| occurs_at(s, pat, p) && forall|j: int| 0 <= j < p ==> !occurs_at(s, pat, j),
    decreases i,
{
    if exists|j: int| 0 <= j < i && occurs_at(s, pat, j) {
        let j = choose|j: int| 0 <= j < i && occurs_at(s, pat, j);
        lemma_first_occurrence(s, pat, j);
    } else {
        assert(forall|j: int| 0 <= j < i ==> !occurs_at(s, pat, j));
    }
}

/// Law (one edit): an edit applies exactly when its old text matches once;
/// then the source becomes the text before the (first) match, the new text,
/// and the text after the match; otherwise it is refused with the number of
/// matches.
pub proof fn law_edit_replaces_the_unique_match(s: Seq<char>, pat: Seq<char>, new: Seq<char>)
    ensures
        (spec_apply_edit(s, pat, new) is Ok) <==> spec_count_matches(s, pat) == 1,
        spec_apply_edit(s, pat, new) matches Err(n) ==> n == spec_count_matches(s, pat) && n != 1,
        spec_apply_edit(s, pat, new) matches Ok(t) ==> exists|p: int|
            occurs_at(s, pat, p) && t == s.take(p) + new + s.skip(p + pat.len()),
        spec_count_matches(s, pat) == 0 ==> forall|p: int| !occurs_at(s, pat, p),
{
    if spec_count_matches(s, pat) == 1 {
        if pat.len() == 0 {
            assert(s.subrange(0, 0) =~= pat);
            assert(occurs_at(s, pat, 0));
            lemma_first_occurrence(s, pat, 0);
        } else {
            if forall|j: int| 0 <= j ==> !occurs_at(s, pat, j) {
                lemma_count_none(s, pat, 0);
            }
            let i = choose|j: int| 0 <= j && occurs_at(s, pat, j);
            lemma_first_occurrence(s, pat, i);
        }
        let p = spec_find(s, pat)->0;
        assert(occurs_at(s, pat, p));
    }
    if spec_count_matches(s, pat) == 0 {
        assert forall|p: int| !occurs_at(s, pat, p) by {
            if occurs_at(s, pat, p) {
                if pat.len() > 0 {
                    lemma_first_occurrence(s, pat, p);
                    let q = choose|q: int|
                        occurs_at(s, pat, q) && forall|j: int| 0 <= j < q ==> !occurs_at(s, pat, j);
                    lemma_count_first(s, pat, 0, q);
                }
            }
        }
    }
}


proof fn lemma_count_room(s: Seq<char>, pat: Seq<char>, i: int)
    requires
        pat.len() > 0,
        0 <= i <= s.len(),
    ensures
        count_from(s, pat, i) * pat.len() <= s.len() - i,
    decreases s.len() - i,
{
    let p = pat.len();
    if i + p <= s.len() {
        if occurs_at(s, pat, i) {
            lemma_count_room(s, pat, i + p);
            let c = count_from(s, pat, i + p);
            let t = count_from(s, pat, i);
            assert(t == 1 + c);
            assert(t * p == p + c * p) by (nonlinear_arith)
                requires
                    t == 1 + c,
            ;
        } else {
            lemma_count_room(s, pat, i + 1);
        }
    } else {
        assert(count_from(s, pat, i) == 0);
        assert(0 * p == 0);
    }
}

/// Law (matches do not overlap): the matches of a non-empty old text fit
/// side by side in the source, so there are at most `|s| / |pat|` of them;
/// an empty old text matches at each of the `|s| + 1` boundaries.
pub proof fn law_matches_do_not_overlap(s: Seq<char>, pat: Seq<char>)
    ensures
        pat.len() > 0 ==> spec_count_matches(s, pat) * pat.len() <= s.len(),
        pat.len() == 0 ==> spec_count_matches(s, pat) == s.len() + 1,
{
    if pat.len() > 0 {
        lemma_count_room(s, pat, 0);
    }
}

} // verus!
