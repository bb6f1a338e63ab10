//! The Markdown report of `adc report`: status cells, escaping and shortening
//! of cell texts, the evidence cell, the grouping (failures first) and the
//! summary counts.
use vstd::prelude::*;
use crate::assembly::join;
use crate::compile::{decimal, push_decimal};
use crate::status::CheckStatus;
use crate::text::{chars_of, push_char, string_of, string_views};

verus! {

broadcast use vstd::seq_lib::group_seq_properties;

pub open spec fn spec_status_cell(s: CheckStatus) -> Seq<char> {
    match s {
        CheckStatus::Pass => "✅ Pass"@,
        CheckStatus::Fail => "❌ Fail"@,
        CheckStatus::Inconclusive { .. } => "⚠️ Inconclusive"@,
    }
}

/// The status column of the report.
pub fn status_cell(s: &CheckStatus) -> (r: String)
    ensures
        r@ == spec_status_cell(*s),
{
    match s {
        CheckStatus::Pass => "✅ Pass".to_owned(),
        CheckStatus::Fail => "❌ Fail".to_owned(),
        CheckStatus::Inconclusive { .. } => "⚠️ Inconclusive".to_owned(),
    }
}

/// Report order of the status groups: failures, then inconclusive, then
/// passes.
pub open spec fn spec_report_group(s: CheckStatus) -> u8 {
    match s {
        CheckStatus::Fail => 0,
        CheckStatus::Inconclusive { .. } => 1,
        CheckStatus::Pass => 2,
    }
}

pub fn report_group(s: &CheckStatus) -> (g: u8)
    ensures
        g == spec_report_group(*s),
{
    match s {
        CheckStatus::Fail => 0,
        CheckStatus::Inconclusive { .. } => 1,
        CheckStatus::Pass => 2,
    }
}

/// One character of a table cell: `|` is escaped, a line break becomes a
/// space.
pub open spec fn escape_char(c: char) -> Seq<char> {
    if c == '|' {
        seq!['\\', '|']
    } else if c == '\n' {
        seq![' ']
    } else {
        seq![c]
    }
}

pub open spec fn escaped(s: Seq<char>) -> Seq<char>
    decreases s.len(),
{
    if s.len() == 0 {
        Seq::empty()
    } else {
        escaped(s.drop_last()) + escape_char(s.last())
    }
}

/// A cell text: escaped, and cut after `max` characters with `…` when longer.
pub open spec fn spec_escape_cell(s: Seq<char>, max: nat) -> Seq<char> {
    let e = escaped(s);
    if e.len() > max {
        e.take(max as int).push('…')
    } else {
        e
    }
}

/// `e` fits in one row of a Markdown table: no line break, and every `|` is
/// escaped by the character before it.
pub open spec fn one_row_cell(e: Seq<char>) -> bool {
    &&& forall|k: int| 0 <= k < e.len() ==> #[trigger] e[k] != '\n'
    &&& forall|k: int| 0 <= k < e.len() && #[trigger] e[k] == '|' ==> k > 0 && e[k - 1] == '\\'
}

proof fn lemma_escaped_one_row(s: Seq<char>)
    ensures
        one_row_cell(escaped(s)),
    decreases s.len(),
{
    if s.len() > 0 {
        lemma_escaped_one_row(s.drop_last());
        let e0 = escaped(s.drop_last());
        let t = escape_char(s.last());
        assert(escaped(s) == e0 + t);
        assert forall|k: int| 0 <= k < escaped(s).len() && #[trigger] escaped(s)[k] == '|' implies k
            > 0 && escaped(s)[k - 1] == '\\' by {
            if k >= e0.len() {
                assert(s.last() == '|');
            }
        }
    }
}

/// Law: whatever the text and the limit, a cell stays in its row of the
/// table: it holds no line break and no unescaped `|`.
pub proof fn law_cell_stays_in_its_row(s: Seq<char>, max: nat)
    ensures
        one_row_cell(spec_escape_cell(s, max)),
{
    lemma_escaped_one_row(s);
    let e = escaped(s);
    if e.len() > max {
        let c = e.take(max as int).push('…');
        assert forall|k: int| 0 <= k < c.len() && #[trigger] c[k] == '|' implies k > 0 && c[k - 1]
            == '\\' by {
            assert(e[k] == '|');
        }
        assert forall|k: int| 0 <= k < c.len() implies #[trigger] c[k] != '\n' by {
            if k < max {
                assert(c[k] == e[k]);
            }
        }
    }
}

proof fn lemma_plain_escaped(s: Seq<char>)
    requires
        forall|k: int| 0 <= k < s.len() ==> #[trigger] s[k] != '|' && s[k] != '\n',
    ensures
        escaped(s) == s,
    decreases s.len(),
{
    if s.len() > 0 {
        let s0 = s.drop_last();
        assert forall|k: int| 0 <= k < s0.len() implies #[trigger] s0[k] != '|' && s0[k] != '\n' by {
            assert(s0[k] == s[k]);
        }
        lemma_plain_escaped(s0);
        assert(s[s.len() - 1] != '|' && s[s.len() - 1] != '\n');
        assert(escaped(s) =~= s);
    }
}

/// Law (cell text): a text without `|` and line breaks is shown as it is
/// when it fits in `max` characters, and as its first `max` characters and
/// `…` when it does not; every cell is at most `max + 1` characters long.
pub proof fn law_plain_text_cell(s: Seq<char>, max: nat)
    ensures
        (forall|k: int| 0 <= k < s.len() ==> #[trigger] s[k] != '|' && s[k] != '\n') ==> {
            &&& s.len() <= max ==> spec_escape_cell(s, max) == s
            &&& s.len() > max ==> spec_escape_cell(s, max) == s.take(max as int).push('…')
        },
        spec_escape_cell(s, max).len() <= max + 1,
{
    if forall|k: int| 0 <= k < s.len() ==> #[trigger] s[k] != '|' && s[k] != '\n' {
        lemma_plain_escaped(s);
    }
}

/// Law (report order): failures come first, then inconclusive results, then
/// passes.
pub proof fn law_failures_first(reason: String)
    ensures
        spec_report_group(CheckStatus::Fail) < spec_report_group(CheckStatus::Inconclusive { reason }),
        spec_report_group(CheckStatus::Inconclusive { reason }) < spec_report_group(CheckStatus::Pass),
{
}

/// Escapes `|` and line breaks for a Markdown table cell and shortens texts
/// longer than `max` characters.
pub fn escape_cell(s: &str, max: usize) -> (r: String)
    ensures
        r@ == spec_escape_cell(s@, max as nat),
{
    let v = chars_of(s);
    let mut e: Vec<char> = Vec::new();
    let mut i: usize = 0;
    while i < v.len()
        invariant
            i <= v@.len(),
            e@ == escaped(v@.take(i as int)),
        decreases v@.len() - i,
    {
        let c = v[i];
        proof {
            assert(v@.take(i + 1).drop_last() =~= v@.take(i as int));
        }
        if c == '|' {
            e.push('\\');
            e.push('|');
        } else if c == '\n' {
            e.push(' ');
        } else {
            e.push(c);
        }
        proof {
            assert(e@ =~= escaped(v@.take(i + 1)));
        }
        i = i + 1;
    }
    proof {
        assert(v@.take(i as int) =~= v@);
    }
    if e.len() > max {
        let mut cut: Vec<char> = Vec::new();
        let mut k: usize = 0;
        while k < max
            invariant
                k <= max < e@.len(),
                cut@ == e@.take(k as int),
            decreases max - k,
        {
            cut.push(e[k]);
            proof {
                assert(cut@ =~= e@.take(k + 1));
            }
            k = k + 1;
        }
        cut.push('…');
        string_of(cut.as_slice())
    } else {
        string_of(e.as_slice())
    }
}

/// The evidence column: the reason of an inconclusive result, otherwise the
/// evidence notes joined by ` / `; escaped and cut at 120 characters.
pub open spec fn spec_evidence_cell(s: CheckStatus, notes: Seq<Seq<char>>) -> Seq<char> {
    match s {
        CheckStatus::Inconclusive { reason } => spec_escape_cell(reason@, 120),
        _ => spec_escape_cell(join(notes, " / "@), 120),
    }
}

pub fn evidence_cell(s: &CheckStatus, notes: &Vec<String>) -> (r: String)
    ensures
        r@ == spec_evidence_cell(*s, string_views(notes@)),
{
    match s {
        CheckStatus::Inconclusive { reason } => escape_cell(reason.as_str(), 120),
        _ => {
            let ghost v = string_views(notes@);
            let mut joined = String::new();
            let mut i: usize = 0;
            while i < notes.len()
                invariant
                    i <= notes@.len(),
                    v == string_views(notes@),
                    joined@ == join(v.take(i as int), " / "@),
                decreases notes@.len() - i,
            {
                proof {
                    assert(v.take(i + 1).drop_last() =~= v.take(i as int));
                    assert(v.take(i + 1).last() == notes@[i as int]@);
                }
                if i == 0 {
                    joined = notes[i].clone();
                } else {
                    joined = joined.concat(" / ");
                    joined = joined.concat(notes[i].as_str());
                }
                i = i + 1;
            }
            proof {
                assert(v.take(i as int) =~= v);
            }
            escape_cell(joined.as_str(), 120)
        },
    }
}

/// Numbers of failed, inconclusive and passed results.
pub open spec fn count_status(s: Seq<CheckStatus>, g: u8) -> nat
    decreases s.len(),
{
    if s.len() == 0 {
        0
    } else {
        count_status(s.drop_last(), g) + if spec_report_group(s.last()) == g {
            1nat
        } else {
            0nat
        }
    }
}

/// The summary line counts: (failures, inconclusive, passes).
pub fn status_counts(s: &[CheckStatus]) -> (r: (usize, usize, usize))
    ensures
        r.0 == count_status(s@, 0),
        r.1 == count_status(s@, 1),
        r.2 == count_status(s@, 2),
        r.0 + r.1 + r.2 == s@.len(),
{
    let mut f: usize = 0;
    let mut n: usize = 0;
    let mut p: usize = 0;
    let mut i: usize = 0;
    while i < s.len()
        invariant
            i <= s@.len(),
            f == count_status(s@.take(i as int), 0),
            n == count_status(s@.take(i as int), 1),
            p == count_status(s@.take(i as int), 2),
            f + n + p == i,
        decreases s@.len() - i,
    {
        proof {
            assert(s@.take(i + 1).drop_last() =~= s@.take(i as int));
            assert(s@.take(i + 1).last() == s@[i as int]);
        }
        match report_group(&s[i]) {
            0 => {
                f = f + 1;
            },
            1 => {
                n = n + 1;
            },
            _ => {
                p = p + 1;
            },
        }
        i = i + 1;
    }
    proof {
        assert(s@.take(i as int) =~= s@);
    }
    (f, n, p)
}


/// One row of the Markdown table: `| c1 | c2 | ... |` and a line break.
pub open spec fn spec_table_row(cells: Seq<Seq<char>>) -> Seq<char> {
    "| "@ + join(cells, " | "@) + " |\n"@
}

/// A row of the report table from its (already escaped) cells.
pub fn table_row(cells: &Vec<String>) -> (r: String)
    ensures
        r@ == spec_table_row(string_views(cells@)),
{
    let ghost v = string_views(cells@);
    let mut joined = String::new();
    let mut i: usize = 0;
    while i < cells.len()
        invariant
            i <= cells@.len(),
            v == string_views(cells@),
            joined@ == join(v.take(i as int), " | "@),
        decreases cells@.len() - i,
    {
        proof {
            assert(v.take(i + 1).drop_last() =~= v.take(i as int));
        }
        if i == 0 {
            joined = cells[i].clone();
        } else {
            joined = joined.concat(" | ");
            joined = joined.concat(cells[i].as_str());
        }
        i = i + 1;
    }
    proof {
        assert(v.take(cells@.len() as int) =~= v);
    }
    let r = "| ".to_owned();
    let r = r.concat(joined.as_str());
    r.concat(" |\n")
}

/// The summary line of the report:
/// `**<f> Fail / <i> Inconclusive / <p> Pass**(全<n>件)` and a blank line.
pub open spec fn spec_summary_line(f: nat, i: nat, p: nat, total: nat) -> Seq<char> {
    "**"@ + decimal(f) + " Fail / "@ + decimal(i) + " Inconclusive / "@ + decimal(p)
        + " Pass**(全"@ + decimal(total) + "件)\n\n"@
}

pub fn summary_line(counts: (usize, usize, usize), total: usize) -> (r: String)
    ensures
        r@ == spec_summary_line(counts.0 as nat, counts.1 as nat, counts.2 as nat, total as nat),
{
    let mut r = "**".to_owned();
    push_decimal(&mut r, counts.0);
    r = r.concat(" Fail / ");
    push_decimal(&mut r, counts.1);
    r = r.concat(" Inconclusive / ");
    push_decimal(&mut r, counts.2);
    r = r.concat(" Pass**(全");
    push_decimal(&mut r, total);
    r.concat("件)\n\n")
}

} // verus!
