//! Command lines of `adc` and `adc-mcp`: the choice of subcommand and the
//! options of each subcommand. Each parser reads the arguments left to right
//! exactly as the tools do and stops at the first error with its message.
use vstd::prelude::*;
use crate::mcp::opt_string_view;
use crate::text::{
    chars_of, lemma_spec_find_first, matches_at, occurs_at, spec_find, starts_with, str_eq,
    string_of, string_views,
};

verus! {

broadcast use vstd::seq_lib::group_seq_properties;

// ---------------------------------------------------------------- helpers

/// `a` starts with a dash (an option rather than a positional argument).
pub open spec fn is_dashed(a: Seq<char>) -> bool {
    a.len() > 0 && a[0] == '-'
}

fn arg_is(a: &String, lit: &str) -> (r: bool)
    ensures
        r == (a@ == lit@),
{
    str_eq(a.as_str(), lit)
}

fn dashed(a: &String) -> (r: bool)
    ensures
        r == is_dashed(a@),
{
    let v = chars_of(a.as_str());
    v.len() > 0 && v[0] == '-'
}

fn has_prefix(a: &str, p: &str) -> (r: bool)
    ensures
        r == starts_with(a@, p@),
{
    let va = chars_of(a);
    let vp = chars_of(p);
    let r = matches_at(va.as_slice(), vp.as_slice(), 0);
    proof {
        if vp@.len() <= va@.len() {
            assert(va@.subrange(0, vp@.len() as int) =~= va@.take(vp@.len() as int));
        }
    }
    r
}

/// `prefix + x`.
fn message2(prefix: &str, x: &str) -> (m: String)
    ensures
        m@ == prefix@ + x@,
{
    let m = prefix.to_owned();
    m.concat(x)
}

/// `prefix + x + suffix`.
fn message(prefix: &str, x: &str, suffix: &str) -> (m: String)
    ensures
        m@ == prefix@ + x@ + suffix@,
{
    let m = prefix.to_owned();
    let m = m.concat(x);
    m.concat(suffix)
}

pub open spec fn unknown_arg(a: Seq<char>) -> Seq<char> {
    "不明な引数: "@ + a
}

fn unknown_arg_message(a: &String) -> (m: String)
    ensures
        m@ == unknown_arg(a@),
{
    message2("不明な引数: ", a.as_str())
}

/// Some argument asks for help.
pub open spec fn spec_wants_help(args: Seq<Seq<char>>) -> bool {
    exists|i: int| 0 <= i < args.len() && (args[i] == "-h"@ || args[i] == "--help"@)
}

/// `-h` or `--help` is among the arguments.
pub fn wants_help(args: &[String]) -> (r: bool)
    ensures
        r == spec_wants_help(args@.map_values(|s: String| s@)),
{
    let ghost v = args@.map_values(|s: String| s@);
    let mut i: usize = 0;
    while i < args.len()
        invariant
            i <= args@.len(),
            v == args@.map_values(|s: String| s@),
            forall|j: int| 0 <= j < i ==> !(v[j] == "-h"@ || v[j] == "--help"@),
        decreases args@.len() - i,
    {
        if arg_is(&args[i], "-h") || arg_is(&args[i], "--help") {
            assert(v[i as int] == args@[i as int]@);
            return true;
        }
        assert(v[i as int] == args@[i as int]@);
        i = i + 1;
    }
    false
}

// ---------------------------------------------------------------- adc

/// The subcommands of `adc`.
#[derive(Clone, Copy, Debug, PartialEq, Eq, Structural)]
pub enum Subcommand {
    Help,
    Version,
    Explain,
    Export,
    Check,
    Diff,
    Report,
}

pub open spec fn usage_top() -> Seq<char> {
    "usage: adc <explain|export|check|diff|report> ...(adc --help参照)"@
}

pub open spec fn unknown_subcommand(a: Seq<char>) -> Seq<char> {
    "未知のサブコマンド: "@ + a
        + "(使えるのは explain / export / check / diff / report。adc --help参照)"@
}

pub open spec fn spec_subcommand(args: Seq<Seq<char>>) -> Result<Subcommand, Seq<char>> {
    if args.len() == 0 {
        Err(usage_top())
    } else {
        let a = args[0];
        if a == "-h"@ || a == "--help"@ || a == "help"@ {
            Ok(Subcommand::Help)
        } else if a == "-V"@ || a == "--version"@ {
            Ok(Subcommand::Version)
        } else if a == "explain"@ {
            Ok(Subcommand::Explain)
        } else if a == "export"@ {
            Ok(Subcommand::Export)
        } else if a == "check"@ {
            Ok(Subcommand::Check)
        } else if a == "diff"@ {
            Ok(Subcommand::Diff)
        } else if a == "report"@ {
            Ok(Subcommand::Report)
        } else {
            Err(unknown_subcommand(a))
        }
    }
}

/// The subcommand named by the first argument.
pub fn subcommand(args: &[String]) -> (r: Result<Subcommand, String>)
    ensures
        match r {
            Ok(c) => spec_subcommand(args@.map_values(|s: String| s@)) == Ok::<
                Subcommand,
                Seq<char>,
            >(c),
            Err(m) => spec_subcommand(args@.map_values(|s: String| s@)) == Err::<
                Subcommand,
                Seq<char>,
            >(m@),
        },
{
    let ghost v = args@.map_values(|s: String| s@);
    if args.len() == 0 {
        let m = "usage: adc <explain|export|check|diff|report> ...(adc --help参照)".to_owned();
        return Err(m);
    }
    let a = &args[0];
    assert(v[0] == a@);
    if arg_is(a, "-h") || arg_is(a, "--help") || arg_is(a, "help") {
        Ok(Subcommand::Help)
    } else if arg_is(a, "-V") || arg_is(a, "--version") {
        Ok(Subcommand::Version)
    } else if arg_is(a, "explain") {
        Ok(Subcommand::Explain)
    } else if arg_is(a, "export") {
        Ok(Subcommand::Export)
    } else if arg_is(a, "check") {
        Ok(Subcommand::Check)
    } else if arg_is(a, "diff") {
        Ok(Subcommand::Diff)
    } else if arg_is(a, "report") {
        Ok(Subcommand::Report)
    } else {
        let m = message(
            "未知のサブコマンド: ",
            a.as_str(),
            "(使えるのは explain / export / check / diff / report。adc --help参照)",
        );
        Err(m)
    }
}

// ---------------------------------------------------------------- adc report

/// The input of `adc report`: the first positional argument, by default
/// `results.jsonl`; any other argument is an error.
pub open spec fn report_from(args: Seq<Seq<char>>, i: int, path: Seq<char>, seen: bool) -> Result<
    Seq<char>,
    Seq<char>,
>
    decreases args.len() - i,
{
    if i < 0 || i >= args.len() {
        Ok(path)
    } else if !is_dashed(args[i]) && !seen {
        report_from(args, i + 1, args[i], true)
    } else {
        Err(unknown_arg(args[i]))
    }
}

pub open spec fn spec_report_input(args: Seq<Seq<char>>) -> Result<Seq<char>, Seq<char>> {
    report_from(args, 0, "results.jsonl"@, false)
}

/// The results file that `adc report` reads (help is asked for separately
/// with `wants_help`).
pub fn report_input(args: &[String]) -> (r: Result<String, String>)
    ensures
        match r {
            Ok(p) => spec_report_input(args@.map_values(|s: String| s@)) == Ok::<
                Seq<char>,
                Seq<char>,
            >(p@),
            Err(m) => spec_report_input(args@.map_values(|s: String| s@)) == Err::<
                Seq<char>,
                Seq<char>,
            >(m@),
        },
{
    let ghost v = args@.map_values(|s: String| s@);
    let mut path = "results.jsonl".to_owned();
    let mut seen = false;
    let mut i: usize = 0;
    while i < args.len()
        invariant
            i <= args@.len(),
            v == args@.map_values(|s: String| s@),
            spec_report_input(v) == report_from(v, i as int, path@, seen),
        decreases args@.len() - i,
    {
        let a = &args[i];
        assert(v[i as int] == a@);
        if !dashed(a) && !seen {
            path = a.clone();
            seen = true;
        } else {
            return Err(unknown_arg_message(a));
        }
        i = i + 1;
    }
    Ok(path)
}

// ---------------------------------------------------------------- adc-mcp

/// What `adc-mcp` is asked to do.
#[derive(Clone, Debug)]
pub enum ServerCommand {
    Help,
    Version,
    Serve { design: String, gated: bool },
}

/// Why the server's command line was refused.
#[derive(Clone, Debug)]
pub enum ServerArgError {
    /// an argument that the server does not know
    Unknown(String),
    /// no `--design <path>`
    MissingDesign,
}

/// The server's command line read from argument `i` on: `--design <path>`
/// (the path may be missing), `--gated`, help and version stop the reading.
pub open spec fn server_from(
    args: Seq<Seq<char>>,
    i: int,
    design: Option<Seq<char>>,
    gated: bool,
) -> Result<(Option<Seq<char>>, bool, int), Seq<char>>
    decreases args.len() + 1 - i,
{
    if i < 0 || i >= args.len() {
        Ok((design, gated, 0))
    } else if args[i] == "--design"@ {
        server_from(
            args,
            i + 2,
            if i + 1 < args.len() {
                Some(args[i + 1])
            } else {
                None
            },
            gated,
        )
    } else if args[i] == "--gated"@ {
        server_from(args, i + 1, design, true)
    } else if args[i] == "-h"@ || args[i] == "--help"@ {
        Ok((design, gated, 1))
    } else if args[i] == "-V"@ || args[i] == "--version"@ {
        Ok((design, gated, 2))
    } else {
        Err(args[i])
    }
}

/// The command of `adc-mcp --design <path> [--gated]`.
pub open spec fn server_command_is(args: Seq<Seq<char>>, r: Result<ServerCommand, ServerArgError>) -> bool {
    match server_from(args, 0, None, false) {
        Err(a) => r matches Err(ServerArgError::Unknown(u)) && u@ == a,
        Ok((design, gated, stop)) => if stop == 1 {
            r matches Ok(ServerCommand::Help)
        } else if stop == 2 {
            r matches Ok(ServerCommand::Version)
        } else {
            match design {
                None => r matches Err(ServerArgError::MissingDesign),
                Some(d) => r matches Ok(ServerCommand::Serve { design: rd, gated: rg }) && rd@
                    == d && rg == gated,
            }
        },
    }
}

/// Reads the command line of `adc-mcp`.
pub fn server_command(args: &[String]) -> (r: Result<ServerCommand, ServerArgError>)
    ensures
        server_command_is(args@.map_values(|s: String| s@), r),
{
    let ghost v = args@.map_values(|s: String| s@);
    let mut design: Option<String> = None;
    let mut gated = false;
    let mut i: usize = 0;
    while i < args.len()
        invariant
            v == args@.map_values(|s: String| s@),
            server_from(v, 0, None, false) == server_from(
                v,
                i as int,
                opt_string_view(design),
                gated,
            ),
        decreases args@.len() - i,
    {
        let a = &args[i];
        assert(v[i as int] == a@);
        let ghost old_d = opt_string_view(design);
        if arg_is(a, "--design") {
            if i + 1 < args.len() {
                assert(v[i + 1] == args@[i + 1]@);
                design = Some(args[i + 1].clone());
            } else {
                design = None;
            }
            let ghost nd = opt_string_view(design);
            assert(server_from(v, i as int, old_d, gated) == server_from(v, i + 2, nd, gated));
            if args.len() - i < 2 {
                i = args.len();
            } else {
                i = i + 2;
            }
        } else if arg_is(a, "--gated") {
            gated = true;
            i = i + 1;
        } else if arg_is(a, "-h") || arg_is(a, "--help") {
            return Ok(ServerCommand::Help);
        } else if arg_is(a, "-V") || arg_is(a, "--version") {
            return Ok(ServerCommand::Version);
        } else {
            return Err(ServerArgError::Unknown(a.clone()));
        }
    }
    match design {
        Some(d) => Ok(ServerCommand::Serve { design: d, gated }),
        None => Err(ServerArgError::MissingDesign),
    }
}

} // verus!

verus! {

// ---------------------------------------------------------------- option values

/// `c` has the Unicode property White_Space (`char::is_whitespace`).
pub uninterp spec fn is_unicode_whitespace(c: char) -> bool;

/// `char::is_whitespace`: the result is the property named
/// `is_unicode_whitespace(c)`.
#[verifier::external_body]
fn is_whitespace(c: char) -> (r: bool)
    ensures
        r == is_unicode_whitespace(c),
{
    c.is_whitespace()
}

pub open spec fn trim_start_ws(s: Seq<char>) -> Seq<char>
    decreases s.len(),
{
    if s.len() > 0 && is_unicode_whitespace(s[0]) {
        trim_start_ws(s.drop_first())
    } else {
        s
    }
}

pub open spec fn trim_end_ws(s: Seq<char>) -> Seq<char>
    decreases s.len(),
{
    if s.len() > 0 && is_unicode_whitespace(s.last()) {
        trim_end_ws(s.drop_last())
    } else {
        s
    }
}

/// `str::trim`: `s` without leading and trailing whitespace.
pub open spec fn trim_ws(s: Seq<char>) -> Seq<char> {
    trim_end_ws(trim_start_ws(s))
}

/// `str::split(',')`: the pieces of `s` between commas.
#[verifier::opaque]
pub open spec fn split_commas(s: Seq<char>) -> Seq<Seq<char>>
    decreases s.len(),
{
    match spec_find(s, seq![',']) {
        Some(k) => if 0 <= k < s.len() {
            seq![s.take(k)] + split_commas(s.skip(k + 1))
        } else {
            seq![s]
        },
        None => seq![s],
    }
}

/// Each piece trimmed.
pub open spec fn trim_all(v: Seq<Seq<char>>) -> Seq<Seq<char>> {
    v.map_values(|t: Seq<char>| trim_ws(t))
}

/// The comma-separated ids of `--filter`, each trimmed.
pub open spec fn filter_ids(s: Seq<char>) -> Seq<Seq<char>> {
    trim_all(split_commas(s))
}

proof fn lemma_trim_all_push(v: Seq<Seq<char>>, x: Seq<char>)
    ensures
        trim_all(v.push(x)) == trim_all(v).push(trim_ws(x)),
{
    assert(trim_all(v.push(x)) =~= trim_all(v).push(trim_ws(x)));
}

proof fn lemma_views_push(v: Seq<String>, x: String)
    ensures
        string_views(v.push(x)) == string_views(v).push(x@),
{
    assert(string_views(v.push(x)) =~= string_views(v).push(x@));
}

/// `t[a..e]` without leading and trailing whitespace.
fn trim_ws_range(t: &[char], a: usize, e: usize) -> (r: Vec<char>)
    requires
        a <= e <= t@.len(),
    ensures
        r@ == trim_ws(t@.subrange(a as int, e as int)),
{
    let ghost w = t@.subrange(a as int, e as int);
    let mut i = a;
    while i < e && is_whitespace(t[i])
        invariant
            a <= i <= e,
            e <= t@.len(),
            w == t@.subrange(a as int, e as int),
            trim_start_ws(w) == trim_start_ws(t@.subrange(i as int, e as int)),
        decreases e - i,
    {
        proof {
            assert(t@.subrange(i as int, e as int).drop_first() =~= t@.subrange(i + 1, e as int));
        }
        i = i + 1;
    }
    let mut j = e;
    while j > i && is_whitespace(t[j - 1])
        invariant
            a <= i <= j <= e,
            e <= t@.len(),
            trim_end_ws(t@.subrange(i as int, e as int)) == trim_end_ws(
                t@.subrange(i as int, j as int),
            ),
        decreases j - i,
    {
        proof {
            assert(t@.subrange(i as int, j as int).drop_last() =~= t@.subrange(i as int, j - 1));
        }
        j = j - 1;
    }
    let mut r: Vec<char> = Vec::new();
    let mut k = i;
    while k < j
        invariant
            i <= k <= j <= t@.len(),
            r@ == t@.subrange(i as int, k as int),
        decreases j - k,
    {
        r.push(t[k]);
        proof {
            assert(r@ =~= t@.subrange(i as int, k + 1));
        }
        k = k + 1;
    }
    r
}

proof fn lemma_split_at_comma(s: Seq<char>, seg: int, i: int)
    requires
        0 <= seg <= i < s.len(),
        s[i] == ',',
        forall|j: int| seg <= j < i ==> s[j] != ',',
    ensures
        split_commas(s.skip(seg)) == seq![s.subrange(seg, i)] + split_commas(s.skip(i + 1)),
{
    reveal(split_commas);
    let r = s.skip(seg);
    let k = i - seg;
    assert(occurs_at(r, seq![','], k)) by {
        assert(r.subrange(k, k + 1) =~= seq![',']);
    }
    assert forall|j: int| 0 <= j < k implies !occurs_at(r, seq![','], j) by {
        if occurs_at(r, seq![','], j) {
            assert(r.subrange(j, j + 1)[0] == r[j]);
            assert(r[j] == s[seg + j]);
        }
    }
    lemma_spec_find_first(r, seq![','], k);
    assert(r.take(k) =~= s.subrange(seg, i));
    assert(r.skip(k + 1) =~= s.skip(i + 1));
}

proof fn lemma_split_last(s: Seq<char>, seg: int)
    requires
        0 <= seg <= s.len(),
        forall|j: int| seg <= j < s.len() ==> s[j] != ',',
    ensures
        split_commas(s.skip(seg)) == seq![s.skip(seg)],
{
    reveal(split_commas);
    let r = s.skip(seg);
    assert forall|j: int| !occurs_at(r, seq![','], j) by {
        if occurs_at(r, seq![','], j) {
            assert(r.subrange(j, j + 1)[0] == r[j]);
            assert(r[j] == s[seg + j]);
        }
    }
}

/// The ids of a `--filter` value: split at commas, each trimmed.
pub fn parse_filter(v: &str) -> (ids: Vec<String>)
    ensures
        string_views(ids@) == filter_ids(v@),
{
    let s = chars_of(v);
    let mut ids: Vec<String> = Vec::new();
    let ghost mut done: Seq<Seq<char>> = Seq::empty();
    let mut seg: usize = 0;
    let mut i: usize = 0;
    while i < s.len()
        invariant
            s@ == v@,
            seg <= i <= s@.len(),
            forall|j: int| seg <= j < i ==> s@[j] != ',',
            split_commas(s@) == done + split_commas(s@.skip(seg as int)),
            string_views(ids@) == trim_all(done),
        decreases s@.len() - i,
    {
        if s[i] == ',' {
            proof {
                lemma_split_at_comma(s@, seg as int, i as int);
                assert(done + (seq![s@.subrange(seg as int, i as int)] + split_commas(
                    s@.skip(i + 1),
                )) =~= done.push(s@.subrange(seg as int, i as int)) + split_commas(
                    s@.skip(i + 1),
                ));
            }
            let t = trim_ws_range(s.as_slice(), seg, i);
            let st = string_of(t.as_slice());
            let ghost old_ids = ids@;
            ids.push(st);
            proof {
                lemma_trim_all_push(done, s@.subrange(seg as int, i as int));
                lemma_views_push(old_ids, st);
                done = done.push(s@.subrange(seg as int, i as int));
            }
            seg = i + 1;
        }
        i = i + 1;
    }
    proof {
        lemma_split_last(s@, seg as int);
        assert(s@.skip(seg as int) =~= s@.subrange(seg as int, s@.len() as int));
    }
    let t = trim_ws_range(s.as_slice(), seg, s.len());
    let st = string_of(t.as_slice());
    let ghost old_ids = ids@;
    ids.push(st);
    proof {
        let last = s@.skip(seg as int);
        assert(split_commas(s@) =~= done.push(last));
        lemma_trim_all_push(done, last);
        lemma_views_push(old_ids, st);
    }
    ids
}

} // verus!

verus! {

// ---------------------------------------------------------------- --format

/// The value of a `--format` option at argument `i`: the text after
/// `--format=`, or the next argument after a bare `--format`.
pub open spec fn format_value(args: Seq<Seq<char>>, i: int) -> Option<Seq<char>> {
    if starts_with(args[i], "--format="@) {
        Some(args[i].skip(("--format="@).len() as int))
    } else if args[i] == "--format"@ && i + 1 < args.len() {
        Some(args[i + 1])
    } else {
        None
    }
}

/// How many arguments a `--format` option takes.
pub open spec fn format_width(a: Seq<char>) -> int {
    if a == "--format"@ {
        2
    } else {
        1
    }
}

pub open spec fn format_missing() -> Seq<char> {
    "--format には値が必要です"@
}

/// The value of the `--format` option at argument `i`, and the index of the
/// next argument.
fn read_format(args: &[String], i: usize) -> (r: Option<(String, usize)>)
    requires
        i < args@.len(),
    ensures
        match format_value(string_views(args@), i as int) {
            Some(v) => r matches Some((s, n)) && s@ == v && n == i + format_width(args@[i as int]@),
            None => r is None,
        },
{
    let ghost v = string_views(args@);
    assert(v[i as int] == args@[i as int]@);
    let a = chars_of(args[i].as_str());
    let prefix = chars_of("--format=");
    let bare = arg_is(&args[i], "--format");
    let width: usize = if bare {
        2
    } else {
        1
    };
    if matches_at(a.as_slice(), prefix.as_slice(), 0) {
        proof {
            assert(a@.subrange(0, prefix@.len() as int) =~= a@.take(prefix@.len() as int));
        }
        let mut rest: Vec<char> = Vec::new();
        let mut k = prefix.len();
        while k < a.len()
            invariant
                prefix@.len() <= k <= a@.len(),
                rest@ == a@.subrange(prefix@.len() as int, k as int),
            decreases a@.len() - k,
        {
            rest.push(a[k]);
            proof {
                assert(rest@ =~= a@.subrange(prefix@.len() as int, k + 1));
            }
            k = k + 1;
        }
        proof {
            assert(a@.subrange(prefix@.len() as int, a@.len() as int) =~= a@.skip(
                prefix@.len() as int,
            ));
        }
        proof {
            reveal_strlit("--format=");
            reveal_strlit("--format");
            assert(a@.len() >= prefix@.len());
            assert(!bare);
        }
        return Some((string_of(rest.as_slice()), i + 1));
    }
    proof {
        if starts_with(a@, prefix@) {
            assert(a@.subrange(0, prefix@.len() as int) =~= a@.take(prefix@.len() as int));
        }
    }
    if bare && i + 1 < args.len() {
        assert(v[i + 1] == args@[i + 1]@);
        return Some((args[i + 1].clone(), i + 2));
    }
    None
}

// ---------------------------------------------------------------- adc check

/// The options of `adc check`.
#[derive(Clone, Debug)]
pub struct CheckCommand {
    pub design_path: String,
    pub format: String,
    pub filter: Option<Vec<String>>,
    pub timings: bool,
    pub no_cache: bool,
    pub narrow: bool,
    pub verbose: bool,
}

/// The options of `adc check` as values.
pub struct CheckOptionsView {
    pub design_path: Seq<char>,
    pub format: Seq<char>,
    pub filter: Option<Seq<Seq<char>>>,
    pub timings: bool,
    pub no_cache: bool,
    pub narrow: bool,
    pub verbose: bool,
}

impl View for CheckCommand {
    type V = CheckOptionsView;

    open spec fn view(&self) -> CheckOptionsView {
        CheckOptionsView {
            design_path: self.design_path@,
            format: self.format@,
            filter: match self.filter {
                Some(f) => Some(string_views(f@)),
                None => None,
            },
            timings: self.timings,
            no_cache: self.no_cache,
            narrow: self.narrow,
            verbose: self.verbose,
        }
    }
}

/// The defaults of `adc check`.
pub open spec fn check_defaults() -> CheckOptionsView {
    CheckOptionsView {
        design_path: "./design.ron"@,
        format: "text"@,
        filter: None,
        timings: false,
        no_cache: false,
        narrow: false,
        verbose: false,
    }
}

/// The options of `adc check` read from argument `i` on.
pub open spec fn check_from(args: Seq<Seq<char>>, i: int, st: CheckOptionsView) -> Result<
    CheckOptionsView,
    Seq<char>,
>
    decreases args.len() + 1 - i,
{
    if i < 0 || i >= args.len() {
        Ok(st)
    } else {
        let a = args[i];
        if a == "--design"@ {
            if i + 1 < args.len() {
                check_from(args, i + 2, CheckOptionsView { design_path: args[i + 1], ..st })
            } else {
                Err("--design にはパスが必要です"@)
            }
        } else if a == "--filter"@ {
            if i + 1 < args.len() {
                check_from(
                    args,
                    i + 2,
                    CheckOptionsView { filter: Some(filter_ids(args[i + 1])), ..st },
                )
            } else {
                Err("--filter にはID列が必要です"@)
            }
        } else if a == "--timings"@ {
            check_from(args, i + 1, CheckOptionsView { timings: true, ..st })
        } else if a == "--no-cache"@ {
            check_from(args, i + 1, CheckOptionsView { no_cache: true, ..st })
        } else if a == "--narrow"@ {
            check_from(args, i + 1, CheckOptionsView { narrow: true, ..st })
        } else if a == "-v"@ || a == "--verbose"@ {
            check_from(args, i + 1, CheckOptionsView { verbose: true, ..st })
        } else if starts_with(a, "--format"@) {
            match format_value(args, i) {
                None => Err(format_missing()),
                Some(val) => if val != "jsonl"@ && val != "text"@ {
                    Err("checkの出力は jsonl | text: "@ + val)
                } else {
                    check_from(args, i + format_width(a), CheckOptionsView { format: val, ..st })
                },
            }
        } else {
            Err(unknown_arg(a))
        }
    }
}

/// The `--format` value `v` given at argument `i`, in either form, and the
/// arguments that it takes.
pub open spec fn format_given(args: Seq<Seq<char>>, i: int, v: Seq<char>) -> int {
    if args[i] == "--format="@ + v {
        1
    } else if args[i] == "--format"@ && i + 1 < args.len() && args[i + 1] == v {
        2
    } else {
        0
    }
}

proof fn lemma_format_value(args: Seq<Seq<char>>, i: int, v: Seq<char>)
    requires
        0 <= i < args.len(),
        format_given(args, i, v) > 0,
    ensures
        starts_with(args[i], "--format"@),
        format_value(args, i) == Some(v),
        format_width(args[i]) == format_given(args, i, v),
        args[i] != "--design"@,
        args[i] != "--filter"@,
        args[i] != "--timings"@,
        args[i] != "--no-cache"@,
        args[i] != "--narrow"@,
        args[i] != "-v"@,
        args[i] != "--verbose"@,
{
    reveal_strlit("--format");
    reveal_strlit("--format=");
    reveal_strlit("--design");
    reveal_strlit("--filter");
    reveal_strlit("--timings");
    reveal_strlit("--no-cache");
    reveal_strlit("--narrow");
    reveal_strlit("-v");
    reveal_strlit("--verbose");
    let a = args[i];
    if a == "--format="@ + v {
        assert(a.take(8) =~= "--format"@);
        assert(a.take(9) =~= "--format="@);
        assert(a.skip(9) =~= v);
        assert(a.len() >= 9);
        if a == "--format"@ {
            assert(false);
        }
        assert(a[2] == 'f');
        assert(a[8] == '=');
    } else {
        assert(a =~= "--format"@);
        assert(a.take(8) =~= "--format"@);
        assert(a[2] == 'f');
        assert(a[3] == 'o');
        assert("--filter"@[3] == 'i');
        assert(!starts_with(a, "--format="@));
    }
}

/// Law (`adc check --format`): both documented output formats are accepted
/// in either form (`--format=<v>` or `--format <v>`), set the format and
/// go on with the next argument; any other value is refused by name.
pub proof fn law_check_accepts_both_formats(
    args: Seq<Seq<char>>,
    i: int,
    st: CheckOptionsView,
    v: Seq<char>,
)
    requires
        0 <= i < args.len(),
        format_given(args, i, v) > 0,
    ensures
        v == "jsonl"@ || v == "text"@ ==> check_from(args, i, st) == check_from(
            args,
            i + format_given(args, i, v),
            CheckOptionsView { format: v, ..st },
        ),
        !(v == "jsonl"@ || v == "text"@) ==> check_from(args, i, st) == Err::<
            CheckOptionsView,
            Seq<char>,
        >("checkの出力は jsonl | text: "@ + v),
{
    lemma_format_value(args, i, v);
}

/// The options of `adc check` (help is asked for separately with
/// `wants_help`).
pub fn check_command(args: &[String]) -> (r: Result<CheckCommand, String>)
    ensures
        match r {
            Ok(c) => check_from(string_views(args@), 0, check_defaults()) == Ok::<
                CheckOptionsView,
                Seq<char>,
            >(c@),
            Err(m) => check_from(string_views(args@), 0, check_defaults()) == Err::<
                CheckOptionsView,
                Seq<char>,
            >(m@),
        },
{
    let ghost v = string_views(args@);
    let mut c = CheckCommand {
        design_path: "./design.ron".to_owned(),
        format: "text".to_owned(),
        filter: None,
        timings: false,
        no_cache: false,
        narrow: false,
        verbose: false,
    };
    let mut i: usize = 0;
    while i < args.len()
        invariant
            v == string_views(args@),
            check_from(v, 0, check_defaults()) == check_from(v, i as int, c@),
        decreases args@.len() + 1 - i,
    {
        let a = &args[i];
        assert(v[i as int] == a@);
        if arg_is(a, "--design") {
            if i + 1 < args.len() {
                assert(v[i + 1] == args@[i + 1]@);
                c.design_path = args[i + 1].clone();
                i = i + 2;
            } else {
                return Err("--design にはパスが必要です".to_owned());
            }
        } else if arg_is(a, "--filter") {
            if i + 1 < args.len() {
                assert(v[i + 1] == args@[i + 1]@);
                c.filter = Some(parse_filter(args[i + 1].as_str()));
                i = i + 2;
            } else {
                return Err("--filter にはID列が必要です".to_owned());
            }
        } else if arg_is(a, "--timings") {
            c.timings = true;
            i = i + 1;
        } else if arg_is(a, "--no-cache") {
            c.no_cache = true;
            i = i + 1;
        } else if arg_is(a, "--narrow") {
            c.narrow = true;
            i = i + 1;
        } else if arg_is(a, "-v") || arg_is(a, "--verbose") {
            c.verbose = true;
            i = i + 1;
        } else if has_prefix(a.as_str(), "--format") {
            match read_format(args, i) {
                None => {
                    return Err("--format には値が必要です".to_owned());
                },
                Some((val, next)) => {
                    if !str_eq(val.as_str(), "jsonl") && !str_eq(val.as_str(), "text") {
                        return Err(message2("checkの出力は jsonl | text: ", val.as_str()));
                    }
                    c.format = val;
                    i = next;
                },
            }
        } else {
            return Err(unknown_arg_message(a));
        }
    }
    Ok(c)
}

} // verus!

verus! {

pub open spec fn design_missing() -> Seq<char> {
    "--design にはパスが必要です"@
}

// ---------------------------------------------------------------- adc explain

/// The id and design of `adc explain`.
#[derive(Clone, Debug)]
pub struct ExplainCommand {
    pub id: String,
    pub design_path: String,
}

pub open spec fn explain_usage() -> Seq<char> {
    "usage: adc explain <id> [--design <path>] [--format=json]"@
}

/// The arguments of `adc explain` read from argument `i` on: the first
/// positional argument is the id; the only output format is json.
pub open spec fn explain_from(
    args: Seq<Seq<char>>,
    i: int,
    id: Option<Seq<char>>,
    design: Seq<char>,
) -> Result<(Option<Seq<char>>, Seq<char>), Seq<char>>
    decreases args.len() + 1 - i,
{
    if i < 0 || i >= args.len() {
        Ok((id, design))
    } else {
        let a = args[i];
        if a == "--design"@ {
            if i + 1 < args.len() {
                explain_from(args, i + 2, id, args[i + 1])
            } else {
                Err(design_missing())
            }
        } else if starts_with(a, "--format"@) {
            match format_value(args, i) {
                None => Err(format_missing()),
                Some(val) => if val != "json"@ {
                    Err("explain の出力は json のみ対応です: "@ + val)
                } else {
                    explain_from(args, i + format_width(a), id, design)
                },
            }
        } else if !is_dashed(a) && id is None {
            explain_from(args, i + 1, Some(a), design)
        } else {
            Err(unknown_arg(a))
        }
    }
}

pub open spec fn spec_explain_command(args: Seq<Seq<char>>) -> Result<(Seq<char>, Seq<char>), Seq<char>> {
    match explain_from(args, 0, None, "./design.ron"@) {
        Ok((Some(id), design)) => Ok((id, design)),
        Ok((None, _)) => Err(explain_usage()),
        Err(m) => Err(m),
    }
}

/// The arguments of `adc explain <id> [--design <path>] [--format=json]`.
pub fn explain_command(args: &[String]) -> (r: Result<ExplainCommand, String>)
    ensures
        match r {
            Ok(c) => spec_explain_command(string_views(args@)) == Ok::<
                (Seq<char>, Seq<char>),
                Seq<char>,
            >((c.id@, c.design_path@)),
            Err(m) => spec_explain_command(string_views(args@)) == Err::<
                (Seq<char>, Seq<char>),
                Seq<char>,
            >(m@),
        },
{
    let ghost v = string_views(args@);
    let mut id: Option<String> = None;
    let mut design = "./design.ron".to_owned();
    let mut i: usize = 0;
    while i < args.len()
        invariant
            v == string_views(args@),
            explain_from(v, 0, None, "./design.ron"@) == explain_from(
                v,
                i as int,
                opt_string_view(id),
                design@,
            ),
        decreases args@.len() + 1 - i,
    {
        let a = &args[i];
        assert(v[i as int] == a@);
        if arg_is(a, "--design") {
            if i + 1 < args.len() {
                assert(v[i + 1] == args@[i + 1]@);
                design = args[i + 1].clone();
                i = i + 2;
            } else {
                return Err("--design にはパスが必要です".to_owned());
            }
        } else if has_prefix(a.as_str(), "--format") {
            match read_format(args, i) {
                None => {
                    return Err("--format には値が必要です".to_owned());
                },
                Some((val, next)) => {
                    if !str_eq(val.as_str(), "json") {
                        return Err(message2("explain の出力は json のみ対応です: ", val.as_str()));
                    }
                    i = next;
                },
            }
        } else if !dashed(a) && id.is_none() {
            id = Some(a.clone());
            i = i + 1;
        } else {
            return Err(unknown_arg_message(a));
        }
    }
    match id {
        Some(id) => Ok(ExplainCommand { id, design_path: design }),
        None => Err("usage: adc explain <id> [--design <path>] [--format=json]".to_owned()),
    }
}

// ---------------------------------------------------------------- adc export

/// The design and output directory of `adc export --step`.
#[derive(Clone, Debug)]
pub struct ExportCommand {
    pub design_path: String,
    pub out_dir: String,
}

pub open spec fn export_usage() -> Seq<char> {
    "usage: adc export --step [--design <path>] [--out <dir>]"@
}

/// The arguments of `adc export` read from argument `i` on.
pub open spec fn export_from(
    args: Seq<Seq<char>>,
    i: int,
    step: bool,
    design: Seq<char>,
    out: Seq<char>,
) -> Result<(bool, Seq<char>, Seq<char>), Seq<char>>
    decreases args.len() + 1 - i,
{
    if i < 0 || i >= args.len() {
        Ok((step, design, out))
    } else {
        let a = args[i];
        if a == "--step"@ {
            export_from(args, i + 1, true, design, out)
        } else if a == "--design"@ {
            if i + 1 < args.len() {
                export_from(args, i + 2, step, args[i + 1], out)
            } else {
                Err(design_missing())
            }
        } else if a == "--out"@ {
            if i + 1 < args.len() {
                export_from(args, i + 2, step, design, args[i + 1])
            } else {
                Err("--out にはパスが必要です"@)
            }
        } else {
            Err(unknown_arg(a))
        }
    }
}

pub open spec fn spec_export_command(args: Seq<Seq<char>>) -> Result<(Seq<char>, Seq<char>), Seq<char>> {
    match export_from(args, 0, false, "./design.ron"@, "./out"@) {
        Ok((true, design, out)) => Ok((design, out)),
        Ok((false, _, _)) => Err(export_usage()),
        Err(m) => Err(m),
    }
}

/// The arguments of `adc export --step [--design <path>] [--out <dir>]`.
pub fn export_command(args: &[String]) -> (r: Result<ExportCommand, String>)
    ensures
        match r {
            Ok(c) => spec_export_command(string_views(args@)) == Ok::<
                (Seq<char>, Seq<char>),
                Seq<char>,
            >((c.design_path@, c.out_dir@)),
            Err(m) => spec_export_command(string_views(args@)) == Err::<
                (Seq<char>, Seq<char>),
                Seq<char>,
            >(m@),
        },
{
    let ghost v = string_views(args@);
    let mut step = false;
    let mut design = "./design.ron".to_owned();
    let mut out = "./out".to_owned();
    let mut i: usize = 0;
    while i < args.len()
        invariant
            v == string_views(args@),
            export_from(v, 0, false, "./design.ron"@, "./out"@) == export_from(
                v,
                i as int,
                step,
                design@,
                out@,
            ),
        decreases args@.len() + 1 - i,
    {
        let a = &args[i];
        assert(v[i as int] == a@);
        if arg_is(a, "--step") {
            step = true;
            i = i + 1;
        } else if arg_is(a, "--design") {
            if i + 1 < args.len() {
                assert(v[i + 1] == args@[i + 1]@);
                design = args[i + 1].clone();
                i = i + 2;
            } else {
                return Err("--design にはパスが必要です".to_owned());
            }
        } else if arg_is(a, "--out") {
            if i + 1 < args.len() {
                assert(v[i + 1] == args@[i + 1]@);
                out = args[i + 1].clone();
                i = i + 2;
            } else {
                return Err("--out にはパスが必要です".to_owned());
            }
        } else {
            return Err(unknown_arg_message(a));
        }
    }
    if !step {
        return Err("usage: adc export --step [--design <path>] [--out <dir>]".to_owned());
    }
    Ok(ExportCommand { design_path: design, out_dir: out })
}

// ---------------------------------------------------------------- adc diff

/// The revisions, design and output format of `adc diff`.
#[derive(Clone, Debug)]
pub struct DiffCommand {
    pub rev1: String,
    pub rev2: String,
    pub design_path: String,
    pub format: String,
}

pub open spec fn diff_usage() -> Seq<char> {
    "usage: adc diff <rev1> <rev2> [--design <path>] [--format=text|json]"@
}

/// The arguments of `adc diff` read from argument `i` on: every positional
/// argument is a revision.
pub open spec fn diff_from(
    args: Seq<Seq<char>>,
    i: int,
    revs: Seq<Seq<char>>,
    design: Seq<char>,
    format: Seq<char>,
) -> Result<(Seq<Seq<char>>, Seq<char>, Seq<char>), Seq<char>>
    decreases args.len() + 1 - i,
{
    if i < 0 || i >= args.len() {
        Ok((revs, design, format))
    } else {
        let a = args[i];
        if a == "--design"@ {
            if i + 1 < args.len() {
                diff_from(args, i + 2, revs, args[i + 1], format)
            } else {
                Err(design_missing())
            }
        } else if starts_with(a, "--format"@) {
            match format_value(args, i) {
                None => Err(format_missing()),
                Some(val) => if val != "json"@ && val != "text"@ {
                    Err("diffの出力は text | json: "@ + val)
                } else {
                    diff_from(args, i + format_width(a), revs, design, val)
                },
            }
        } else if !is_dashed(a) {
            diff_from(args, i + 1, revs.push(a), design, format)
        } else {
            Err(unknown_arg(a))
        }
    }
}

pub open spec fn spec_diff_command(args: Seq<Seq<char>>) -> Result<
    (Seq<char>, Seq<char>, Seq<char>, Seq<char>),
    Seq<char>,
> {
    match diff_from(args, 0, Seq::empty(), "./design.ron"@, "text"@) {
        Ok((revs, design, format)) => if revs.len() == 2 {
            Ok((revs[0], revs[1], design, format))
        } else {
            Err(diff_usage())
        },
        Err(m) => Err(m),
    }
}

/// The arguments of `adc diff <rev1> <rev2> [--design <path>] [--format=text|json]`.
pub fn diff_command(args: &[String]) -> (r: Result<DiffCommand, String>)
    ensures
        match r {
            Ok(c) => spec_diff_command(string_views(args@)) == Ok::<
                (Seq<char>, Seq<char>, Seq<char>, Seq<char>),
                Seq<char>,
            >((c.rev1@, c.rev2@, c.design_path@, c.format@)),
            Err(m) => spec_diff_command(string_views(args@)) == Err::<
                (Seq<char>, Seq<char>, Seq<char>, Seq<char>),
                Seq<char>,
            >(m@),
        },
{
    let ghost v = string_views(args@);
    let mut revs: Vec<String> = Vec::new();
    let mut design = "./design.ron".to_owned();
    let mut format = "text".to_owned();
    assert(string_views(revs@) =~= Seq::<Seq<char>>::empty());
    let mut i: usize = 0;
    while i < args.len()
        invariant
            v == string_views(args@),
            diff_from(v, 0, Seq::empty(), "./design.ron"@, "text"@) == diff_from(
                v,
                i as int,
                string_views(revs@),
                design@,
                format@,
            ),
        decreases args@.len() + 1 - i,
    {
        let a = &args[i];
        assert(v[i as int] == a@);
        if arg_is(a, "--design") {
            if i + 1 < args.len() {
                assert(v[i + 1] == args@[i + 1]@);
                design = args[i + 1].clone();
                i = i + 2;
            } else {
                return Err("--design にはパスが必要です".to_owned());
            }
        } else if has_prefix(a.as_str(), "--format") {
            match read_format(args, i) {
                None => {
                    return Err("--format には値が必要です".to_owned());
                },
                Some((val, next)) => {
                    if !str_eq(val.as_str(), "json") && !str_eq(val.as_str(), "text") {
                        return Err(message2("diffの出力は text | json: ", val.as_str()));
                    }
                    format = val;
                    i = next;
                },
            }
        } else if !dashed(a) {
            let ghost old_revs = revs@;
            let ac = a.clone();
            revs.push(ac);
            proof {
                lemma_views_push(old_revs, ac);
            }
            i = i + 1;
        } else {
            return Err(unknown_arg_message(a));
        }
    }
    if revs.len() != 2 {
        return Err(
            "usage: adc diff <rev1> <rev2> [--design <path>] [--format=text|json]".to_owned(),
        );
    }
    assert(string_views(revs@)[0] == revs@[0]@);
    assert(string_views(revs@)[1] == revs@[1]@);
    let rev2 = revs.pop().unwrap();
    let rev1 = revs.pop().unwrap();
    Ok(DiffCommand { rev1, rev2, design_path: design, format })
}


/// Law (`adc diff --format`): `text` and `json` are accepted in either form
/// and set the format; any other value is refused by name.
pub proof fn law_diff_accepts_both_formats(
    args: Seq<Seq<char>>,
    i: int,
    revs: Seq<Seq<char>>,
    design: Seq<char>,
    format: Seq<char>,
    v: Seq<char>,
)
    requires
        0 <= i < args.len(),
        format_given(args, i, v) > 0,
    ensures
        v == "text"@ || v == "json"@ ==> diff_from(args, i, revs, design, format) == diff_from(
            args,
            i + format_given(args, i, v),
            revs,
            design,
            v,
        ),
        !(v == "text"@ || v == "json"@) ==> diff_from(args, i, revs, design, format) == Err::<
            (Seq<Seq<char>>, Seq<char>, Seq<char>),
            Seq<char>,
        >("diffの出力は text | json: "@ + v),
{
    lemma_format_value(args, i, v);
}

/// Law (`adc explain --format`): `json` is accepted in either form; any other
/// value is refused by name.
pub proof fn law_explain_accepts_json(
    args: Seq<Seq<char>>,
    i: int,
    id: Option<Seq<char>>,
    design: Seq<char>,
    v: Seq<char>,
)
    requires
        0 <= i < args.len(),
        format_given(args, i, v) > 0,
    ensures
        v == "json"@ ==> explain_from(args, i, id, design) == explain_from(
            args,
            i + format_given(args, i, v),
            id,
            design,
        ),
        v != "json"@ ==> explain_from(args, i, id, design) == Err::<
            (Option<Seq<char>>, Seq<char>),
            Seq<char>,
        >("explain の出力は json のみ対応です: "@ + v),
{
    lemma_format_value(args, i, v);
}


/// Law (subcommands): the first argument alone chooses the subcommand,
/// whatever follows it; an unknown first argument is named in the error.
pub proof fn law_subcommand_by_first_argument(first: Seq<char>, rest: Seq<Seq<char>>)
    ensures
        first == "check"@ ==> spec_subcommand(seq![first] + rest) == Ok::<Subcommand, Seq<char>>(
            Subcommand::Check,
        ),
        first == "explain"@ ==> spec_subcommand(seq![first] + rest) == Ok::<Subcommand, Seq<char>>(
            Subcommand::Explain,
        ),
        first == "export"@ ==> spec_subcommand(seq![first] + rest) == Ok::<Subcommand, Seq<char>>(
            Subcommand::Export,
        ),
        first == "diff"@ ==> spec_subcommand(seq![first] + rest) == Ok::<Subcommand, Seq<char>>(
            Subcommand::Diff,
        ),
        first == "report"@ ==> spec_subcommand(seq![first] + rest) == Ok::<Subcommand, Seq<char>>(
            Subcommand::Report,
        ),
        first == "help"@ || first == "-h"@ || first == "--help"@ ==> spec_subcommand(seq![first] + rest)
            == Ok::<Subcommand, Seq<char>>(Subcommand::Help),
        first == "-V"@ || first == "--version"@ ==> spec_subcommand(seq![first] + rest) == Ok::<
            Subcommand,
            Seq<char>,
        >(Subcommand::Version),
        spec_subcommand(seq![first] + rest) is Err ==> spec_subcommand(seq![first] + rest)
            == Err::<Subcommand, Seq<char>>(unknown_subcommand(first)),
{
    reveal_strlit("check");
    reveal_strlit("explain");
    reveal_strlit("export");
    reveal_strlit("diff");
    reveal_strlit("report");
    reveal_strlit("help");
    reveal_strlit("-h");
    reveal_strlit("--help");
    reveal_strlit("-V");
    reveal_strlit("--version");
    let a = seq![first] + rest;
    assert(a[0] == first);
    assert("diff"@[0] != "help"@[0]);
    assert("export"@[0] != "report"@[0]);
    assert("export"@[0] != "--help"@[0]);
    assert("report"@[0] != "--help"@[0]);
    assert("-h"@[1] != "-V"@[1]);
}

/// Law: reading the server's arguments, `--gated` sets the gated flag, the
/// argument after `--design` becomes the design, and help or version end the
/// reading wherever they stand; any other argument is refused by name.
pub proof fn law_server_options(args: Seq<Seq<char>>, i: int, design: Option<Seq<char>>, gated: bool)
    requires
        0 <= i < args.len(),
    ensures
        args[i] == "--gated"@ ==> server_from(args, i, design, gated) == server_from(
            args,
            i + 1,
            design,
            true,
        ),
        args[i] == "--design"@ && i + 1 < args.len() ==> server_from(args, i, design, gated)
            == server_from(args, i + 2, Some(args[i + 1]), gated),
        args[i] == "--help"@ ==> server_from(args, i, design, gated) == Ok::<
            (Option<Seq<char>>, bool, int),
            Seq<char>,
        >((design, gated, 1)),
        args[i] == "--version"@ ==> server_from(args, i, design, gated) == Ok::<
            (Option<Seq<char>>, bool, int),
            Seq<char>,
        >((design, gated, 2)),
        !(args[i] == "--gated"@ || args[i] == "--design"@ || args[i] == "-h"@ || args[i] == "--help"@
            || args[i] == "-V"@ || args[i] == "--version"@) ==> server_from(args, i, design, gated)
            == Err::<(Option<Seq<char>>, bool, int), Seq<char>>(args[i]),
{
    reveal_strlit("--gated");
    reveal_strlit("--design");
    reveal_strlit("--help");
    reveal_strlit("--version");
    reveal_strlit("-h");
    reveal_strlit("-V");
    assert("--gated"@[2] != "--design"@[2]);
    assert("--gated"@[2] != "--help"@[2]);
    assert("--version"@.len() == 9 && "--design"@.len() == 8 && "--gated"@.len() == 7);
    assert("--help"@.len() == 6 && "-h"@.len() == 2);
    assert("--version"@ != "--design"@ && "--version"@ != "--gated"@);
    assert("--version"@ != "--help"@ && "--version"@ != "-h"@);
}


/// Law (`adc check` switches and values): each switch turns its option on,
/// `--design <path>` sets the design and `--filter <ids>` the filter (split
/// at commas and trimmed), each going on with the following argument.
pub proof fn law_check_options(args: Seq<Seq<char>>, i: int, st: CheckOptionsView)
    requires
        0 <= i < args.len(),
    ensures
        args[i] == "--timings"@ ==> check_from(args, i, st) == check_from(
            args,
            i + 1,
            CheckOptionsView { timings: true, ..st },
        ),
        args[i] == "--no-cache"@ ==> check_from(args, i, st) == check_from(
            args,
            i + 1,
            CheckOptionsView { no_cache: true, ..st },
        ),
        args[i] == "--narrow"@ ==> check_from(args, i, st) == check_from(
            args,
            i + 1,
            CheckOptionsView { narrow: true, ..st },
        ),
        args[i] == "-v"@ || args[i] == "--verbose"@ ==> check_from(args, i, st) == check_from(
            args,
            i + 1,
            CheckOptionsView { verbose: true, ..st },
        ),
        args[i] == "--design"@ && i + 1 < args.len() ==> check_from(args, i, st) == check_from(
            args,
            i + 2,
            CheckOptionsView { design_path: args[i + 1], ..st },
        ),
        args[i] == "--filter"@ && i + 1 < args.len() ==> check_from(args, i, st) == check_from(
            args,
            i + 2,
            CheckOptionsView { filter: Some(filter_ids(args[i + 1])), ..st },
        ),
{
    reveal_strlit("--design");
    reveal_strlit("--filter");
    reveal_strlit("--timings");
    reveal_strlit("--no-cache");
    reveal_strlit("--narrow");
    reveal_strlit("-v");
    reveal_strlit("--verbose");
    reveal_strlit("--format");
    assert("--timings"@[2] != "--verbose"@[2]);
    assert("--narrow"@[2] != "--design"@[2] && "--narrow"@[2] != "--filter"@[2]);
    assert("--design"@[2] != "--filter"@[2]);
    let a = args[i];
    if a == "--timings"@ || a == "--no-cache"@ || a == "--narrow"@ || a == "-v"@ || a == "--verbose"@ {
        assert(a[2] != 'f' || a.len() < 8);
        if a.len() >= 8 {
            assert(a.take(8)[2] != "--format"@[2]);
        }
    }
}

} // verus!
