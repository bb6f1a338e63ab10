//! The core of the MCP server, bound to one design: where its cache lives,
//! the arguments of its tools, and the decisions of `design_patch`
//! (optimistic lock, edits or full source, gated writes).
use vstd::prelude::*;
use crate::check::CheckOptions;
use crate::compile::{decimal, push_decimal};
use crate::status::{spec_exit_code, CheckStatus};
use crate::digest::{sha256_hex, sha256_of, spec_hex_lower};
use crate::patch::{
    apply_edits, edit_views, saturate, spec_apply_edit, spec_apply_edits, spec_apply_edits_from, Edit,
    EditError,
};
use crate::text::str_eq;

verus! {

/// The parent directory of a path (`std::path::Path::parent`), in the path
/// syntax of the platform that the library is built for.
pub uninterp spec fn path_parent(path: Seq<char>) -> Option<Seq<char>>;

/// A path extended by one component (`std::path::Path::join`), in the path
/// syntax of the platform that the library is built for.
pub uninterp spec fn path_join(base: Seq<char>, name: Seq<char>) -> Seq<char>;

/// `Path::parent` of the path `p`, as text: the result is the one named
/// `path_parent(p)`.
#[verifier::external_body]
fn parent_of(p: &str) -> (r: Option<String>)
    ensures
        match r {
            Some(d) => path_parent(p@) == Some(d@),
            None => path_parent(p@) is None,
        },
{
    std::path::Path::new(p).parent().map(|d| d.to_string_lossy().into_owned())
}

/// `Path::join` of `base` and `name`, as text: the result is the one named
/// `path_join(base, name)`.
#[verifier::external_body]
fn join_path(base: &str, name: &str) -> (r: String)
    ensures
        r@ == path_join(base@, name@),
{
    std::path::Path::new(base).join(name).to_string_lossy().into_owned()
}

/// The cache directory of a design: `<parent of the design>/.adc/cache`.
pub open spec fn spec_cache_dir(design_path: Seq<char>) -> Option<Seq<char>> {
    match path_parent(design_path) {
        Some(d) => Some(path_join(path_join(d, ".adc"@), "cache"@)),
        None => None,
    }
}

/// The server core: one design, optionally gated (patches are written only
/// when every check passes).
#[derive(Clone, Debug)]
pub struct AdcCore {
    pub design_path: String,
    pub gated: bool,
}

impl AdcCore {
    pub fn new(design_path: String, gated: bool) -> (c: AdcCore)
        ensures
            c.design_path@ == design_path@,
            c.gated == gated,
    {
        AdcCore { design_path, gated }
    }

    /// The same cache location as the command line: `.adc/cache` next to the
    /// design, none when `no_cache`.
    pub fn opts(&self, no_cache: bool) -> (o: CheckOptions)
        ensures
            no_cache ==> o.cache_dir is None,
            !no_cache ==> match o.cache_dir {
                Some(d) => spec_cache_dir(self.design_path@) == Some(d@),
                None => spec_cache_dir(self.design_path@) is None,
            },
    {
        if no_cache {
            return CheckOptions { cache_dir: None };
        }
        match parent_of(self.design_path.as_str()) {
            Some(d) => {
                let a = join_path(d.as_str(), ".adc");
                let c = join_path(a.as_str(), "cache");
                CheckOptions { cache_dir: Some(c) }
            },
            None => CheckOptions { cache_dir: None },
        }
    }
}

/// What `design_patch` does with a request before validation.
#[derive(Debug)]
pub enum PatchPlan {
    /// `base_sha256` is not the digest of the current source
    Conflict { current_sha256: String },
    /// neither or both of `edits` and `full_source` were given
    InvalidArgs,
    /// an edit did not match exactly once
    EditRefused(EditError),
    /// the new source to validate
    Candidate(String),
}

/// The plan of `design_patch` for `source`: a conflict when `base_sha256` is
/// not the current digest; otherwise the full source, or the source with the
/// edits applied, when exactly one of them is given.
pub open spec fn plan_is(
    p: PatchPlan,
    source: Seq<char>,
    base_sha256: Seq<char>,
    edits: Option<Seq<Edit>>,
    full_source: Option<Seq<char>>,
) -> bool {
    let current = spec_hex_lower(sha256_of(source));
    if current != base_sha256 {
        p matches PatchPlan::Conflict { current_sha256 } && current_sha256@ == current
    } else {
        match (edits, full_source) {
            (None, Some(f)) => p matches PatchPlan::Candidate(t) && t@ == f,
            (Some(es), None) => match spec_apply_edits(source, edit_views(es)) {
                Ok(t) => p matches PatchPlan::Candidate(c) && c@ == t,
                Err((i, n)) => p matches PatchPlan::EditRefused(e) && e.edit_index == i
                    && e.occurrences == saturate(n),
            },
            _ => p is InvalidArgs,
        }
    }
}

pub open spec fn opt_string_view(o: Option<String>) -> Option<Seq<char>> {
    match o {
        Some(s) => Some(s@),
        None => None,
    }
}

pub open spec fn opt_edits_view(o: Option<Vec<Edit>>) -> Option<Seq<Edit>> {
    match o {
        Some(v) => Some(v@),
        None => None,
    }
}

/// Decides what to do with a patch request against the current `source`.
pub fn plan_patch(
    source: &str,
    base_sha256: &str,
    edits: Option<Vec<Edit>>,
    full_source: Option<String>,
) -> (p: PatchPlan)
    ensures
        plan_is(p, source@, base_sha256@, opt_edits_view(edits), opt_string_view(full_source)),
{
    let current = sha256_hex(source);
    if !str_eq(current.as_str(), base_sha256) {
        return PatchPlan::Conflict { current_sha256: current };
    }
    match (edits, full_source) {
        (None, Some(f)) => PatchPlan::Candidate(f),
        (Some(es), None) => match apply_edits(source, &es) {
            Ok(t) => PatchPlan::Candidate(t),
            Err(e) => PatchPlan::EditRefused(e),
        },
        _ => PatchPlan::InvalidArgs,
    }
}

/// `not_found` when the old string did not occur, `ambiguous` when it
/// occurred more than once.
pub fn edit_error_kind(e: &EditError) -> (k: &'static str)
    ensures
        k@ == (if e.occurrences == 0 {
            "not_found"@
        } else {
            "ambiguous"@
        }),
{
    if e.occurrences == 0 {
        "not_found"
    } else {
        "ambiguous"
    }
}

/// The message of a refused edit:
/// `edits[<i>] の old_string が <n> 箇所に一致(1箇所であること)`.
pub open spec fn spec_edit_error_message(e: EditError) -> Seq<char> {
    "edits["@ + decimal(e.edit_index as nat) + "] の old_string が "@ + decimal(
        e.occurrences as nat,
    ) + " 箇所に一致(1箇所であること)"@
}

pub fn edit_error_message(e: &EditError) -> (m: String)
    ensures
        m@ == spec_edit_error_message(*e),
{
    let mut m = "edits[".to_owned();
    push_decimal(&mut m, e.edit_index);
    m = m.concat("] の old_string が ");
    push_decimal(&mut m, e.occurrences);
    m.concat(" 箇所に一致(1箇所であること)")
}

/// What happens to a validated candidate source.
#[derive(Clone, Copy, Debug, PartialEq, Eq, Structural)]
pub enum PatchAction {
    /// gated and the check of the candidate did not pass: nothing is written
    RejectGatedFail,
    /// report what would be written
    DryRun,
    /// write the candidate
    Write,
}

pub open spec fn spec_patch_action(gated: bool, gate_exit_code: u8, dry_run: bool) -> PatchAction {
    if gated && gate_exit_code != 0 {
        PatchAction::RejectGatedFail
    } else if dry_run {
        PatchAction::DryRun
    } else {
        PatchAction::Write
    }
}

/// A gated server writes only a candidate whose check exits with 0 (every
/// assertion passes); a dry run never writes.
pub fn patch_action(gated: bool, gate_exit_code: u8, dry_run: bool) -> (a: PatchAction)
    ensures
        a == spec_patch_action(gated, gate_exit_code, dry_run),
{
    if gated && gate_exit_code != 0 {
        PatchAction::RejectGatedFail
    } else if dry_run {
        PatchAction::DryRun
    } else {
        PatchAction::Write
    }
}

/// Law (optimistic lock): a patch conflicts exactly when its base digest is
/// not the digest of the current source; a conflict carries the current
/// digest.
pub proof fn law_stale_base_is_conflict(
    p: PatchPlan,
    source: Seq<char>,
    base_sha256: Seq<char>,
    edits: Option<Seq<Edit>>,
    full_source: Option<Seq<char>>,
)
    requires
        plan_is(p, source, base_sha256, edits, full_source),
    ensures
        (p is Conflict) <==> base_sha256 != spec_hex_lower(sha256_of(source)),
        p matches PatchPlan::Conflict { current_sha256 } ==> current_sha256@ == spec_hex_lower(
            sha256_of(source),
        ),
{
}

/// Law (gated writes): when the check of a candidate gives the statuses
/// `results`, a gated server writes the candidate only if every result
/// passes; a server that is not gated writes it whatever the results.
pub proof fn law_gated_writes_only_all_pass(results: Seq<CheckStatus>, dry_run: bool)
    ensures
        spec_patch_action(true, spec_exit_code(results), dry_run) == PatchAction::Write
            ==> forall|i: int| 0 <= i < results.len() ==> results[i] is Pass,
        spec_patch_action(true, spec_exit_code(results), dry_run) is RejectGatedFail
            <== exists|i: int| 0 <= i < results.len() && !(results[i] is Pass),
        !dry_run ==> spec_patch_action(false, spec_exit_code(results), dry_run)
            == PatchAction::Write,
{
    if exists|i: int| 0 <= i < results.len() && !(results[i] is Pass) {
        let i = choose|i: int| 0 <= i < results.len() && !(results[i] is Pass);
        assert(results[i] is Fail || results[i] is Inconclusive);
    }
}

/// Law (what a patch proposes): against the current digest, a full source
/// alone is proposed as it is; edits alone propose the source with the edits
/// applied in order, or are refused at the first edit that does not match
/// exactly once with its index and number of matches; both or neither are
/// invalid arguments.
pub proof fn law_patch_candidate(
    p: PatchPlan,
    source: Seq<char>,
    base_sha256: Seq<char>,
    edits: Option<Seq<Edit>>,
    full_source: Option<Seq<char>>,
)
    requires
        plan_is(p, source, base_sha256, edits, full_source),
        base_sha256 == spec_hex_lower(sha256_of(source)),
    ensures
        full_source matches Some(f) ==> (edits is None ==> (p matches PatchPlan::Candidate(t)
            && t@ == f)),
        (edits is None) == (full_source is None) ==> p is InvalidArgs,
        edits matches Some(es) ==> (full_source is None ==> match spec_apply_edits(
            source,
            edit_views(es),
        ) {
            Ok(t) => p matches PatchPlan::Candidate(c) && c@ == t,
            Err((i, n)) => p matches PatchPlan::EditRefused(e) && e.edit_index == i && (n
                <= usize::MAX ==> e.occurrences == n) && n != 1,
        }),
{
    match edits {
        Some(es) => {
            if full_source is None {
                lemma_edit_refusal_count(source, edit_views(es), 0);
            }
        },
        None => {},
    }
}

proof fn lemma_edit_refusal_count(s: Seq<char>, edits: Seq<(Seq<char>, Seq<char>)>, from: int)
    ensures
        spec_apply_edits_from(s, edits, from) matches Err((i, n)) ==> n != 1 && from <= i < edits.len(),
    decreases edits.len() - from,
{
    if 0 <= from < edits.len() {
        match spec_apply_edit(s, edits[from].0, edits[from].1) {
            Ok(t) => lemma_edit_refusal_count(t, edits, from + 1),
            Err(n) => {},
        }
    }
}

/// Law (dry runs and ungated servers): a dry run never writes; a server that
/// is not gated never refuses for the check's sake.
pub proof fn law_dry_run_never_writes(gated: bool, gate_exit_code: u8, dry_run: bool)
    ensures
        dry_run ==> spec_patch_action(gated, gate_exit_code, dry_run) != PatchAction::Write,
        !gated ==> spec_patch_action(gated, gate_exit_code, dry_run) != PatchAction::RejectGatedFail,
        gated && gate_exit_code == 0 && !dry_run ==> spec_patch_action(gated, gate_exit_code, dry_run)
            == PatchAction::Write,
{
}

// ---------------------------------------------------------------- tool arguments

/// Arguments of a tool without arguments.
#[derive(Clone, Debug)]
pub struct EmptyArgs {}

/// One edit of `design_patch`.
#[derive(Clone, Debug)]
pub struct EditArg {
    pub old_string: String,
    pub new_string: String,
}

/// Arguments of `design_patch`.
#[derive(Clone, Debug)]
pub struct PatchArgs {
    pub base_sha256: String,
    pub edits: Option<Vec<EditArg>>,
    pub full_source: Option<String>,
    pub dry_run: Option<bool>,
}

/// Arguments of `build_and_check`.
#[derive(Clone, Debug)]
pub struct CheckArgs {
    pub narrow: Option<bool>,
    pub filter: Option<Vec<String>>,
    pub no_cache: Option<bool>,
}

/// Arguments of `evidence_query`.
#[derive(Clone, Debug)]
pub struct EvidenceArgs {
    pub assert_id: Option<String>,
    pub status: Option<String>,
}

/// Arguments of `narrow_param`.
#[derive(Clone, Debug)]
pub struct NarrowArgs {
    pub param: Option<String>,
}

/// Arguments of `explain`.
#[derive(Clone, Debug)]
pub struct ExplainArgs {
    pub id: String,
}

/// The edits of a `design_patch` call, each argument edit as an edit.
pub fn edits_of(args: Option<Vec<EditArg>>) -> (r: Option<Vec<Edit>>)
    ensures
        args is None <==> r is None,
        args matches Some(a) ==> r matches Some(es) && es@.len() == a@.len() && forall|i: int|
            0 <= i < a@.len() ==> (#[trigger] es@[i]).old_string@ == a@[i].old_string@
                && es@[i].new_string@ == a@[i].new_string@,
{
    match args {
        None => None,
        Some(a) => {
            let mut es: Vec<Edit> = Vec::new();
            let mut i: usize = 0;
            while i < a.len()
                invariant
                    i <= a@.len(),
                    es@.len() == i,
                    forall|j: int|
                        0 <= j < i ==> (#[trigger] es@[j]).old_string@ == a@[j].old_string@
                            && es@[j].new_string@ == a@[j].new_string@,
                decreases a@.len() - i,
            {
                let e = Edit {
                    old_string: a[i].old_string.clone(),
                    new_string: a[i].new_string.clone(),
                };
                es.push(e);
                i = i + 1;
            }
            Some(es)
        },
    }
}

} // verus!
