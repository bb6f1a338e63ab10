use adc::digest::{hex_lower, sha256_hex};
use adc::mcp::{
    edit_error_kind, edits_of, patch_action, plan_patch, AdcCore, EditArg, PatchAction, PatchPlan,
};
use adc::patch::{apply_edit, apply_edits, count_matches, Edit, EditError};

fn fixture() -> &'static str {
    r#"Design(
    schema_version: "0.1",
    intent: "m6-1 fixture",
    params: [Param(id: "t", value: Open(range: (1.0, 5.0), nominal: 4.0), unit: Mm, rationale: "r0")],
    materials: [Material(id: "a5052", density_g_cm3: 2.68, name: "A5052")],
    parts: [
        Part(id: "plate", material: "a5052", process: Machining,
            features: [Block(id: "base", x: 30.0, y: 20.0, z: param("t"))],
            anchors: []),
    ],
    assertions: [
        Assertion(id: "a_wall",
            check: WallThickness(part: "plate", min: 2.5, sample_density: 1.0), rationale: "r0"),
    ],
    rationales: [Rationale(id: "r0", author: Human("t"), basis: Assumption, note: "", timestamp: "2026-07-12T00:00:00Z")],
)"#
}

fn edit(old: &str, new: &str) -> Edit {
    Edit { old_string: old.to_string(), new_string: new.to_string() }
}

fn chars(s: &str) -> Vec<char> {
    s.chars().collect()
}

#[test]
fn sha256_hex_known_digests() {
    assert_eq!(sha256_hex(""), "e3b0c44298fc1c149afbf4c8996fb92427ae41e4649b934ca495991b7852b855");
    assert_eq!(
        sha256_hex("abc"),
        "ba7816bf8f01cfea414140de5dae2223b00361a396177a9cb410ff61f20015ad"
    );
    assert_eq!(sha256_hex(fixture()).len(), 64);
    assert_ne!(sha256_hex(fixture()), sha256_hex("abc"));
}

#[test]
fn hex_is_lowercase_two_digits_per_byte() {
    assert_eq!(hex_lower(&[]), "");
    assert_eq!(hex_lower(&[0x00, 0x0f, 0xa0, 0xff]), "000fa0ff");
}

#[test]
fn counting_matches_like_str_matches() {
    assert_eq!(count_matches(&chars("aaaa"), &chars("aa")), 2);
    assert_eq!(count_matches(&chars("abcabc"), &chars("c")), 2);
    assert_eq!(count_matches(&chars("abc"), &chars("x")), 0);
    assert_eq!(count_matches(&chars("abc"), &chars("")), 4);
    assert_eq!(count_matches(&chars(fixture()), &chars(r#""plate""#)), fixture().matches(r#""plate""#).count());
}

#[test]
fn single_edit_needs_exactly_one_match() {
    assert_eq!(apply_edit(&chars("a-b-c"), &chars("b"), &chars("BB")), Ok(chars("a-BB-c")));
    assert_eq!(apply_edit(&chars("a-b-b"), &chars("b"), &chars("x")), Err(2));
    assert_eq!(apply_edit(&chars("abc"), &chars("z"), &chars("x")), Err(0));
    assert_eq!(apply_edit(&chars(""), &chars(""), &chars("x")), Ok(chars("x")));
}

#[test]
fn edits_apply_in_order_and_stop_at_the_first_refusal() {
    let s = "min: 2.5, max: 9";
    assert_eq!(apply_edits(s, &vec![edit("min: 2.5", "min: 3.0"), edit("3.0", "3.5")]), Ok("min: 3.5, max: 9".to_string()));
    assert_eq!(
        apply_edits(s, &vec![edit("max", "MAX"), edit("zzz", "x"), edit(":", "=")]),
        Err(EditError { edit_index: 1, occurrences: 0 })
    );
    assert_eq!(apply_edits(s, &vec![edit(":", "=")]), Err(EditError { edit_index: 0, occurrences: 2 }));
    assert_eq!(apply_edits(s, &vec![]), Ok(s.to_string()));
}

#[test]
fn patch_with_unknown_or_repeated_text_is_refused() {
    let base = sha256_hex(fixture());
    match plan_patch(fixture(), &base, Some(vec![edit("存在しない文字列", "x")]), None) {
        PatchPlan::EditRefused(e) => {
            assert_eq!(e, EditError { edit_index: 0, occurrences: 0 });
            assert_eq!(edit_error_kind(&e), "not_found");
        }
        other => panic!("{other:?}"),
    }
    let occurrences = fixture().matches(r#""plate""#).count();
    assert!(occurrences > 1);
    match plan_patch(fixture(), &base, Some(vec![edit(r#""plate""#, r#""p2""#)]), None) {
        PatchPlan::EditRefused(e) => {
            assert_eq!(e.occurrences, occurrences);
            assert_eq!(edit_error_kind(&e), "ambiguous");
        }
        other => panic!("{other:?}"),
    }
}

#[test]
fn stale_base_digest_is_a_conflict() {
    match plan_patch(fixture(), "deadbeef", Some(vec![edit("min: 2.5", "min: 3.0")]), None) {
        PatchPlan::Conflict { current_sha256 } => assert_eq!(current_sha256, sha256_hex(fixture())),
        other => panic!("{other:?}"),
    }
}

#[test]
fn candidates_from_edits_or_full_source() {
    let base = sha256_hex(fixture());
    match plan_patch(fixture(), &base, Some(vec![edit("min: 2.5", "min: 0.5")]), None) {
        PatchPlan::Candidate(t) => assert_eq!(t, fixture().replace("min: 2.5", "min: 0.5")),
        other => panic!("{other:?}"),
    }
    match plan_patch(fixture(), &base, None, Some("Design()".to_string())) {
        PatchPlan::Candidate(t) => assert_eq!(t, "Design()"),
        other => panic!("{other:?}"),
    }
    assert!(matches!(plan_patch(fixture(), &base, None, None), PatchPlan::InvalidArgs));
    assert!(matches!(
        plan_patch(fixture(), &base, Some(vec![]), Some("x".to_string())),
        PatchPlan::InvalidArgs
    ));
}

#[test]
fn gated_writes_only_passing_candidates() {
    assert_eq!(patch_action(true, 1, false), PatchAction::RejectGatedFail);
    assert_eq!(patch_action(true, 2, true), PatchAction::RejectGatedFail);
    assert_eq!(patch_action(true, 0, false), PatchAction::Write);
    assert_eq!(patch_action(false, 1, false), PatchAction::Write);
    assert_eq!(patch_action(false, 1, true), PatchAction::DryRun);
    assert_eq!(patch_action(true, 0, true), PatchAction::DryRun);
}

#[test]
fn tool_edits_become_edits() {
    assert!(edits_of(None).is_none());
    let es = edits_of(Some(vec![EditArg { old_string: "a".to_string(), new_string: "b".to_string() }])).unwrap();
    assert_eq!(es.len(), 1);
    assert_eq!(es[0].old_string, "a");
    assert_eq!(es[0].new_string, "b");
}

#[test]
fn cache_lives_next_to_the_design() {
    let core = AdcCore::new("/work/proj/design.ron".to_string(), true);
    assert!(core.gated);
    assert_eq!(core.opts(false).cache_dir, Some("/work/proj/.adc/cache".to_string()));
    assert_eq!(core.opts(true).cache_dir, None);
    let core = AdcCore::new("design.ron".to_string(), false);
    assert_eq!(core.opts(false).cache_dir, Some(".adc/cache".to_string()));
    let core = AdcCore::new("/".to_string(), false);
    assert_eq!(core.opts(false).cache_dir, None);
}
