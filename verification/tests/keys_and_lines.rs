use adc::assembly::dof_line;
use adc::cache::{part_cache_key, result_cache_key};
use adc::check::{cache_event_line, CacheEvent};
use adc::diff::{diff_line, Change, EntryDiff};
use adc::ledger::{AnchorKindTag, BindError, ElemRef, EntryHistory, FaceGroup, FaceGroupError, Ledger, Provided};
use adc::mcp::{edit_error_message, patch_action, PatchAction};
use adc::patch::EditError;
use adc::report::{escape_cell, summary_line, table_row};
use adc::status::{exit_code, CheckStatus};
use sha2::{Digest, Sha256};

fn s(x: &str) -> String {
    x.to_string()
}

fn hex(text: &str) -> String {
    Sha256::digest(text.as_bytes()).iter().map(|b| format!("{b:02x}")).collect()
}

#[test]
fn part_key_hashes_version_part_and_params() {
    let params = vec![(s("t"), s("Some(4.0)")), (s("w"), s("None"))];
    assert_eq!(
        part_cache_key("0.1.0", "Part(id:\"p\")", &params),
        hex("adc:0.1.0|Part(id:\"p\")|t=Some(4.0)|w=None")
    );
    assert_eq!(part_cache_key("0.1.0", "P", &vec![]), hex("adc:0.1.0|P"));
    // a changed parameter value changes the key
    let other = vec![(s("t"), s("Some(5.0)")), (s("w"), s("None"))];
    assert_ne!(part_cache_key("0.1.0", "P", &params), part_cache_key("0.1.0", "P", &other));
}

#[test]
fn result_key_hashes_every_dependency() {
    let params = vec![(s("t"), s("Some(4.0)"))];
    let parts = vec![(s("plate"), s("abc"))];
    assert_eq!(
        result_cache_key("0.1.0", "A", &params, Some("Assy"), &parts),
        hex("adcres:0.1.0|A|p:t=Some(4.0)|assy:Assy|part:plate=abc")
    );
    assert_eq!(result_cache_key("0.1.0", "A", &vec![], None, &vec![]), hex("adcres:0.1.0|A"));
}

#[test]
fn report_rows_and_summary() {
    assert_eq!(table_row(&vec![s("❌ Fail"), s("a_wall"), s("-")]), "| ❌ Fail | a_wall | - |\n");
    assert_eq!(table_row(&vec![]), "|  |\n");
    assert_eq!(
        summary_line((2, 0, 13), 15),
        "**2 Fail / 0 Inconclusive / 13 Pass**(全15件)\n\n"
    );
}

#[test]
fn diff_lines() {
    let d = |change, old: Option<&str>, new: Option<&str>| EntryDiff {
        id: s("t"),
        change,
        old: old.map(s),
        new: new.map(s),
    };
    assert_eq!(diff_line(&d(Change::Added, None, Some("4.0"))), "+ t: 4.0");
    assert_eq!(diff_line(&d(Change::Removed, Some("4.0"), None)), "- t: 4.0");
    assert_eq!(diff_line(&d(Change::Changed, Some("4.0"), Some("5.0"))), "~ t: 4.0 → 5.0");
    assert_eq!(diff_line(&d(Change::Changed, None, None)), "~ t: - → -");
}

#[test]
fn log_lines() {
    assert_eq!(cache_event_line(&CacheEvent::PartHit(s("plate"))), "cache\tpart:plate\thit");
    assert_eq!(cache_event_line(&CacheEvent::PartCompiled(s("plate"))), "cache\tpart:plate\tcompiled");
    assert_eq!(cache_event_line(&CacheEvent::ResultHit(s("a"))), "cache\tresult:a\thit");
    assert_eq!(cache_event_line(&CacheEvent::ResultComputed(s("a"))), "cache\tresult:a\tcomputed");
    assert_eq!(dof_line("housing_i", 3, "m_house: coincident(-3)"), "dof\thousing_i\t残3\tm_house: coincident(-3)");
    assert_eq!(dof_line("g", 0, "ground(固定)"), "dof\tg\t残0\tground(固定)");
}

#[test]
fn refused_edit_message() {
    let e = EditError { edit_index: 1, occurrences: 12 };
    assert_eq!(edit_error_message(&e), "edits[1] の old_string が 12 箇所に一致(1箇所であること)");
}

#[test]
fn edge_selection_faces() {
    let mut l: Ledger<u32, u32, u32> = Ledger::new();
    l.insert(s("base"), s("top"), Provided::Face(1));
    l.insert(s("pocket"), s("walls"), Provided::FaceSet(vec![3, 4]));
    l.insert(s("bore"), s("wall"), Provided::Deleted { by_feature: s("cut2") });
    l.insert(s("bore"), s("axis"), Provided::Axis(7));
    assert!(matches!(l.face_group("base", &ElemRef::Face(s("top"))), Ok(FaceGroup::One(&1))));
    match l.face_group("pocket", &ElemRef::Face(s("walls"))) {
        Ok(FaceGroup::Faces(v)) => assert_eq!(v, &vec![3, 4]),
        _ => panic!("a face set"),
    }
    match l.face_group("bore", &ElemRef::Face(s("wall"))) {
        Err(FaceGroupError::Geometry { message }) => {
            assert_eq!(message, "エッジ選択の参照面 bore.wall は \"cut2\" の操作で消滅しています")
        }
        _ => panic!("deleted"),
    }
    match l.face_group("bore", &ElemRef::Face(s("axis"))) {
        Err(FaceGroupError::Geometry { message }) => assert_eq!(message, "エッジ選択の参照 bore.axis が面ではありません(axis)"),
        _ => panic!("not a face"),
    }
    assert!(matches!(l.face_group("x", &ElemRef::Face(s("y"))), Err(FaceGroupError::UnknownProvides { .. })));
    assert!(matches!(l.face_group("bore", &ElemRef::Axis(s("axis"))), Err(FaceGroupError::NotFaceElem)));
}

#[test]
fn anchor_follows_its_face_through_an_operation() {
    let mut l: Ledger<u32, u32, u32> = Ledger::new();
    l.insert(s("a"), s("kept"), Provided::Face(1));
    l.insert(s("a"), s("moved"), Provided::Face(2));
    l.insert(s("a"), s("gone"), Provided::Face(3));
    l.insert(s("a"), s("split"), Provided::Face(4));
    l.forward_all(
        vec![
            EntryHistory::Face { mapped: vec![], removed: false },
            EntryHistory::Face { mapped: vec![20], removed: false },
            EntryHistory::Face { mapped: vec![], removed: true },
            EntryHistory::Face { mapped: vec![40, 41, 42], removed: false },
        ],
        "cut1",
    );
    let bind = |n: &str| l.bind_anchor("x", AnchorKindTag::Face, "a", &ElemRef::Face(s(n)));
    assert_eq!(bind("kept").unwrap(), (s("a"), s("kept")));
    assert_eq!(bind("moved").unwrap(), (s("a"), s("moved")));
    assert_eq!(l.provided_face("a", "moved"), Some(&20));
    assert!(matches!(bind("gone"), Err(BindError::Deleted { ref by_feature, .. }) if by_feature == "cut1"));
    assert!(matches!(bind("split"), Err(BindError::Ambiguous { count: 3, ref by_feature, .. }) if by_feature == "cut1"));
}

#[test]
fn gated_server_writes_only_when_every_result_passes() {
    let all_pass = vec![CheckStatus::Pass, CheckStatus::Pass];
    let one_fail = vec![CheckStatus::Pass, CheckStatus::Fail];
    let one_inc = vec![CheckStatus::Inconclusive { reason: s("E-X") }];
    assert_eq!(patch_action(true, exit_code(&all_pass), false), PatchAction::Write);
    assert_eq!(patch_action(true, exit_code(&one_fail), false), PatchAction::RejectGatedFail);
    assert_eq!(patch_action(true, exit_code(&one_inc), false), PatchAction::RejectGatedFail);
    assert_eq!(patch_action(false, exit_code(&one_fail), false), PatchAction::Write);
}

#[test]
fn cells_never_break_the_table_row() {
    for (text, max) in [("a|b\nc|", 120), ("|\n|\n|", 3), ("x\n", 1), ("||||", 2)] {
        let cell = escape_cell(text, max);
        assert!(!cell.contains('\n'));
        let cs: Vec<char> = cell.chars().collect();
        for (k, c) in cs.iter().enumerate() {
            if *c == '|' {
                assert!(k > 0 && cs[k - 1] == '\\', "{cell}");
            }
        }
    }
}
