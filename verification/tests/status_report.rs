use adc::check::{
    bisect_step, narrow_target, status_label, status_rank, BisectStep, BoundingBoxChecker,
    ClearanceChecker, FailEnd, NoInterferenceChecker,
};
use adc::diff::{margin_status_label, worsened};
use adc::report::{escape_cell, evidence_cell, report_group, status_cell, status_counts};
use adc::status::{exit_code, CheckStatus};

fn inc(reason: &str) -> CheckStatus {
    CheckStatus::Inconclusive { reason: reason.to_string() }
}

#[test]
fn exit_code_is_zero_one_or_two() {
    assert_eq!(exit_code(&[]), 0);
    assert_eq!(exit_code(&[CheckStatus::Pass, CheckStatus::Pass]), 0);
    assert_eq!(exit_code(&[CheckStatus::Pass, CheckStatus::Fail]), 1);
    assert_eq!(exit_code(&[CheckStatus::Pass, inc("E-X")]), 2);
    // a failure decides before an inconclusive result
    assert_eq!(exit_code(&[CheckStatus::Fail, inc("E-X"), CheckStatus::Pass]), 1);
    assert_eq!(exit_code(&[inc("E-X"), CheckStatus::Fail]), 1);
    assert_eq!(exit_code(&[inc("E-X"), inc("E-Y")]), 2);
}

#[test]
fn status_rank_orders_fail_over_inconclusive_over_pass() {
    assert_eq!(status_rank(&CheckStatus::Fail), 2);
    assert_eq!(status_rank(&inc("r")), 1);
    assert_eq!(status_rank(&CheckStatus::Pass), 0);
}

#[test]
fn status_labels_are_lowercase_names() {
    assert_eq!(status_label(&CheckStatus::Pass), "pass");
    assert_eq!(status_label(&CheckStatus::Fail), "fail");
    assert_eq!(status_label(&inc("r")), "inconclusive");
    assert_eq!(margin_status_label(&CheckStatus::Pass), "Pass");
    assert_eq!(margin_status_label(&CheckStatus::Fail), "Fail");
    assert_eq!(margin_status_label(&inc("E-MASS")), "Inconclusive(E-MASS)");
}

#[test]
fn worsened_only_when_newly_failing() {
    assert!(worsened(&CheckStatus::Pass, &CheckStatus::Fail));
    assert!(worsened(&inc("r"), &CheckStatus::Fail));
    assert!(!worsened(&CheckStatus::Pass, &inc("r")));
    assert!(!worsened(&CheckStatus::Fail, &CheckStatus::Pass));
    assert!(!worsened(&CheckStatus::Fail, &CheckStatus::Fail));
}

#[test]
fn checker_ids() {
    assert_eq!(BoundingBoxChecker.id(), "bounding_box");
    assert_eq!(ClearanceChecker.id(), "clearance");
    assert_eq!(NoInterferenceChecker.id(), "no_interference");
}

#[test]
fn narrowing_only_for_one_sided_failures() {
    let p = CheckStatus::Pass;
    let f = CheckStatus::Fail;
    assert_eq!(narrow_target(&f, &p, &p), Some(FailEnd::Lo));
    assert_eq!(narrow_target(&p, &p, &f), Some(FailEnd::Hi));
    assert_eq!(narrow_target(&p, &p, &p), None);
    assert_eq!(narrow_target(&f, &p, &f), None);
    assert_eq!(narrow_target(&f, &f, &p), None);
    assert_eq!(narrow_target(&f, &inc("r"), &p), None);
    assert_eq!(narrow_target(&inc("r"), &p, &f), Some(FailEnd::Hi));
}

#[test]
fn bisection_steps() {
    assert_eq!(bisect_step(Some(&CheckStatus::Fail)), BisectStep::MoveBad);
    assert_eq!(bisect_step(Some(&CheckStatus::Pass)), BisectStep::MoveGood);
    assert_eq!(bisect_step(Some(&inc("r"))), BisectStep::Stop);
    assert_eq!(bisect_step(None), BisectStep::Stop);
}

#[test]
fn report_cells() {
    assert_eq!(status_cell(&CheckStatus::Pass), "✅ Pass");
    assert_eq!(status_cell(&CheckStatus::Fail), "❌ Fail");
    assert_eq!(status_cell(&inc("r")), "⚠️ Inconclusive");
    assert_eq!(report_group(&CheckStatus::Fail), 0);
    assert_eq!(report_group(&inc("r")), 1);
    assert_eq!(report_group(&CheckStatus::Pass), 2);
}

#[test]
fn escape_cell_escapes_pipes_and_line_breaks() {
    assert_eq!(escape_cell("a|b\nc", 120), "a\\|b c");
    assert_eq!(escape_cell("", 3), "");
    assert_eq!(escape_cell("abcd", 4), "abcd");
    assert_eq!(escape_cell("abcde", 4), "abcd…");
    // the cut counts characters of the escaped text
    assert_eq!(escape_cell("||", 3), "\\|\\…");
    assert_eq!(escape_cell("肉厚が不足", 2), "肉厚…");
}

#[test]
fn evidence_cell_uses_reason_or_joined_notes() {
    let notes = vec!["min 2.5".to_string(), "at x|y".to_string()];
    assert_eq!(evidence_cell(&CheckStatus::Pass, &notes), "min 2.5 / at x\\|y");
    assert_eq!(evidence_cell(&CheckStatus::Fail, &vec![]), "");
    assert_eq!(evidence_cell(&inc("E-COMPILE\nboom"), &notes), "E-COMPILE boom");
    let long = "x".repeat(130);
    let cell = evidence_cell(&CheckStatus::Fail, &vec![long]);
    assert_eq!(cell.chars().count(), 121);
    assert!(cell.ends_with('…'));
}

#[test]
fn status_counts_sum_to_total() {
    let s = vec![CheckStatus::Fail, CheckStatus::Pass, inc("r"), CheckStatus::Fail];
    assert_eq!(status_counts(&s), (2, 1, 1));
    assert_eq!(status_counts(&[]), (0, 0, 0));
}
