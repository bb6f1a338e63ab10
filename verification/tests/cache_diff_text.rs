use adc::cache::collect_param_ids;
use adc::check::{evidence_positions, filter_positions};
use adc::diff::{diff_entries, lookup_first, Change};
use adc::status::CheckStatus;
use adc::text::{chars_eq, chars_of, find, find_from, lex_less, str_eq, string_of};

fn s(x: &str) -> String {
    x.to_string()
}

fn c(x: &str) -> Vec<char> {
    x.chars().collect()
}

#[test]
fn param_ids_are_sorted_unique_and_trimmed() {
    let part = r#"Part(id: "plate", features: [Block(id: "base", x: param("w"), y: param( "d" ), z: param("t")),
        Hole(id: "h", diameter: param("d"), depth: param(""))])"#;
    assert_eq!(collect_param_ids(part), vec![s("d"), s("t"), s("w")]);
    assert!(collect_param_ids("Part(id: \"x\")").is_empty());
    // an unclosed reference ends the scan
    assert_eq!(collect_param_ids("param(\"a\") param(\"b\""), vec![s("a")]);
}

#[test]
fn filter_and_evidence_selection() {
    let ids = vec![s("a_wall"), s("a_mass"), s("a_wall")];
    assert_eq!(filter_positions(&ids, &vec![s("a_wall")]), vec![0, 2]);
    assert_eq!(filter_positions(&ids, &vec![]), Vec::<usize>::new());
    let st = vec![CheckStatus::Fail, CheckStatus::Pass, CheckStatus::Pass];
    assert_eq!(evidence_positions(&ids, &st, None, Some("fail")), vec![0]);
    assert_eq!(evidence_positions(&ids, &st, Some("a_wall"), Some("pass")), vec![2]);
    assert_eq!(evidence_positions(&ids, &st, Some("nope"), None), Vec::<usize>::new());
    assert_eq!(evidence_positions(&ids, &st, None, None), vec![0, 1, 2]);
}

#[test]
fn diff_lists_each_changed_id_once_in_order() {
    let old = vec![(s("t"), s("4.0")), (s("a_wall"), s("min 2.5")), (s("w"), s("30"))];
    let new = vec![(s("w"), s("30")), (s("t"), s("5.0")), (s("b"), s("new")), (s("t"), s("9"))];
    let d = diff_entries(&old, &new);
    let lines: Vec<(String, Change, Option<String>, Option<String>)> =
        d.into_iter().map(|e| (e.id, e.change, e.old, e.new)).collect();
    assert_eq!(
        lines,
        vec![
            (s("a_wall"), Change::Removed, Some(s("min 2.5")), None),
            (s("b"), Change::Added, None, Some(s("new"))),
            (s("t"), Change::Changed, Some(s("4.0")), Some(s("5.0"))),
        ]
    );
    assert!(diff_entries(&old, &old).is_empty());
    assert_eq!(lookup_first(&new, "t"), Some(s("5.0")));
    assert_eq!(lookup_first(&new, "zz"), None);
}

#[test]
fn text_helpers() {
    assert_eq!(chars_of("aé"), vec!['a', 'é']);
    assert_eq!(string_of(&['x', 'y']), "xy");
    assert!(chars_eq(&c("ab"), &c("ab")));
    assert!(!chars_eq(&c("ab"), &c("abc")));
    assert!(str_eq("設計", "設計"));
    assert!(!str_eq("a", "b"));
    assert_eq!(find(&c("abcabc"), &c("ca")), Some(2));
    assert_eq!(find(&c("abc"), &c("")), Some(0));
    assert_eq!(find(&c("abc"), &c("x")), None);
    assert_eq!(find_from(&c("abcabc"), &c("b"), 2), Some(4));
    assert!(lex_less(&c("ab"), &c("b")));
    assert!(lex_less(&c("a"), &c("ab")));
    assert!(!lex_less(&c("ab"), &c("ab")));
    assert!(lex_less(&c("Z"), &c("a")));
}
