use adc::cli::{
    check_command, diff_command, explain_command, export_command, parse_filter, report_input,
    server_command, subcommand, wants_help, ServerArgError, ServerCommand, Subcommand,
};

fn args(a: &[&str]) -> Vec<String> {
    a.iter().map(|s| s.to_string()).collect()
}

#[test]
fn help_is_found_anywhere() {
    assert!(wants_help(&args(&["check", "-h"])));
    assert!(wants_help(&args(&["--help"])));
    assert!(!wants_help(&args(&["check", "--design", "d.ron"])));
    assert!(!wants_help(&args(&[])));
}

#[test]
fn subcommands() {
    assert_eq!(
        subcommand(&args(&[])),
        Err("usage: adc <explain|export|check|diff|report> ...(adc --help参照)".to_string())
    );
    assert_eq!(subcommand(&args(&["check", "x"])), Ok(Subcommand::Check));
    assert_eq!(subcommand(&args(&["help"])), Ok(Subcommand::Help));
    assert_eq!(subcommand(&args(&["-h"])), Ok(Subcommand::Help));
    assert_eq!(subcommand(&args(&["--version"])), Ok(Subcommand::Version));
    assert_eq!(subcommand(&args(&["explain"])), Ok(Subcommand::Explain));
    assert_eq!(subcommand(&args(&["export"])), Ok(Subcommand::Export));
    assert_eq!(subcommand(&args(&["diff"])), Ok(Subcommand::Diff));
    assert_eq!(subcommand(&args(&["report"])), Ok(Subcommand::Report));
    assert_eq!(
        subcommand(&args(&["frob"])),
        Err("未知のサブコマンド: frob(使えるのは explain / export / check / diff / report。adc --help参照)"
            .to_string())
    );
}

#[test]
fn check_defaults_and_every_option() {
    let c = check_command(&args(&[])).unwrap();
    assert_eq!(c.design_path, "./design.ron");
    assert_eq!(c.format, "text");
    assert!(c.filter.is_none());
    assert!(!c.timings && !c.no_cache && !c.narrow && !c.verbose);

    let c = check_command(&args(&[
        "--design", "d.ron", "--format=jsonl", "--filter", "a, b", "--timings", "--no-cache",
        "--narrow", "-v",
    ]))
    .unwrap();
    assert_eq!(c.design_path, "d.ron");
    assert_eq!(c.format, "jsonl");
    assert_eq!(c.filter, Some(vec!["a".to_string(), "b".to_string()]));
    assert!(c.timings && c.no_cache && c.narrow && c.verbose);

    let c = check_command(&args(&["--format", "jsonl", "--verbose"])).unwrap();
    assert_eq!(c.format, "jsonl");
    assert!(c.verbose);
}

#[test]
fn check_errors() {
    assert_eq!(
        check_command(&args(&["--format", "xml"])).unwrap_err(),
        "checkの出力は jsonl | text: xml"
    );
    assert_eq!(check_command(&args(&["--format"])).unwrap_err(), "--format には値が必要です");
    assert_eq!(check_command(&args(&["--design"])).unwrap_err(), "--design にはパスが必要です");
    assert_eq!(check_command(&args(&["--filter"])).unwrap_err(), "--filter にはID列が必要です");
    assert_eq!(check_command(&args(&["extra"])).unwrap_err(), "不明な引数: extra");
    // the first error wins
    assert_eq!(
        check_command(&args(&["--bogus", "--format=xml"])).unwrap_err(),
        "不明な引数: --bogus"
    );
}

#[test]
fn filter_values_are_split_and_trimmed() {
    assert_eq!(parse_filter("a, b ,c"), vec!["a", "b", "c"]);
    assert_eq!(parse_filter(""), vec![""]);
    assert_eq!(parse_filter("a,,b"), vec!["a", "", "b"]);
    // Unicode whitespace is trimmed too (U+3000, tab)
    assert_eq!(parse_filter("\ta_wall\u{3000},x"), vec!["a_wall", "x"]);
}

#[test]
fn explain_arguments() {
    let e = explain_command(&args(&["wall_t"])).unwrap();
    assert_eq!(e.id, "wall_t");
    assert_eq!(e.design_path, "./design.ron");
    let e = explain_command(&args(&["--design", "x.ron", "wall_t", "--format=json"])).unwrap();
    assert_eq!(e.id, "wall_t");
    assert_eq!(e.design_path, "x.ron");
    assert_eq!(
        explain_command(&args(&[])).unwrap_err(),
        "usage: adc explain <id> [--design <path>] [--format=json]"
    );
    assert_eq!(explain_command(&args(&["a", "b"])).unwrap_err(), "不明な引数: b");
    assert_eq!(
        explain_command(&args(&["a", "--format", "text"])).unwrap_err(),
        "explain の出力は json のみ対応です: text"
    );
}

#[test]
fn export_arguments() {
    let e = export_command(&args(&["--step"])).unwrap();
    assert_eq!(e.design_path, "./design.ron");
    assert_eq!(e.out_dir, "./out");
    let e = export_command(&args(&["--out", "o", "--step", "--design", "d"])).unwrap();
    assert_eq!(e.out_dir, "o");
    assert_eq!(e.design_path, "d");
    assert_eq!(
        export_command(&args(&[])).unwrap_err(),
        "usage: adc export --step [--design <path>] [--out <dir>]"
    );
    assert_eq!(export_command(&args(&["--step", "--out"])).unwrap_err(), "--out にはパスが必要です");
    assert_eq!(export_command(&args(&["--stl"])).unwrap_err(), "不明な引数: --stl");
}

#[test]
fn diff_arguments() {
    let d = diff_command(&args(&["HEAD~1", "HEAD"])).unwrap();
    assert_eq!((d.rev1.as_str(), d.rev2.as_str()), ("HEAD~1", "HEAD"));
    assert_eq!(d.design_path, "./design.ron");
    assert_eq!(d.format, "text");
    let d = diff_command(&args(&["a", "--format", "json", "b", "--design", "x"])).unwrap();
    assert_eq!((d.rev1.as_str(), d.rev2.as_str()), ("a", "b"));
    assert_eq!(d.format, "json");
    assert_eq!(d.design_path, "x");
    let usage = "usage: adc diff <rev1> <rev2> [--design <path>] [--format=text|json]";
    assert_eq!(diff_command(&args(&["a"])).unwrap_err(), usage);
    assert_eq!(diff_command(&args(&["a", "b", "c"])).unwrap_err(), usage);
    assert_eq!(
        diff_command(&args(&["a", "b", "--format=yaml"])).unwrap_err(),
        "diffの出力は text | json: yaml"
    );
    assert_eq!(diff_command(&args(&["-x"])).unwrap_err(), "不明な引数: -x");
}

#[test]
fn report_input_arguments() {
    assert_eq!(report_input(&args(&[])), Ok("results.jsonl".to_string()));
    assert_eq!(report_input(&args(&["r.jsonl"])), Ok("r.jsonl".to_string()));
    assert_eq!(report_input(&args(&["a", "b"])), Err("不明な引数: b".to_string()));
    assert_eq!(report_input(&args(&["--x"])), Err("不明な引数: --x".to_string()));
}

#[test]
fn server_arguments() {
    match server_command(&args(&["--design", "d.ron", "--gated"])) {
        Ok(ServerCommand::Serve { design, gated }) => {
            assert_eq!(design, "d.ron");
            assert!(gated);
        }
        other => panic!("{other:?}"),
    }
    match server_command(&args(&["--design", "d.ron"])) {
        Ok(ServerCommand::Serve { gated, .. }) => assert!(!gated),
        other => panic!("{other:?}"),
    }
    assert!(matches!(server_command(&args(&[])), Err(ServerArgError::MissingDesign)));
    assert!(matches!(server_command(&args(&["--design"])), Err(ServerArgError::MissingDesign)));
    assert!(matches!(server_command(&args(&["--help"])), Ok(ServerCommand::Help)));
    assert!(matches!(server_command(&args(&["--design", "d", "-V"])), Ok(ServerCommand::Version)));
    match server_command(&args(&["--x"])) {
        Err(ServerArgError::Unknown(a)) => assert_eq!(a, "--x"),
        other => panic!("{other:?}"),
    }
}
