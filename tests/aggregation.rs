use raca::crash::{crash_signals, is_crash_line, Channel};
use raca::dedup::dedup_records;
use raca::json::Json;
use raca::parser::{interpret, parse_line, split_package_id, ParseError};
use raca::record::{CheckResult, SrcLoc};
use raca::run::analyze_run;
use raca::summary::build_summary;

const NEEDLESS: &str = r#"{"reason":"compiler-message","package_id":"foo 1.2.3 (registry+...)","message":{"code":{"code":"clippy::needless_return"},"spans":[{"file_name":"src/lib.rs","line_start":10,"line_end":10,"column_start":5,"column_end":5}]}}"#;

fn rec(krate: &str, version: &str, id: &str, locs: &[(&str, u32, u32)]) -> CheckResult {
    CheckResult {
        krate: krate.to_string(),
        version: version.to_string(),
        id: id.to_string(),
        src_locs: locs.iter().map(|(f, l, c)| SrcLoc::new(f.to_string(), *l, *c)).collect(),
    }
}

fn texts(v: &[CheckResult]) -> Vec<String> {
    v.iter().map(|r| r.pretty()).collect()
}

#[test]
fn repeated_line_yields_one_record_and_one_summary_entry() {
    let stdout = format!("{}\n{}\n", NEEDLESS, NEEDLESS);
    let report = analyze_run(&stdout, "");
    assert_eq!(report.records.len(), 1);
    let r = &report.records[0];
    assert_eq!(r.krate, "foo");
    assert_eq!(r.version, "1.2.3");
    assert_eq!(r.id, "clippy::needless_return");
    assert_eq!(r.src_locs.len(), 1);
    assert_eq!(r.src_locs[0].pretty(), "src/lib.rs:10:5");
    assert_eq!(report.summary.len(), 1);
    assert_eq!(report.summary[0].count, 1);
    assert_eq!(report.summary[0].diagnostic_code, "clippy::needless_return");
    assert_eq!(report.summary[0].pretty(), "1, clippy::needless_return");
    assert!(report.crashes.is_empty());
    assert!(report.errors.is_empty());
}

#[test]
fn crash_is_reported_beside_the_parsed_record() {
    let stdout = format!("{}\nerror: internal compiler error: boom\n", NEEDLESS);
    let report = analyze_run(&stdout, "");
    assert_eq!(report.records.len(), 1);
    assert_eq!(report.crashes.len(), 1);
    assert_eq!(report.crashes[0].channel, Channel::Stdout);
    assert_eq!(report.crashes[0].raw_line, "error: internal compiler error: boom");
    assert_eq!(report.crashes[0].pretty(), "ERROR:   error: internal compiler error: boom");
    assert_eq!(report.errors, vec![ParseError::UnparsableLine]);
}

#[test]
fn crash_survives_malformed_diagnostics() {
    let stdout = "{\"reason\":\"compiler-message\",\"package_id\":\"lonely\"}\nnot json\n";
    let stderr = "query stack during panic:\nwarning: fine\nerror: internal compiler error: x\r\n";
    let report = analyze_run(stdout, stderr);
    assert!(report.records.is_empty());
    assert_eq!(report.errors, vec![ParseError::MalformedPackageId, ParseError::UnparsableLine]);
    assert_eq!(report.crashes.len(), 2);
    assert_eq!(report.crashes[0].channel, Channel::Stderr);
    assert_eq!(report.crashes[0].raw_line, "query stack during panic:");
    assert_eq!(report.crashes[1].raw_line, "error: internal compiler error: x");
}

#[test]
fn stdout_crashes_come_before_stderr_crashes_and_repeat() {
    let stdout = "query stack during panic: a\n";
    let stderr = "query stack during panic: a\nquery stack during panic: a";
    let report = analyze_run(stdout, stderr);
    let chans: Vec<Channel> = report.crashes.iter().map(|c| c.channel).collect();
    assert_eq!(chans, vec![Channel::Stdout, Channel::Stderr, Channel::Stderr]);
}

#[test]
fn crash_markers_must_start_the_line() {
    assert!(is_crash_line("error: internal compiler error: boom"));
    assert!(is_crash_line("query stack during panic:"));
    assert!(!is_crash_line(" error: internal compiler error: boom"));
    assert!(!is_crash_line("error: internal compiler"));
    assert!(!is_crash_line(""));
    assert_eq!(crash_signals(Channel::Stderr, "a\nb\n").len(), 0);
}

#[test]
fn other_reasons_are_ignored() {
    let line = r#"{"reason":"compiler-artifact","package_id":"foo 1.0.0","message":{}}"#;
    assert!(matches!(parse_line(line), Ok(None)));
    let line = r#"{"reason":"build-finished","success":true}"#;
    assert!(matches!(parse_line(line), Ok(None)));
    let line = r#"{"package_id":"foo 1.0.0"}"#;
    assert!(matches!(parse_line(line), Ok(None)));
}

#[test]
fn point_span_gives_one_location() {
    let r = parse_line(NEEDLESS).unwrap().unwrap();
    assert_eq!(r.src_locs.len(), 1);
    assert_eq!(r.pretty(), "foo-1.2.3 clippy::needless_return src/lib.rs:10:5");
}

#[test]
fn range_span_gives_start_and_end() {
    let line = r#"{"reason":"compiler-message","package_id":"bar 0.1.0 (path+file:///x)","message":{"code":{"code":"E0308"},"spans":[{"file_name":"src/a.rs","line_start":3,"line_end":3,"column_start":5,"column_end":9}]}}"#;
    let r = parse_line(line).unwrap().unwrap();
    assert_eq!(r.src_locs.len(), 2);
    assert_eq!(r.pretty(), "bar-0.1.0 E0308 src/a.rs:3:5->src/a.rs:3:9");
    let line = r#"{"reason":"compiler-message","package_id":"bar 0.1.0","message":{"code":null,"spans":[{"file_name":"b.rs","line_start":1,"line_end":4,"column_start":2,"column_end":2}]}}"#;
    let r = parse_line(line).unwrap().unwrap();
    assert_eq!(r.id, "");
    assert_eq!(r.pretty(), "bar-0.1.0  b.rs:1:2->b.rs:4:2");
}

#[test]
fn missing_code_and_spans_are_not_errors() {
    let line = r#"{"reason":"compiler-message","package_id":"baz 2.0.0","message":{"message":"unused"}}"#;
    let r = parse_line(line).unwrap().unwrap();
    assert_eq!(r.id, "");
    assert!(r.src_locs.is_empty());
    assert_eq!(r.pretty(), "baz-2.0.0  NO SRC LOCS");
}

#[test]
fn spans_of_several_items_are_concatenated() {
    let line = r#"{"reason":"compiler-message","package_id":"q 1.0.0","message":{"code":{"code":"c"},"spans":[{"file_name":"a","line_start":1,"line_end":1,"column_start":1,"column_end":1},{"file_name":"b","line_start":2,"line_end":2,"column_start":2,"column_end":2},{"file_name":"c"}]}}"#;
    let r = parse_line(line).unwrap().unwrap();
    assert_eq!(r.src_locs.len(), 2);
    assert_eq!(r.pretty(), "q-1.0.0 c a:1:1->b:2:2");
}

#[test]
fn each_error_kind_has_an_input() {
    assert_eq!(parse_line("{not json").err(), Some(ParseError::UnparsableLine));
    assert_eq!(parse_line("").err(), Some(ParseError::UnparsableLine));
    let cases = [
        (r#"{"reason":"compiler-message","message":{}}"#, ParseError::MalformedPackageId),
        (r#"{"reason":"compiler-message","package_id":"solo"}"#, ParseError::MalformedPackageId),
        (r#"{"reason":"compiler-message","package_id":"   "}"#, ParseError::MalformedPackageId),
        (r#"{"reason":"compiler-message","package_id":7}"#, ParseError::MalformedDiagnostic),
        (r#"{"reason":"compiler-message","package_id":"a 1","message":3}"#, ParseError::MalformedDiagnostic),
        (r#"{"reason":"compiler-message","package_id":"a 1","message":{"code":"x"}}"#, ParseError::MalformedDiagnostic),
        (r#"{"reason":"compiler-message","package_id":"a 1","message":{"code":{"code":1}}}"#, ParseError::MalformedDiagnostic),
        (r#"{"reason":"compiler-message","package_id":"a 1","message":{"spans":{}}}"#, ParseError::MalformedDiagnostic),
        (r#"{"reason":"compiler-message","package_id":"a 1","message":{"spans":[5]}}"#, ParseError::MalformedDiagnostic),
        (r#"{"reason":"compiler-message","package_id":"a 1","message":{"spans":[{"file_name":"f","line_start":"1","line_end":1,"column_start":1,"column_end":1}]}}"#, ParseError::MalformedDiagnostic),
        (r#"{"reason":"compiler-message","package_id":"a 1","message":{"spans":[{"file_name":"f","line_start":-1,"line_end":1,"column_start":1,"column_end":1}]}}"#, ParseError::MalformedDiagnostic),
        (r#"{"reason":"compiler-message","package_id":"a 1","message":{"spans":[{"file_name":"f","line_start":4294967296,"line_end":1,"column_start":1,"column_end":1}]}}"#, ParseError::MalformedDiagnostic),
        (r#"{"reason":"compiler-message","package_id":"a 1","message":{"spans":[{"file_name":2,"line_start":1,"line_end":1,"column_start":1,"column_end":1}]}}"#, ParseError::MalformedDiagnostic),
    ];
    for (line, err) in cases.iter() {
        assert_eq!(parse_line(line).err(), Some(*err), "{}", line);
    }
}

#[test]
fn package_id_words_are_split_on_any_white_space() {
    let (n, v) = split_package_id("  foo \t 1.2.3\u{3000}(registry)").unwrap();
    assert_eq!(n, "foo");
    assert_eq!(v, "1.2.3");
    assert!(split_package_id("foo").is_none());
    assert!(split_package_id("").is_none());
    let (n, v) = split_package_id("a b").unwrap();
    assert_eq!((n.as_str(), v.as_str()), ("a", "b"));
}

#[test]
fn interpret_reads_a_document_built_by_hand() {
    let doc = Json::Object(vec![
        ("reason".to_string(), Json::Str("compiler-message".to_string())),
        ("package_id".to_string(), Json::Str("k 9.9.9".to_string())),
        (
            "message".to_string(),
            Json::Object(vec![
                ("code".to_string(), Json::Object(vec![("code".to_string(), Json::Str("L".to_string()))])),
                ("spans".to_string(), Json::Array(vec![])),
            ]),
        ),
    ]);
    let r = interpret(&doc).unwrap().unwrap();
    assert_eq!(r.pretty(), "k-9.9.9 L NO SRC LOCS");
    let other = Json::Object(vec![("reason".to_string(), Json::Str("compiler-artifact".to_string()))]);
    assert!(matches!(interpret(&other), Ok(None)));
    assert!(matches!(interpret(&Json::Null), Ok(None)));
}

#[test]
fn pretty_of_locations() {
    assert_eq!(SrcLoc::new("x.rs".to_string(), 0, 4294967295).pretty(), "x.rs:0:4294967295");
    let three = rec("p", "1", "c", &[("a", 1, 1), ("b", 2, 2), ("c", 3, 3)]);
    assert_eq!(three.pretty(), "p-1 c NO SRC LOCS");
    let two = rec("p", "1", "c", &[("a", 10, 20), ("b", 305, 7)]);
    assert_eq!(two.pretty(), "p-1 c a:10:20->b:305:7");
}

#[test]
fn dedup_sorts_by_fields_and_drops_repeats() {
    let input = vec![
        rec("b", "1", "x", &[]),
        rec("a", "2", "x", &[("f", 2, 1)]),
        rec("a", "2", "x", &[("f", 10, 1)]),
        rec("a", "10", "x", &[]),
        rec("a", "2", "", &[]),
        rec("b", "1", "x", &[]),
        rec("a", "2", "x", &[("f", 2, 1), ("f", 2, 3)]),
    ];
    let out = dedup_records(input);
    assert_eq!(
        texts(&out),
        vec![
            "a-10 x NO SRC LOCS",
            "a-2  NO SRC LOCS",
            "a-2 x f:2:1",
            "a-2 x f:2:1->f:2:3",
            "a-2 x f:10:1",
            "b-1 x NO SRC LOCS",
        ]
    );
}

#[test]
fn dedup_ignores_arrival_order() {
    let make = || {
        vec![
            rec("z", "1", "c", &[("m", 1, 1)]),
            rec("y", "1", "c", &[]),
            rec("z", "1", "c", &[("m", 1, 1)]),
            rec("y", "0", "d", &[("n", 4, 4)]),
        ]
    };
    let mut reversed = make();
    reversed.reverse();
    let mut rotated = make();
    rotated.rotate_left(1);
    let a = texts(&dedup_records(make()));
    assert_eq!(a, texts(&dedup_records(reversed)));
    assert_eq!(a, texts(&dedup_records(rotated)));
    assert_eq!(a.len(), 3);
}

#[test]
fn dedup_twice_changes_nothing() {
    let input = vec![rec("b", "1", "x", &[]), rec("a", "1", "x", &[]), rec("b", "1", "x", &[])];
    let once = dedup_records(input);
    let before = texts(&once);
    let twice = dedup_records(once);
    assert_eq!(before, texts(&twice));
    assert!(dedup_records(vec![]).is_empty());
}

#[test]
fn summary_counts_add_up_and_are_ordered() {
    let batch = dedup_records(vec![
        rec("a", "1", "m", &[("f", 1, 1)]),
        rec("a", "1", "m", &[("f", 2, 1)]),
        rec("a", "1", "k", &[("f", 3, 1)]),
        rec("a", "1", "z", &[("f", 4, 1)]),
        rec("a", "1", "m", &[("f", 5, 1)]),
        rec("a", "1", "", &[]),
    ]);
    let s = build_summary(&batch);
    let lines: Vec<String> = s.iter().map(|e| e.pretty()).collect();
    assert_eq!(lines, vec!["1, ", "1, k", "1, z", "3, m"]);
    let total: usize = s.iter().map(|e| e.count).sum();
    assert_eq!(total, batch.len());
    assert!(build_summary(&vec![]).is_empty());
}
