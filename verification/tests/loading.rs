use rust_eval::evaluator::{evaluate, Verdict};
use rust_eval::fixture::{read_manifest, source_path, variant_at, Fixture, Variant};
use rust_eval::manifest::{parse_manifest, Manifest};
use rust_eval::model::{
    ExpectedTest, Expectation, LoadError, ManifestError, Observation, PipelineError,
    RawToolOutput, TestStatus,
};
use rust_eval::order::verdicts_in_load_order;
use rust_eval::report::summarize;

fn expectation_of(text: &str) -> Expectation {
    parse_manifest(text).unwrap().expectation
}

fn refusal_of(text: &str) -> ManifestError {
    parse_manifest(text).unwrap_err()
}

fn raw(exit_code: i32) -> RawToolOutput {
    RawToolOutput { exit_code, stdout: String::new(), stderr: String::new(), duration_ms: 1 }
}

#[test]
fn manifest_of_each_kind() {
    assert_eq!(
        parse_manifest("expectation_kind = compile_ok\n"),
        Ok(Manifest { expectation: Expectation::CompileOk, source: None })
    );
    assert_eq!(
        expectation_of("expectation_kind=compile_error"),
        Expectation::CompileError { code: None }
    );
    assert_eq!(
        expectation_of("# a comment\n\n  expectation_kind =  compile_error \r\n code = E0308\n"),
        Expectation::CompileError { code: Some("E0308".to_string()) }
    );
    assert_eq!(
        expectation_of("expectation_kind = lint_warnings\ncode = unused_variables\n  # more\ncode = dead_code"),
        Expectation::LintWarnings {
            codes: vec!["unused_variables".to_string(), "dead_code".to_string()]
        }
    );
    assert_eq!(
        expectation_of("expectation_kind = lint_warnings"),
        Expectation::LintWarnings { codes: vec![] }
    );
    assert_eq!(
        expectation_of("expectation_kind = test_results\ntest test_fibonacci = passed\ntest  tests::test_stack  = failed\ntest t = panicked\n"),
        Expectation::TestResults {
            tests: vec![
                ExpectedTest { name: "test_fibonacci".to_string(), status: TestStatus::Passed },
                ExpectedTest { name: "tests::test_stack".to_string(), status: TestStatus::Failed },
                ExpectedTest { name: "t".to_string(), status: TestStatus::Panicked },
            ]
        }
    );
}

#[test]
fn manifest_may_name_its_source() {
    let m = parse_manifest("expectation_kind = compile_ok\nsource = src/lib.rs\n").unwrap();
    assert_eq!(m.source, Some("src/lib.rs".to_string()));
    assert_eq!(source_path(&m), "src/lib.rs");
    let m = parse_manifest("expectation_kind = test_results\ntest a = passed\nsource = a = b\n").unwrap();
    assert_eq!(m.source, Some("a = b".to_string()));
    let m = parse_manifest("expectation_kind = compile_ok").unwrap();
    assert_eq!(source_path(&m), "src/main.rs");
}

#[test]
fn manifest_without_a_kind_is_refused() {
    assert_eq!(refusal_of(""), ManifestError::MissingKind);
    assert_eq!(refusal_of("# only a comment\n\n   \n"), ManifestError::MissingKind);
}

#[test]
fn manifest_errors_name_the_first_offending_line() {
    assert_eq!(refusal_of("expectation_kind compile_ok"), ManifestError::Malformed { line: 1 });
    assert_eq!(
        refusal_of("expectation_kind = lint_warnings\n\ncode =\ncode"),
        ManifestError::Malformed { line: 3 }
    );
    assert_eq!(
        refusal_of("expectation_kind = test_results\ntest  = passed"),
        ManifestError::UnexpectedEntry { line: 2 }
    );
    assert_eq!(
        refusal_of("expectation_kind = compile_ok\nsource ="),
        ManifestError::Malformed { line: 2 }
    );
    assert_eq!(refusal_of("\nexpectation_kind = compiles"), ManifestError::UnknownKind { line: 2 });
    assert_eq!(refusal_of("expectation_kind ="), ManifestError::UnknownKind { line: 1 });
    assert_eq!(
        refusal_of("expectation_kind = test_results\ntest a = passed\ntest b = ok\ntest a = passed"),
        ManifestError::UnknownStatus { line: 3 }
    );
    assert_eq!(
        refusal_of("expectation_kind = lint_warnings\ncode = a\ncode = b\ncode = a\ncode = b"),
        ManifestError::Duplicate { line: 4 }
    );
    assert_eq!(
        refusal_of("expectation_kind = test_results\n# c\ntest a = passed\ntest a = failed"),
        ManifestError::Duplicate { line: 4 }
    );
}

#[test]
fn manifest_refuses_entries_out_of_place() {
    let unexpected = |line: usize| ManifestError::UnexpectedEntry { line };
    assert_eq!(refusal_of("code = a\nexpectation_kind = lint_warnings"), unexpected(1));
    assert_eq!(refusal_of("source = a\nexpectation_kind = compile_ok"), unexpected(1));
    assert_eq!(refusal_of("expectation_kind = compile_ok\ncode = a"), unexpected(2));
    assert_eq!(refusal_of("expectation_kind = compile_ok\ntest a = passed"), unexpected(2));
    assert_eq!(refusal_of("expectation_kind = lint_warnings\ntest a = passed"), unexpected(2));
    assert_eq!(refusal_of("expectation_kind = test_results\ncode = a"), unexpected(2));
    assert_eq!(refusal_of("expectation_kind = compile_error\ncode = a\ncode = b"), unexpected(3));
    assert_eq!(
        refusal_of("expectation_kind = compile_ok\nexpectation_kind = compile_ok"),
        unexpected(2)
    );
    assert_eq!(refusal_of("expectation_kind = compile_ok\ncolour = blue"), unexpected(2));
    assert_eq!(
        refusal_of("expectation_kind = compile_ok\nsource = a\nsource = b"),
        unexpected(3)
    );
}

#[test]
fn well_formed_expectations_list_nothing_twice() {
    assert!(Expectation::CompileOk.is_well_formed());
    assert!(Expectation::CompileError { code: Some("x".to_string()) }.is_well_formed());
    let codes = |list: &[&str]| Expectation::LintWarnings {
        codes: list.iter().map(|c| c.to_string()).collect(),
    };
    assert!(codes(&[]).is_well_formed());
    assert!(codes(&["a", "b", "c"]).is_well_formed());
    assert!(!codes(&["a", "b", "a"]).is_well_formed());
    let tests = |list: &[(&str, TestStatus)]| Expectation::TestResults {
        tests: list
            .iter()
            .map(|(n, s)| ExpectedTest { name: n.to_string(), status: *s })
            .collect(),
    };
    assert!(tests(&[("a", TestStatus::Passed), ("b", TestStatus::Passed)]).is_well_formed());
    assert!(!tests(&[("a", TestStatus::Passed), ("b", TestStatus::Passed), ("b", TestStatus::Failed)])
        .is_well_formed());
    assert!(expectation_of("expectation_kind = lint_warnings\ncode = a\ncode = b").is_well_formed());
}

#[test]
fn loading_fails_without_manifest_or_source() {
    assert_eq!(read_manifest(None), Err(LoadError::MissingManifest));
    assert_eq!(
        read_manifest(Some("expectation_kind = nothing")),
        Err(LoadError::Manifest(ManifestError::UnknownKind { line: 1 }))
    );
    let m = read_manifest(Some("expectation_kind = compile_ok")).unwrap();
    assert_eq!(Fixture::assemble("f", m, None), Err(LoadError::MissingSource));
}

#[test]
fn loading_makes_the_fixture() {
    let m = read_manifest(Some("expectation_kind = test_results\nsource = src/lib.rs\ntest t = passed")).unwrap();
    let f = Fixture::assemble("rust_eval_test", m, Some("pub fn f() {}".to_string())).unwrap();
    assert_eq!(f.name(), "rust_eval_test");
    assert_eq!(f.source(), "pub fn f() {}");
    assert_eq!(f.variant(), Variant::Library);
    assert_eq!(
        f.expectation(),
        &Expectation::TestResults {
            tests: vec![ExpectedTest { name: "t".to_string(), status: TestStatus::Passed }]
        }
    );
    assert!(f.runs_tests(&raw(0)));
    assert!(!f.runs_tests(&raw(101)));

    let m = read_manifest(Some("expectation_kind = compile_ok")).unwrap();
    let f = Fixture::assemble("success_project", m, Some("fn main() {}".to_string())).unwrap();
    assert_eq!(f.variant(), Variant::Program);
    assert!(!f.runs_tests(&raw(0)));
}

#[test]
fn variant_goes_by_the_file_name() {
    assert_eq!(variant_at("src/lib.rs"), Variant::Library);
    assert_eq!(variant_at("lib.rs"), Variant::Library);
    assert_eq!(variant_at("a/b/lib.rs"), Variant::Library);
    assert_eq!(variant_at("src/main.rs"), Variant::Program);
    assert_eq!(variant_at("src/mylib.rs"), Variant::Program);
    assert_eq!(variant_at("lib.rs/main.rs"), Variant::Program);
    assert_eq!(variant_at("src/"), Variant::Program);
    assert_eq!(variant_at(""), Variant::Program);
}

fn verdict(name: &str) -> Verdict {
    let clean = Observation { exit_code: 0, diagnostics: vec![], outcomes: vec![], unparsed_lines: 0 };
    evaluate(name, &Expectation::CompileOk, &clean)
}

fn names(verdicts: &[Verdict]) -> Vec<String> {
    verdicts.iter().map(|v| v.fixture().clone()).collect()
}

#[test]
fn verdicts_come_back_in_load_order() {
    let completed = vec![(2, verdict("c")), (0, verdict("a")), (3, verdict("d")), (1, verdict("b"))];
    assert_eq!(names(&verdicts_in_load_order(completed)), vec!["a", "b", "c", "d"]);
    assert!(verdicts_in_load_order(vec![]).is_empty());
    assert_eq!(names(&verdicts_in_load_order(vec![(7, verdict("only"))])), vec!["only"]);
}

#[test]
fn load_order_keeps_gaps_and_ties_as_they_came() {
    let completed = vec![
        (5, verdict("five")),
        (1, verdict("one, first")),
        (9, verdict("nine")),
        (1, verdict("one, second")),
        (0, verdict("zero")),
        (1, verdict("one, third")),
    ];
    assert_eq!(
        names(&verdicts_in_load_order(completed)),
        vec!["zero", "one, first", "one, second", "one, third", "five", "nine"]
    );
}

#[test]
fn load_order_does_not_depend_on_completion_order() {
    let one = vec![(1, verdict("b")), (0, verdict("a")), (2, verdict("c"))];
    let other = vec![(2, verdict("c")), (1, verdict("b")), (0, verdict("a"))];
    let first = summarize(verdicts_in_load_order(one));
    let second = summarize(verdicts_in_load_order(other));
    assert_eq!(first, second);
    assert_eq!(first.matched(), 3);
}

#[test]
fn a_fixture_that_fails_to_load_is_a_mismatch_in_the_report() {
    let cause = read_manifest(Some("expectation_kind: compile_ok")).unwrap_err();
    assert_eq!(cause, LoadError::Manifest(ManifestError::Malformed { line: 1 }));
    let failed = Verdict::from_error("broken", &PipelineError::Load { cause });
    let report = summarize(verdicts_in_load_order(vec![(1, failed), (0, verdict("fine"))]));
    assert_eq!((report.matched(), report.mismatched(), report.exit_code()), (1, 1, 1));
    assert_eq!(names(report.verdicts()), vec!["fine", "broken"]);
}
