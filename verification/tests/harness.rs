use rust_eval::evaluator::{evaluate, judge, Verdict};
use rust_eval::model::{
    Diagnostic, ExpectedTest, Expectation, LoadError, Location, ManifestError, Mismatch,
    Observation, PipelineError, RawToolOutput, Severity, TestOutcome, TestStatus,
};
use rust_eval::parser::{observe, parse_text};
use rust_eval::report::summarize;

fn clean() -> Observation {
    Observation { exit_code: 0, diagnostics: vec![], outcomes: vec![], unparsed_lines: 0 }
}

fn diagnostic(severity: Severity, code: Option<&str>, message: &str) -> Diagnostic {
    Diagnostic {
        severity,
        code: code.map(|c| c.to_string()),
        message: message.to_string(),
        location: None,
    }
}

fn outcome(name: &str, status: TestStatus) -> TestOutcome {
    TestOutcome { name: name.to_string(), status, message: None }
}

fn expected(name: &str, status: TestStatus) -> ExpectedTest {
    ExpectedTest { name: name.to_string(), status }
}

#[test]
fn success_project_compiles_and_passes_its_test() {
    let compile = clean();
    let v = evaluate("success_project", &Expectation::CompileOk, &compile);
    assert_eq!(v.fixture(), "success_project");
    assert!(v.matched());
    assert_eq!(v.mismatches(), &Vec::<Mismatch>::new());

    let run = parse_text("running 1 test\ntest test_factorial ... ok\n", 0);
    assert_eq!(run.outcomes, vec![outcome("test_factorial", TestStatus::Passed)]);
    let tests = Expectation::TestResults {
        tests: vec![expected("test_factorial", TestStatus::Passed)],
    };
    let clean_run = Observation { unparsed_lines: 0, ..run };
    let v = evaluate("success_project", &tests, &clean_run);
    assert!(v.matched());
    assert_eq!(v.mismatches(), &Vec::<Mismatch>::new());
}

#[test]
fn error_project_fails_to_compile_as_expected() {
    let text = "error[E0425]: cannot find value `x` in this scope\n --> src/main.rs:3:32\nerror[E0308]: mismatched types\n --> src/main.rs:6:18\n";
    let seen = parse_text(text, 1);
    assert_eq!(seen.diagnostics.len(), 2);
    assert_eq!(seen.diagnostics[0].code, Some("E0425".to_string()));
    assert_eq!(seen.diagnostics[0].location, Some(Location { line: 3, column: 32 }));
    assert_eq!(seen.diagnostics[1].message, "mismatched types");
    assert_eq!(seen.unparsed_lines, 0);
    let v = evaluate("error_project", &Expectation::CompileError { code: None }, &seen);
    assert!(v.matched());
    assert!(v.mismatches().is_empty());
}

#[test]
fn fibonacci_without_a_body_leaves_its_test_not_run() {
    let seen = parse_text("error[E0308]: mismatched types\n --> src/lib.rs:1:35\n", 101);
    assert!(seen.outcomes.is_empty());
    let e = Expectation::TestResults { tests: vec![expected("test_fibonacci", TestStatus::Passed)] };
    let v = evaluate("rust_eval_test", &e, &seen);
    assert!(!v.matched());
    assert_eq!(v.mismatches(), &vec![Mismatch::TestNotRun { name: "test_fibonacci".to_string() }]);
}

#[test]
fn timeout_is_recorded_as_a_mismatch() {
    let outcome: Result<Observation, PipelineError> =
        Err(PipelineError::Timeout { limit_ms: 5000 });
    let v = judge("slow_project", &Expectation::CompileOk, &outcome);
    assert_eq!(v.fixture(), "slow_project");
    assert!(!v.matched());
    assert_eq!(v.mismatches(), &vec![Mismatch::TimedOut { limit_ms: 5000 }]);
}

#[test]
fn load_and_invocation_failures_are_mismatches() {
    let cause = LoadError::Manifest(ManifestError::Malformed { line: 2 });
    let v = Verdict::from_error("broken", &PipelineError::Load { cause });
    assert!(!v.matched());
    assert_eq!(v.mismatches(), &vec![Mismatch::LoadFailed { cause }]);
    let start = PipelineError::Invocation { reason: "no such tool".to_string() };
    let v = Verdict::from_error("broken", &start);
    assert!(!v.matched());
    assert_eq!(
        v.mismatches(),
        &vec![Mismatch::InvocationFailed { reason: "no such tool".to_string() }]
    );
}

#[test]
fn judge_evaluates_where_there_is_an_observation() {
    let outcome: Result<Observation, PipelineError> = Ok(clean());
    let v = judge("fine", &Expectation::CompileOk, &outcome);
    assert!(v.matched());
    assert_eq!(v, evaluate("fine", &Expectation::CompileOk, &clean()));
}

#[test]
fn compile_ok_reports_exit_code_then_errors_in_emission_order() {
    let seen = Observation {
        exit_code: 1,
        diagnostics: vec![
            diagnostic(Severity::Warning, Some("dead_code"), "never used"),
            diagnostic(Severity::Error, Some("E0425"), "first"),
            diagnostic(Severity::Note, None, "a note"),
            diagnostic(Severity::Error, None, "second"),
        ],
        outcomes: vec![],
        unparsed_lines: 3,
    };
    let v = evaluate("f", &Expectation::CompileOk, &seen);
    assert!(!v.matched());
    assert_eq!(
        v.mismatches(),
        &vec![
            Mismatch::UnexpectedExit { exit_code: 1 },
            Mismatch::UnexpectedError { code: Some("E0425".to_string()), message: "first".to_string() },
            Mismatch::UnexpectedError { code: None, message: "second".to_string() },
            Mismatch::UnparsedLines { count: 3 },
        ]
    );
}

#[test]
fn compile_ok_with_warnings_only_is_matched() {
    let seen = Observation {
        diagnostics: vec![diagnostic(Severity::Warning, Some("unused_variables"), "unused")],
        ..clean()
    };
    assert!(evaluate("f", &Expectation::CompileOk, &seen).matched());
}

#[test]
fn unparsed_lines_are_a_remark_and_leave_the_judgment() {
    let seen = Observation { unparsed_lines: 2, ..clean() };
    let v = evaluate("f", &Expectation::CompileOk, &seen);
    assert!(v.matched());
    assert_eq!(v.mismatches(), &vec![Mismatch::UnparsedLines { count: 2 }]);
    assert!(v.mismatches()[0].is_remark());
    assert!(!Mismatch::ErrorMissing.is_remark());
}

#[test]
fn compile_error_is_missing_on_a_clean_compile() {
    let v = evaluate("f", &Expectation::CompileError { code: None }, &clean());
    assert!(!v.matched());
    assert_eq!(v.mismatches(), &vec![Mismatch::ErrorMissing]);
}

#[test]
fn compile_error_matches_on_exit_code_alone() {
    let seen = Observation { exit_code: 101, ..clean() };
    assert!(evaluate("f", &Expectation::CompileError { code: None }, &seen).matched());
}

#[test]
fn compile_error_with_a_code_needs_an_error_that_carries_it() {
    let e = Expectation::CompileError { code: Some("E0308".to_string()) };
    let other = Observation {
        exit_code: 1,
        diagnostics: vec![
            diagnostic(Severity::Error, Some("E0425"), "not found"),
            diagnostic(Severity::Warning, Some("E0308"), "a warning with that code"),
        ],
        ..clean()
    };
    let v = evaluate("f", &e, &other);
    assert!(!v.matched());
    assert_eq!(v.mismatches(), &vec![Mismatch::ErrorCodeMissing { code: "E0308".to_string() }]);

    let right = Observation {
        exit_code: 1,
        diagnostics: vec![
            diagnostic(Severity::Error, Some("E0425"), "not found"),
            diagnostic(Severity::Error, Some("E0308"), "mismatched types"),
        ],
        ..clean()
    };
    assert!(evaluate("f", &e, &right).matched());

    let v = evaluate("f", &e, &clean());
    assert_eq!(
        v.mismatches(),
        &vec![Mismatch::ErrorMissing, Mismatch::ErrorCodeMissing { code: "E0308".to_string() }]
    );
}

#[test]
fn lint_warnings_tolerate_extra_warnings() {
    let seen = Observation {
        diagnostics: vec![
            diagnostic(Severity::Warning, Some("dead_code"), "a"),
            diagnostic(Severity::Warning, Some("unused_variables"), "b"),
            diagnostic(Severity::Warning, Some("unused_mut"), "c"),
        ],
        ..clean()
    };
    let e = Expectation::LintWarnings {
        codes: vec!["unused_variables".to_string(), "dead_code".to_string()],
    };
    let v = evaluate("warning_project", &e, &seen);
    assert!(v.matched());
    assert!(v.mismatches().is_empty());
}

#[test]
fn lint_warnings_adding_an_unemitted_code_flips_the_verdict() {
    let seen = Observation {
        diagnostics: vec![
            diagnostic(Severity::Warning, Some("dead_code"), "a"),
            diagnostic(Severity::Error, Some("unreachable_code"), "an error, not a warning"),
        ],
        ..clean()
    };
    let fewer = Expectation::LintWarnings { codes: vec!["dead_code".to_string()] };
    assert!(evaluate("f", &fewer, &seen).matched());
    let more = Expectation::LintWarnings {
        codes: vec![
            "non_snake_case".to_string(),
            "dead_code".to_string(),
            "unreachable_code".to_string(),
        ],
    };
    let v = evaluate("f", &more, &seen);
    assert!(!v.matched());
    assert_eq!(
        v.mismatches(),
        &vec![
            Mismatch::WarningMissing { code: "non_snake_case".to_string() },
            Mismatch::WarningMissing { code: "unreachable_code".to_string() },
        ]
    );
    let none = Expectation::LintWarnings { codes: vec![] };
    assert!(evaluate("f", &none, &seen).matched());
}

#[test]
fn test_results_report_tests_not_run_before_status_mismatches() {
    let seen = Observation {
        outcomes: vec![
            outcome("a", TestStatus::Failed),
            outcome("b", TestStatus::Passed),
            outcome("c", TestStatus::Panicked),
            outcome("a", TestStatus::Passed),
        ],
        ..clean()
    };
    let e = Expectation::TestResults {
        tests: vec![
            expected("a", TestStatus::Passed),
            expected("missing", TestStatus::Passed),
            expected("b", TestStatus::Passed),
            expected("c", TestStatus::Failed),
            expected("gone", TestStatus::Failed),
        ],
    };
    let v = evaluate("f", &e, &seen);
    assert!(!v.matched());
    assert_eq!(
        v.mismatches(),
        &vec![
            Mismatch::TestNotRun { name: "missing".to_string() },
            Mismatch::TestNotRun { name: "gone".to_string() },
            Mismatch::StatusMismatch {
                name: "a".to_string(),
                expected: TestStatus::Passed,
                observed: TestStatus::Failed,
            },
            Mismatch::StatusMismatch {
                name: "c".to_string(),
                expected: TestStatus::Failed,
                observed: TestStatus::Panicked,
            },
        ]
    );
}

#[test]
fn test_that_does_not_pass_is_not_matched_when_passed_is_expected() {
    let e = Expectation::TestResults { tests: vec![expected("test_stack", TestStatus::Passed)] };
    for status in [TestStatus::Failed, TestStatus::Panicked] {
        let seen = Observation { exit_code: 101, outcomes: vec![outcome("test_stack", status)], ..clean() };
        let v = evaluate("rust_eval_test", &e, &seen);
        assert!(!v.matched());
        assert_eq!(
            v.mismatches(),
            &vec![Mismatch::StatusMismatch {
                name: "test_stack".to_string(),
                expected: TestStatus::Passed,
                observed: status,
            }]
        );
    }
}

#[test]
fn evaluation_is_repeatable() {
    let text = "warning[dead_code]: function is never used\nsomething else\ntest t ... FAILED\n";
    let e = Expectation::TestResults { tests: vec![expected("t", TestStatus::Passed)] };
    let first = evaluate("f", &e, &parse_text(text, 0));
    let second = evaluate("f", &e, &parse_text(text, 0));
    assert_eq!(first, second);
    assert_eq!(summarize(vec![first]), summarize(vec![second]));
}

#[test]
fn parse_reads_diagnostics_with_and_without_codes() {
    let o = parse_text("warning: unused variable: `x`\n  note[n1]:  see here \nerror[E0425]:tight", 7);
    assert_eq!(o.exit_code, 7);
    assert_eq!(
        o.diagnostics,
        vec![
            diagnostic(Severity::Warning, None, "unused variable: `x`"),
            diagnostic(Severity::Note, Some("n1"), "see here"),
            diagnostic(Severity::Error, Some("E0425"), "tight"),
        ]
    );
    assert_eq!(o.unparsed_lines, 0);
    assert!(o.outcomes.is_empty());
}

#[test]
fn parse_counts_lines_it_cannot_classify() {
    let text = "error[E0425: no closing bracket\nerror[]: empty code\nerrors everywhere\n   |\n\n \t\r\nwarning[x] no colon\nnote: fine\n";
    let o = parse_text(text, 0);
    assert_eq!(o.diagnostics, vec![diagnostic(Severity::Note, None, "fine")]);
    assert_eq!(o.unparsed_lines, 5);
}

#[test]
fn parse_attaches_a_location_to_the_latest_diagnostic_once() {
    let text = " --> src/main.rs:1:1\nerror: e\r\n  --> C:\\src\\main.rs:12:7\r\n --> src/main.rs:13:8\n --> src/main.rs:x:8\n --> src/main.rs:4294967295:0\n --> src/main.rs:4294967296:1\n --> nothing\n";
    let o = parse_text(text, 1);
    assert_eq!(o.diagnostics.len(), 1);
    assert_eq!(o.diagnostics[0].message, "e");
    assert_eq!(o.diagnostics[0].location, Some(Location { line: 12, column: 7 }));
    assert_eq!(o.unparsed_lines, 6);
    let o = parse_text("warning: w\n-->a:4294967295:0", 0);
    assert_eq!(o.diagnostics[0].location, Some(Location { line: 4294967295, column: 0 }));
}

#[test]
fn parse_reads_test_outcomes() {
    let text = "running 4 tests\ntest tests::test_stack ... ok\ntest  spaced name  ... FAILED\ntest t3 ... panicked: index out of bounds\ntest t4 ... ignored\ntest  ... ok\ntest result: FAILED. 1 passed; 2 failed\n";
    let o = parse_text(text, 101);
    assert_eq!(
        o.outcomes,
        vec![
            outcome("tests::test_stack", TestStatus::Passed),
            outcome("spaced name", TestStatus::Failed),
            TestOutcome {
                name: "t3".to_string(),
                status: TestStatus::Panicked,
                message: Some("index out of bounds".to_string()),
            },
        ]
    );
    assert_eq!(o.unparsed_lines, 4);
    assert!(o.diagnostics.is_empty());
}

#[test]
fn parse_of_empty_text_is_empty() {
    assert_eq!(parse_text("", 3), Observation { exit_code: 3, ..clean() });
    assert_eq!(parse_text("\n\n", 0), clean());
}

#[test]
fn parse_keeps_text_that_is_not_ascii() {
    let o = parse_text("error[É1]: größer — ✓\ntest тест ... ok", 1);
    assert_eq!(o.diagnostics, vec![diagnostic(Severity::Error, Some("É1"), "größer — ✓")]);
    assert_eq!(o.outcomes, vec![outcome("тест", TestStatus::Passed)]);
}

#[test]
fn observe_reads_the_error_stream_first() {
    let raw = RawToolOutput {
        exit_code: 101,
        stdout: "test a ... ok\ntest b ... FAILED".to_string(),
        stderr: "warning[dead_code]: unused\n --> src/lib.rs:2:4".to_string(),
        duration_ms: 12,
    };
    let o = observe(&raw);
    assert_eq!(o.exit_code, 101);
    assert_eq!(
        o.diagnostics,
        vec![Diagnostic {
            severity: Severity::Warning,
            code: Some("dead_code".to_string()),
            message: "unused".to_string(),
            location: Some(Location { line: 2, column: 4 }),
        }]
    );
    assert_eq!(
        o.outcomes,
        vec![outcome("a", TestStatus::Passed), outcome("b", TestStatus::Failed)]
    );
    assert_eq!(o.unparsed_lines, 0);
    let swapped = RawToolOutput {
        exit_code: 0,
        stdout: " --> src/lib.rs:2:4".to_string(),
        stderr: "warning: w".to_string(),
        duration_ms: 0,
    };
    assert_eq!(observe(&swapped).diagnostics[0].location, Some(Location { line: 2, column: 4 }));
}

#[test]
fn report_counts_and_keeps_order() {
    let a = evaluate("a", &Expectation::CompileOk, &clean());
    let b = evaluate("b", &Expectation::CompileError { code: None }, &clean());
    let c = evaluate("c", &Expectation::CompileOk, &Observation { unparsed_lines: 1, ..clean() });
    let r = summarize(vec![a, b, c]);
    assert_eq!(r.matched(), 2);
    assert_eq!(r.mismatched(), 1);
    assert_eq!(r.exit_code(), 1);
    let names: Vec<&str> = r.verdicts().iter().map(|v| v.fixture().as_str()).collect();
    assert_eq!(names, vec!["a", "b", "c"]);
    assert_eq!(r.verdicts()[1].mismatches(), &vec![Mismatch::ErrorMissing]);

    let all = summarize(vec![evaluate("a", &Expectation::CompileOk, &clean())]);
    assert_eq!((all.matched(), all.mismatched(), all.exit_code()), (1, 0, 0));
    let none = summarize(vec![]);
    assert_eq!((none.matched(), none.mismatched(), none.exit_code()), (0, 0, 0));
}

#[test]
fn parse_takes_the_name_of_a_lint_as_the_code_of_its_warning() {
    let text = "warning: unused variable: `unused_var`\n --> src/main.rs:6:9\n  |\n6 |     let unused_var = 42;\n  |         ^^^^^^^^^^\n  |\n  = note: `#[warn(unused_variables)]` on by default\n\nwarning: function `dead_function` is never used\n  --> src/main.rs:22:4\n   = note: `#[warn(dead_code)]` on by default\n   = note: `#[warn(twice)]` on by default\n";
    let o = parse_text(text, 0);
    assert_eq!(
        o.diagnostics,
        vec![
            Diagnostic {
                severity: Severity::Warning,
                code: Some("unused_variables".to_string()),
                message: "unused variable: `unused_var`".to_string(),
                location: Some(Location { line: 6, column: 9 }),
            },
            Diagnostic {
                severity: Severity::Warning,
                code: Some("dead_code".to_string()),
                message: "function `dead_function` is never used".to_string(),
                location: Some(Location { line: 22, column: 4 }),
            },
        ]
    );
    assert_eq!(o.unparsed_lines, 5);
    let e = Expectation::LintWarnings {
        codes: vec!["dead_code".to_string(), "unused_variables".to_string()],
    };
    let v = evaluate("warning_project", &e, &o);
    assert!(v.matched());
    assert_eq!(v.mismatches(), &vec![Mismatch::UnparsedLines { count: 5 }]);
}

#[test]
fn parse_gives_the_name_of_a_lint_to_a_diagnostic_of_its_severity_only() {
    let o = parse_text("= note: `#[warn(a)]`\nerror: e\n= note: `#[warn(a)]`\n= note: `#[deny(b)]` on by default\n= note: `#[deny()]`\n= note: `#[deny(c`\nwarning[w]: coded\n= note: `#[warn(a)]`\nnote: n\n= note: `#[warn(a)]`", 1);
    assert_eq!(
        o.diagnostics,
        vec![
            diagnostic(Severity::Error, Some("b"), "e"),
            diagnostic(Severity::Warning, Some("w"), "coded"),
            diagnostic(Severity::Note, None, "n"),
        ]
    );
    assert_eq!(o.unparsed_lines, 6);
}
