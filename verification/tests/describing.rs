use rust_eval::describe::Record;
use rust_eval::evaluator::{evaluate, Verdict};
use rust_eval::model::{
    Diagnostic, ExpectedTest, Expectation, LoadError, ManifestError, Mismatch, Observation,
    PipelineError, Severity, TestOutcome, TestStatus,
};
use rust_eval::parser::parse_text;
use rust_eval::report::summarize;

#[test]
fn each_mismatch_says_what_was_expected_and_observed() {
    assert_eq!(
        Mismatch::ErrorMissing.describe(),
        "expected a compile error, observed a clean compile"
    );
    assert_eq!(
        Mismatch::ErrorCodeMissing { code: "E0308".to_string() }.describe(),
        "expected an error with code E0308, observed none"
    );
    assert_eq!(
        Mismatch::WarningMissing { code: "dead_code".to_string() }.describe(),
        "expected warning dead_code, observed none"
    );
    assert_eq!(
        Mismatch::TestNotRun { name: "test_fibonacci".to_string() }.describe(),
        "test not run: test_fibonacci"
    );
    assert_eq!(
        Mismatch::UnexpectedError { code: Some("E0425".to_string()), message: "not found".to_string() }
            .describe(),
        "expected no error, observed error[E0425]: not found"
    );
    assert_eq!(
        Mismatch::UnexpectedError { code: None, message: "aborting".to_string() }.describe(),
        "expected no error, observed error: aborting"
    );
    assert_eq!(
        Mismatch::StatusMismatch {
            name: "t".to_string(),
            expected: TestStatus::Passed,
            observed: TestStatus::Panicked,
        }
        .describe(),
        "test t: expected passed, observed panicked"
    );
    assert_eq!(
        Mismatch::StatusMismatch {
            name: "t".to_string(),
            expected: TestStatus::Failed,
            observed: TestStatus::Passed,
        }
        .describe(),
        "test t: expected failed, observed passed"
    );
    assert_eq!(
        Mismatch::InvocationFailed { reason: "no such file".to_string() }.describe(),
        "invocation failed: no such file"
    );
}

#[test]
fn numbers_are_written_in_base_ten() {
    let exit = |exit_code: i32| Mismatch::UnexpectedExit { exit_code }.describe();
    assert_eq!(exit(1), "expected exit code 0, observed 1");
    assert_eq!(exit(101), "expected exit code 0, observed 101");
    assert_eq!(exit(-1), "expected exit code 0, observed -1");
    assert_eq!(exit(i32::MAX), "expected exit code 0, observed 2147483647");
    assert_eq!(exit(i32::MIN), "expected exit code 0, observed -2147483648");
    assert_eq!(Mismatch::TimedOut { limit_ms: 0 }.describe(), "timed out after 0 ms");
    assert_eq!(Mismatch::TimedOut { limit_ms: 5000 }.describe(), "timed out after 5000 ms");
    assert_eq!(
        Mismatch::TimedOut { limit_ms: u64::MAX }.describe(),
        "timed out after 18446744073709551615 ms"
    );
    assert_eq!(Mismatch::UnparsedLines { count: 10 }.describe(), "note: 10 unparsed lines");
    assert_eq!(Mismatch::UnparsedLines { count: 9 }.describe(), "note: 9 unparsed lines");
}

#[test]
fn load_failures_say_why() {
    let said = |cause: LoadError| Mismatch::LoadFailed { cause }.describe();
    assert_eq!(said(LoadError::MissingManifest), "load failed: manifest is missing");
    assert_eq!(said(LoadError::MissingSource), "load failed: source file is missing");
    let line = |e: ManifestError| said(LoadError::Manifest(e));
    assert_eq!(line(ManifestError::MissingKind), "load failed: manifest has no expectation_kind");
    assert_eq!(
        line(ManifestError::Malformed { line: 3 }),
        "load failed: manifest line 3: malformed entry"
    );
    assert_eq!(
        line(ManifestError::UnknownKind { line: 1 }),
        "load failed: manifest line 1: unknown expectation_kind"
    );
    assert_eq!(
        line(ManifestError::UnknownStatus { line: 12 }),
        "load failed: manifest line 12: unknown test status"
    );
    assert_eq!(
        line(ManifestError::UnexpectedEntry { line: 100 }),
        "load failed: manifest line 100: unexpected entry"
    );
    assert_eq!(
        line(ManifestError::Duplicate { line: 4 }),
        "load failed: manifest line 4: listed twice"
    );
}

#[test]
fn a_written_number_reads_back() {
    for n in [0u32, 7, 10, 99, 100, 4294967295] {
        let text = format!(" --> f:{}:{}", n, n);
        let said = Mismatch::TimedOut { limit_ms: n as u64 }.describe();
        assert_eq!(said, format!("timed out after {} ms", n));
        let o = parse_text(&format!("error: e\n{}", text), 1);
        let at = o.diagnostics[0].location.unwrap();
        assert_eq!((at.line, at.column), (n, n));
    }
}

#[test]
fn records_hold_fixture_matched_and_mismatches() {
    let seen = Observation {
        exit_code: 0,
        diagnostics: vec![Diagnostic {
            severity: Severity::Warning,
            code: Some("dead_code".to_string()),
            message: "unused".to_string(),
            location: None,
        }],
        outcomes: vec![TestOutcome { name: "a".to_string(), status: TestStatus::Failed, message: None }],
        unparsed_lines: 2,
    };
    let e = Expectation::TestResults {
        tests: vec![
            ExpectedTest { name: "a".to_string(), status: TestStatus::Passed },
            ExpectedTest { name: "b".to_string(), status: TestStatus::Passed },
        ],
    };
    let v = evaluate("fixture one", &e, &seen);
    assert_eq!(
        v.record(),
        Record {
            fixture: "fixture one".to_string(),
            matched: false,
            mismatches: vec![
                "test not run: b".to_string(),
                "test a: expected passed, observed failed".to_string(),
                "note: 2 unparsed lines".to_string(),
            ],
        }
    );
    let lint = Expectation::LintWarnings { codes: vec!["dead_code".to_string()] };
    let w = evaluate("fixture two", &lint, &Observation { unparsed_lines: 0, ..seen });
    let t = Verdict::from_error("fixture three", &PipelineError::Timeout { limit_ms: 30000 });
    let report = summarize(vec![v, w, t]);
    let records = report.records();
    assert_eq!(records.len(), 3);
    assert_eq!(records[0].fixture, "fixture one");
    assert_eq!(
        records[1],
        Record { fixture: "fixture two".to_string(), matched: true, mismatches: vec![] }
    );
    assert_eq!(
        records[2],
        Record {
            fixture: "fixture three".to_string(),
            matched: false,
            mismatches: vec!["timed out after 30000 ms".to_string()],
        }
    );
}
