use rust_eval::describe::Record;
use rust_eval::evaluator::{evaluate, Verdict};
use rust_eval::model::{Expectation, Observation, PipelineError};
use rust_eval::report::summarize;

fn clean() -> Observation {
    Observation { exit_code: 0, diagnostics: vec![], outcomes: vec![], unparsed_lines: 0 }
}

fn record(fixture: &str, matched: bool, mismatches: &[&str]) -> Record {
    Record {
        fixture: fixture.to_string(),
        matched,
        mismatches: mismatches.iter().map(|m| m.to_string()).collect(),
    }
}

#[test]
fn record_as_json() {
    assert_eq!(
        record("success_project", true, &[]).to_json(),
        r#"{"fixture":"success_project","matched":true,"mismatches":[]}"#
    );
    assert_eq!(
        record("b", false, &["one"]).to_json(),
        r#"{"fixture":"b","matched":false,"mismatches":["one"]}"#
    );
    assert_eq!(
        record("", false, &["one", "", "three"]).to_json(),
        r#"{"fixture":"","matched":false,"mismatches":["one","","three"]}"#
    );
}

#[test]
fn json_strings_escape_what_they_must() {
    let r = record("a\"b\\c/d", true, &["line\nbreak\r\ttab", "\u{0}\u{1}\u{1f}\u{20}\u{7f}", "é✓𝄞"]);
    assert_eq!(
        r.to_json(),
        "{\"fixture\":\"a\\\"b\\\\c/d\",\"matched\":true,\"mismatches\":[\"line\\nbreak\\r\\ttab\",\"\\u0000\\u0001\\u001f \u{7f}\",\"é✓𝄞\"]}"
    );
    let r = record("\u{8}\u{c}\u{b}\u{1a}", true, &[]);
    assert_eq!(
        r.to_json(),
        "{\"fixture\":\"\\u0008\\u000c\\u000b\\u001a\",\"matched\":true,\"mismatches\":[]}"
    );
}

#[test]
fn report_as_json() {
    assert_eq!(summarize(vec![]).to_json(), r#"{"matched":0,"mismatched":0,"fixtures":[]}"#);
    let a = evaluate("a", &Expectation::CompileOk, &clean());
    let b = evaluate("b", &Expectation::CompileError { code: Some("E1".to_string()) }, &clean());
    let c = Verdict::from_error("c", &PipelineError::Invocation { reason: "no \"rustc\"".to_string() });
    let report = summarize(vec![a, b, c]);
    assert_eq!(
        report.to_json(),
        concat_all(&[
            r#"{"matched":1,"mismatched":2,"fixtures":["#,
            r#"{"fixture":"a","matched":true,"mismatches":[]},"#,
            r#"{"fixture":"b","matched":false,"mismatches":["expected a compile error, observed a clean compile","expected an error with code E1, observed none"]},"#,
            r#"{"fixture":"c","matched":false,"mismatches":["invocation failed: no \"rustc\""]}"#,
            r#"]}"#,
        ])
    );
}

fn concat_all(parts: &[&str]) -> String {
    let mut all = String::new();
    for part in parts {
        all.push_str(part);
    }
    all
}

#[test]
fn report_with_many_fixtures_counts_in_base_ten() {
    let verdicts: Vec<Verdict> =
        (0..12).map(|_| evaluate("f", &Expectation::CompileOk, &clean())).collect();
    let json = summarize(verdicts).to_json();
    assert!(json.starts_with(r#"{"matched":12,"mismatched":0,"fixtures":[{"fixture":"f""#));
    assert_eq!(json.matches(r#"{"fixture":"f","matched":true,"mismatches":[]}"#).count(), 12);
    assert!(!json.contains('\n'));
}

#[test]
fn a_written_string_reads_back() {
    for text in ["plain", "", "a\"b\\c", "line\nbreak\r\ttab", "\u{0}\u{1}\u{8}\u{c}\u{1f}", "é✓𝄞\u{7f}", "\\u0041 \\n"] {
        let written = record(text, true, &[]).to_json();
        let line = format!("{{\"level\":\"note\",\"message\"{}", &written["{\"fixture\"".len()..]);
        let read = rust_eval::json::read_json_diagnostic(&rust_eval::text::chars_of(&line));
        assert_eq!(read.map(|d| d.message), Some(text.to_string()), "{}", line);
    }
}
