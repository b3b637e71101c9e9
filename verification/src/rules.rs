//! The comparison rules, stated over views: when an observation meets an
//! expectation, and which mismatches are reported when it does not.

use crate::model::{
    DiagnosticView, ExpectationView, ExpectedTestView, MismatchView, ObservationView, Severity,
    TestOutcomeView, TestStatus,
};
use vstd::prelude::*;

verus! {

/// Whether some diagnostic has severity `Error`.
pub open spec fn has_error(diagnostics: Seq<DiagnosticView>) -> bool {
    exists|i: int|
        0 <= i < diagnostics.len() && (#[trigger] diagnostics[i]).severity == Severity::Error
}

/// Whether some diagnostic of the given severity carries the given code.
pub open spec fn carries(diagnostics: Seq<DiagnosticView>, severity: Severity, code: Seq<char>)
    -> bool {
    exists|i: int|
        0 <= i < diagnostics.len() && (#[trigger] diagnostics[i]).severity == severity
            && diagnostics[i].code == Some(code)
}

/// The status of the first observed outcome with the given name.
pub open spec fn observed_status(outcomes: Seq<TestOutcomeView>, name: Seq<char>) -> Option<
    TestStatus,
>
    decreases outcomes.len(),
{
    if outcomes.len() == 0 {
        None
    } else if outcomes[0].name == name {
        Some(outcomes[0].status)
    } else {
        observed_status(outcomes.skip(1), name)
    }
}

/// Whether the observation is what the expectation asks for.
pub open spec fn expectation_met(e: ExpectationView, o: ObservationView) -> bool {
    match e {
        ExpectationView::CompileOk => o.exit_code == 0 && !has_error(o.diagnostics),
        ExpectationView::CompileError { code } => {
            &&& o.exit_code != 0 || has_error(o.diagnostics)
            &&& code matches Some(c) ==> carries(o.diagnostics, Severity::Error, c)
        },
        ExpectationView::LintWarnings { codes } => forall|i: int|
            0 <= i < codes.len() ==> carries(o.diagnostics, Severity::Warning, #[trigger] codes[i]),
        ExpectationView::TestResults { tests } => forall|i: int|
            0 <= i < tests.len() ==> observed_status(o.outcomes, (#[trigger] tests[i]).name)
                == Some(tests[i].status),
    }
}

/// The report of an error-severity diagnostic where a clean compile was
/// expected; nothing for a diagnostic of another severity.
pub open spec fn unexpected_error(d: DiagnosticView) -> Option<MismatchView> {
    if d.severity == Severity::Error {
        Some(MismatchView::UnexpectedError { code: d.code, message: d.message })
    } else {
        None
    }
}

/// The report of an expected warning that no diagnostic carries.
pub open spec fn missing_warning(diagnostics: Seq<DiagnosticView>) -> spec_fn(Seq<char>) -> Option<
    MismatchView,
> {
    |code: Seq<char>|
        if carries(diagnostics, Severity::Warning, code) {
            None
        } else {
            Some(MismatchView::WarningMissing { code })
        }
}

/// The report of an expected test that does not occur among the outcomes.
pub open spec fn test_not_run(outcomes: Seq<TestOutcomeView>) -> spec_fn(
    ExpectedTestView,
) -> Option<MismatchView> {
    |t: ExpectedTestView|
        if observed_status(outcomes, t.name) is None {
            Some(MismatchView::TestNotRun { name: t.name })
        } else {
            None
        }
}

/// The report of an expected test that ran and ended otherwise.
pub open spec fn status_differs(outcomes: Seq<TestOutcomeView>) -> spec_fn(
    ExpectedTestView,
) -> Option<MismatchView> {
    |t: ExpectedTestView|
        match observed_status(outcomes, t.name) {
            Some(observed) if observed != t.status => Some(
                MismatchView::StatusMismatch { name: t.name, expected: t.status, observed },
            ),
            _ => None,
        }
}

/// The mismatches that make a judgment fail, in the order in which they are
/// reported: what is missing first, then what is there and differs.
pub open spec fn findings(e: ExpectationView, o: ObservationView) -> Seq<MismatchView> {
    match e {
        ExpectationView::CompileOk => {
            let exit = if o.exit_code != 0 {
                seq![MismatchView::UnexpectedExit { exit_code: o.exit_code }]
            } else {
                Seq::empty()
            };
            exit + o.diagnostics.filter_map(|d: DiagnosticView| unexpected_error(d))
        },
        ExpectationView::CompileError { code } => {
            let absent = if o.exit_code == 0 && !has_error(o.diagnostics) {
                seq![MismatchView::ErrorMissing]
            } else {
                Seq::empty()
            };
            let uncoded = match code {
                Some(c) if !carries(o.diagnostics, Severity::Error, c) => seq![
                    MismatchView::ErrorCodeMissing { code: c },
                ],
                _ => Seq::empty(),
            };
            absent + uncoded
        },
        ExpectationView::LintWarnings { codes } => codes.filter_map(
            missing_warning(o.diagnostics),
        ),
        ExpectationView::TestResults { tests } => tests.filter_map(test_not_run(o.outcomes))
            + tests.filter_map(status_differs(o.outcomes)),
    }
}

/// The remarks that follow the findings: a count of the lines that were not
/// understood, where there are any.
pub open spec fn remarks(o: ObservationView) -> Seq<MismatchView> {
    if o.unparsed_lines > 0 {
        seq![MismatchView::UnparsedLines { count: o.unparsed_lines }]
    } else {
        Seq::empty()
    }
}

/// A filtered mapping is empty exactly when the function gives nothing for
/// every item.
pub proof fn lemma_filter_map_empty<A, B>(s: Seq<A>, f: spec_fn(A) -> Option<B>)
    ensures
        s.filter_map(f).len() == 0 <==> forall|i: int|
            0 <= i < s.len() ==> f(#[trigger] s[i]) is None,
    decreases s.len(),
{
    if s.len() > 0 {
        let rest = s.drop_last();
        lemma_filter_map_empty(rest, f);
        assert(forall|i: int| 0 <= i < rest.len() ==> rest[i] == s[i]);
        if s.filter_map(f).len() == 0 {
            assert(f(s.last()) is None);
            assert forall|i: int| 0 <= i < s.len() implies f(#[trigger] s[i]) is None by {
                if i < rest.len() {
                    assert(rest[i] == s[i]);
                }
            }
        }
        if forall|i: int| 0 <= i < s.len() ==> f(#[trigger] s[i]) is None {
            assert(f(s[s.len() - 1]) is None);
            assert forall|i: int| 0 <= i < rest.len() implies f(#[trigger] rest[i]) is None by {
                assert(rest[i] == s[i]);
            }
        }
    }
}

/// There is no finding exactly when the expectation is met.
pub proof fn lemma_no_finding_iff_met(e: ExpectationView, o: ObservationView)
    ensures
        findings(e, o).len() == 0 <==> expectation_met(e, o),
{
    match e {
        ExpectationView::CompileOk => {
            let f = |d: DiagnosticView| unexpected_error(d);
            lemma_filter_map_empty(o.diagnostics, f);
            if has_error(o.diagnostics) {
                let i = choose|i: int|
                    0 <= i < o.diagnostics.len() && (#[trigger] o.diagnostics[i]).severity
                        == Severity::Error;
                assert(f(o.diagnostics[i]) is Some);
            }
        },
        ExpectationView::CompileError { code } => {},
        ExpectationView::LintWarnings { codes } => {
            lemma_filter_map_empty(codes, missing_warning(o.diagnostics));
        },
        ExpectationView::TestResults { tests } => {
            lemma_filter_map_empty(tests, test_not_run(o.outcomes));
            lemma_filter_map_empty(tests, status_differs(o.outcomes));
        },
    }
}

} // verus!
