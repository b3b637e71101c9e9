//! The verdict on one fixture, and the function that reaches it.

use crate::model::{
    Diagnostic, DiagnosticView, Expectation, ExpectationView, ExpectedTest, Mismatch,
    MismatchView, Observation, ObservationView, PipelineError, PipelineErrorView, Severity,
    TestOutcome, TestStatus,
};
use crate::rules::{
    carries, expectation_met, findings, has_error, lemma_no_finding_iff_met, missing_warning,
    observed_status, remarks, status_differs, test_not_run, unexpected_error,
};
use vstd::prelude::*;

verus! {

/// The judgment on one fixture. It is made once and then only read.
#[derive(Debug, PartialEq, Eq)]
pub struct Verdict {
    fixture: String,
    matched: bool,
    mismatches: Vec<Mismatch>,
}

pub struct VerdictView {
    pub fixture: Seq<char>,
    pub matched: bool,
    pub mismatches: Seq<MismatchView>,
}

impl VerdictView {
    /// A verdict is `matched` exactly when it lists nothing but remarks.
    pub open spec fn consistent(self) -> bool {
        self.matched <==> forall|i: int|
            0 <= i < self.mismatches.len() ==> (#[trigger] self.mismatches[i]).is_remark()
    }
}

impl View for Verdict {
    type V = VerdictView;

    closed spec fn view(&self) -> VerdictView {
        VerdictView {
            fixture: self.fixture@,
            matched: self.matched,
            mismatches: self.mismatches.deep_view(),
        }
    }
}

impl DeepView for Verdict {
    type V = VerdictView;

    open spec fn deep_view(&self) -> VerdictView {
        self@
    }
}

/// The verdict that the rules give for an observation.
pub open spec fn verdict_of(fixture: Seq<char>, e: ExpectationView, o: ObservationView)
    -> VerdictView {
    VerdictView {
        fixture,
        matched: expectation_met(e, o),
        mismatches: findings(e, o) + remarks(o),
    }
}

/// The mismatch that stands for an evaluation that could not take place.
pub open spec fn mismatch_of_error(error: PipelineErrorView) -> MismatchView {
    match error {
        PipelineErrorView::Load { cause } => MismatchView::LoadFailed { cause },
        PipelineErrorView::Invocation { reason } => MismatchView::InvocationFailed { reason },
        PipelineErrorView::Timeout { limit_ms } => MismatchView::TimedOut { limit_ms },
    }
}

/// The verdict on a fixture whose evaluation could not take place: not
/// matched, with the one mismatch that says why.
pub open spec fn verdict_of_error(fixture: Seq<char>, error: PipelineErrorView) -> VerdictView {
    VerdictView { fixture, matched: false, mismatches: seq![mismatch_of_error(error)] }
}

/// The verdict on a fixture, whether its evaluation took place or not.
pub open spec fn verdict_of_outcome(
    fixture: Seq<char>,
    e: ExpectationView,
    outcome: Result<ObservationView, PipelineErrorView>,
) -> VerdictView {
    match outcome {
        Ok(o) => verdict_of(fixture, e, o),
        Err(error) => verdict_of_error(fixture, error),
    }
}

/// Every item of a filtered mapping has what the function's results have.
pub proof fn lemma_filter_map_all<A, B>(
    s: Seq<A>,
    f: spec_fn(A) -> Option<B>,
    p: spec_fn(B) -> bool,
)
    requires
        forall|i: int| 0 <= i < s.len() && f(#[trigger] s[i]) is Some ==> p(f(s[i])->0),
    ensures
        forall|k: int| 0 <= k < s.filter_map(f).len() ==> p(#[trigger] s.filter_map(f)[k]),
    decreases s.len(),
{
    if s.len() > 0 {
        let rest = s.drop_last();
        assert forall|i: int| 0 <= i < rest.len() && f(#[trigger] rest[i]) is Some implies p(
            f(rest[i])->0,
        ) by {
            assert(rest[i] == s[i]);
        }
        lemma_filter_map_all(rest, f, p);
        let last = s[s.len() - 1];
        assert(s.last() == last);
        assert forall|k: int| 0 <= k < s.filter_map(f).len() implies p(
            #[trigger] s.filter_map(f)[k],
        ) by {
            if k < rest.filter_map(f).len() {
                assert(s.filter_map(f)[k] == rest.filter_map(f)[k]);
            } else {
                assert(f(last) is Some);
                assert(s.filter_map(f)[k] == f(last)->0);
            }
        }
    }
}

/// No finding is a remark.
pub proof fn lemma_findings_are_failures(e: ExpectationView, o: ObservationView)
    ensures
        forall|k: int|
            0 <= k < findings(e, o).len() ==> !(#[trigger] findings(e, o)[k]).is_remark(),
{
    let p = |m: MismatchView| !m.is_remark();
    match e {
        ExpectationView::CompileOk => {
            lemma_filter_map_all(
                o.diagnostics,
                |d: DiagnosticView| unexpected_error(d),
                p,
            );
        },
        ExpectationView::CompileError { code } => {},
        ExpectationView::LintWarnings { codes } => {
            lemma_filter_map_all(codes, missing_warning(o.diagnostics), p);
        },
        ExpectationView::TestResults { tests } => {
            lemma_filter_map_all(tests, test_not_run(o.outcomes), p);
            lemma_filter_map_all(tests, status_differs(o.outcomes), p);
        },
    }
    assert forall|k: int| 0 <= k < findings(e, o).len() implies !(#[trigger] findings(
        e,
        o,
    )[k]).is_remark() by {
        assert(p(findings(e, o)[k]));
    }
}

/// The verdict that the rules give is consistent.
pub proof fn lemma_verdict_consistent(fixture: Seq<char>, e: ExpectationView, o: ObservationView)
    ensures
        verdict_of(fixture, e, o).consistent(),
{
    lemma_no_finding_iff_met(e, o);
    lemma_findings_are_failures(e, o);
    let v = verdict_of(fixture, e, o);
    if findings(e, o).len() > 0 {
        assert(v.mismatches[0] == findings(e, o)[0]);
        assert(!v.mismatches[0].is_remark());
    }
}

/// The verdict on an evaluation that could not take place is consistent.
pub proof fn lemma_error_verdict_consistent(fixture: Seq<char>, error: PipelineErrorView)
    ensures
        verdict_of_error(fixture, error).consistent(),
{
    let v = verdict_of_error(fixture, error);
    assert(!v.mismatches[0].is_remark());
}

/// Whether `candidate` holds exactly the text `code`.
fn holds_code(candidate: &Option<String>, code: &String) -> (r: bool)
    ensures
        r == (candidate.deep_view() == Some(code@)),
{
    match candidate {
        Some(held) => *held == *code,
        None => false,
    }
}

/// Whether some diagnostic has severity `Error`.
fn any_error(diagnostics: &Vec<Diagnostic>) -> (r: bool)
    ensures
        r == has_error(diagnostics.deep_view()),
{
    let ghost view = diagnostics.deep_view();
    let mut i: usize = 0;
    while i < diagnostics.len()
        invariant
            i <= diagnostics.len(),
            view == diagnostics.deep_view(),
            forall|k: int| 0 <= k < i ==> (#[trigger] view[k]).severity != Severity::Error,
        decreases diagnostics.len() - i,
    {
        if diagnostics[i].severity == Severity::Error {
            assert(view[i as int].severity == Severity::Error);
            return true;
        }
        i = i + 1;
    }
    false
}

/// Whether some diagnostic of the given severity carries the given code.
fn any_carries(diagnostics: &Vec<Diagnostic>, severity: Severity, code: &String) -> (r: bool)
    ensures
        r == carries(diagnostics.deep_view(), severity, code@),
{
    let ghost view = diagnostics.deep_view();
    let mut i: usize = 0;
    while i < diagnostics.len()
        invariant
            i <= diagnostics.len(),
            view == diagnostics.deep_view(),
            forall|k: int|
                0 <= k < i ==> !((#[trigger] view[k]).severity == severity && view[k].code == Some(
                    code@,
                )),
        decreases diagnostics.len() - i,
    {
        if diagnostics[i].severity == severity && holds_code(&diagnostics[i].code, code) {
            assert(view[i as int].severity == severity && view[i as int].code == Some(code@));
            return true;
        }
        i = i + 1;
    }
    false
}

/// The status of the first outcome with the given name.
fn first_status(outcomes: &Vec<TestOutcome>, name: &String) -> (r: Option<TestStatus>)
    ensures
        r == observed_status(outcomes.deep_view(), name@),
{
    let ghost view = outcomes.deep_view();
    let mut i: usize = 0;
    assert(view.skip(0) == view);
    while i < outcomes.len()
        invariant
            i <= outcomes.len(),
            view == outcomes.deep_view(),
            observed_status(view, name@) == observed_status(view.skip(i as int), name@),
        decreases outcomes.len() - i,
    {
        assert(view.skip(i as int)[0] == view[i as int]);
        if outcomes[i].name == *name {
            return Some(outcomes[i].status);
        }
        assert(view.skip(i as int).skip(1) == view.skip(i + 1));
        i = i + 1;
    }
    None
}

/// The findings where a clean compile was expected.
fn compile_ok_findings(o: &Observation) -> (list: Vec<Mismatch>)
    ensures
        list.deep_view() == findings(ExpectationView::CompileOk, o@),
{
    let ghost view = o.diagnostics.deep_view();
    let ghost report = |d: DiagnosticView| unexpected_error(d);
    let mut list: Vec<Mismatch> = Vec::new();
    if o.exit_code != 0 {
        list.push(Mismatch::UnexpectedExit { exit_code: o.exit_code });
    }
    let ghost exit = list.deep_view();
    assert(exit == if o@.exit_code != 0 {
        seq![MismatchView::UnexpectedExit { exit_code: o@.exit_code }]
    } else {
        Seq::<MismatchView>::empty()
    });
    let mut i: usize = 0;
    while i < o.diagnostics.len()
        invariant
            i <= o.diagnostics.len(),
            view == o.diagnostics.deep_view(),
            report == |d: DiagnosticView| unexpected_error(d),
            list.deep_view() == exit + view.take(i as int).filter_map(report),
        decreases o.diagnostics.len() - i,
    {
        proof {
            view.lemma_filter_map_take_succ(report, i as int);
        }
        let ghost before = list.deep_view();
        if o.diagnostics[i].severity == Severity::Error {
            let item = Mismatch::UnexpectedError {
                code: o.diagnostics[i].code.clone(),
                message: o.diagnostics[i].message.clone(),
            };
            assert(Some(item@) == report(view[i as int]));
            list.push(item);
            assert(list.deep_view() == before.push(item@));
        }
        i = i + 1;
    }
    assert(view.take(i as int) == view);
    list
}

/// The findings where a compile error was expected.
fn compile_error_findings(code: &Option<String>, o: &Observation) -> (list: Vec<Mismatch>)
    ensures
        list.deep_view() == findings(ExpectationView::CompileError { code: code.deep_view() }, o@),
{
    let mut list: Vec<Mismatch> = Vec::new();
    if o.exit_code == 0 && !any_error(&o.diagnostics) {
        list.push(Mismatch::ErrorMissing);
    }
    let ghost absent = list.deep_view();
    assert(absent == if o@.exit_code == 0 && !has_error(o@.diagnostics) {
        seq![MismatchView::ErrorMissing]
    } else {
        Seq::<MismatchView>::empty()
    });
    match code {
        Some(c) => {
            if !any_carries(&o.diagnostics, Severity::Error, c) {
                let item = Mismatch::ErrorCodeMissing { code: c.clone() };
                list.push(item);
                assert(list.deep_view() == absent + seq![
                    MismatchView::ErrorCodeMissing { code: c@ },
                ]);
            } else {
                assert(list.deep_view() == absent + Seq::<MismatchView>::empty());
            }
        },
        None => {
            assert(list.deep_view() == absent + Seq::<MismatchView>::empty());
        },
    }
    list
}

/// The findings where warnings were expected.
fn lint_findings(codes: &Vec<String>, o: &Observation) -> (list: Vec<Mismatch>)
    ensures
        list.deep_view() == findings(
            ExpectationView::LintWarnings { codes: codes.deep_view() },
            o@,
        ),
{
    let ghost view = codes.deep_view();
    let ghost report = missing_warning(o@.diagnostics);
    let mut list: Vec<Mismatch> = Vec::new();
    let mut i: usize = 0;
    assert(list.deep_view() == view.take(0).filter_map(report));
    while i < codes.len()
        invariant
            i <= codes.len(),
            view == codes.deep_view(),
            report == missing_warning(o@.diagnostics),
            list.deep_view() == view.take(i as int).filter_map(report),
        decreases codes.len() - i,
    {
        proof {
            view.lemma_filter_map_take_succ(report, i as int);
        }
        let ghost before = list.deep_view();
        if !any_carries(&o.diagnostics, Severity::Warning, &codes[i]) {
            let item = Mismatch::WarningMissing { code: codes[i].clone() };
            assert(Some(item@) == report(view[i as int]));
            list.push(item);
            assert(list.deep_view() == before.push(item@));
        }
        i = i + 1;
    }
    assert(view.take(i as int) == view);
    list
}

/// The findings where test results were expected: first the tests that did
/// not run, then those that ended otherwise than expected.
fn test_findings(tests: &Vec<ExpectedTest>, o: &Observation) -> (list: Vec<Mismatch>)
    ensures
        list.deep_view() == findings(ExpectationView::TestResults { tests: tests.deep_view() }, o@),
{
    let ghost view = tests.deep_view();
    let ghost absent = test_not_run(o@.outcomes);
    let ghost differs = status_differs(o@.outcomes);
    let mut list: Vec<Mismatch> = Vec::new();
    let mut i: usize = 0;
    assert(list.deep_view() == view.take(0).filter_map(absent));
    while i < tests.len()
        invariant
            i <= tests.len(),
            view == tests.deep_view(),
            absent == test_not_run(o@.outcomes),
            list.deep_view() == view.take(i as int).filter_map(absent),
        decreases tests.len() - i,
    {
        proof {
            view.lemma_filter_map_take_succ(absent, i as int);
        }
        let ghost before = list.deep_view();
        if first_status(&o.outcomes, &tests[i].name).is_none() {
            let item = Mismatch::TestNotRun { name: tests[i].name.clone() };
            assert(Some(item@) == absent(view[i as int]));
            list.push(item);
            assert(list.deep_view() == before.push(item@));
        }
        i = i + 1;
    }
    assert(view.take(i as int) == view);
    let ghost missing = list.deep_view();
    let mut j: usize = 0;
    assert(list.deep_view() == missing + view.take(0).filter_map(differs));
    while j < tests.len()
        invariant
            j <= tests.len(),
            view == tests.deep_view(),
            differs == status_differs(o@.outcomes),
            list.deep_view() == missing + view.take(j as int).filter_map(differs),
        decreases tests.len() - j,
    {
        proof {
            view.lemma_filter_map_take_succ(differs, j as int);
        }
        let ghost before = list.deep_view();
        match first_status(&o.outcomes, &tests[j].name) {
            Some(observed) => {
                if observed != tests[j].status {
                    let item = Mismatch::StatusMismatch {
                        name: tests[j].name.clone(),
                        expected: tests[j].status,
                        observed,
                    };
                    assert(Some(item@) == differs(view[j as int]));
                    list.push(item);
                    assert(list.deep_view() == before.push(item@));
                }
            },
            None => {},
        }
        j = j + 1;
    }
    assert(view.take(j as int) == view);
    list
}

impl Verdict {
    #[verifier::type_invariant]
    spec fn inv(self) -> bool {
        self@.consistent()
    }

    /// The name of the fixture that was judged.
    pub fn fixture(&self) -> (r: &String)
        ensures
            r@ == self@.fixture,
    {
        &self.fixture
    }

    /// Whether the observation was what the fixture expects.
    pub fn matched(&self) -> (r: bool)
        ensures
            r == self@.matched,
            self@.consistent(),
    {
        proof {
            use_type_invariant(self);
        }
        self.matched
    }

    /// The mismatches, in the order in which they are reported.
    pub fn mismatches(&self) -> (r: &Vec<Mismatch>)
        ensures
            r.deep_view() == self@.mismatches,
            self@.consistent(),
    {
        proof {
            use_type_invariant(self);
        }
        &self.mismatches
    }

    /// The verdict on a fixture whose evaluation could not take place.
    pub fn from_error(fixture: &str, error: &PipelineError) -> (v: Verdict)
        ensures
            v@ == verdict_of_error(fixture@, error@),
    {
        let item = match error {
            PipelineError::Load { cause } => Mismatch::LoadFailed { cause: *cause },
            PipelineError::Invocation { reason } => Mismatch::InvocationFailed {
                reason: reason.clone(),
            },
            PipelineError::Timeout { limit_ms } => Mismatch::TimedOut { limit_ms: *limit_ms },
        };
        assert(item@ == mismatch_of_error(error@));
        let mut list: Vec<Mismatch> = Vec::new();
        list.push(item);
        assert(list.deep_view() == seq![mismatch_of_error(error@)]);
        proof {
            lemma_error_verdict_consistent(fixture@, error@);
        }
        Verdict { fixture: fixture.to_owned(), matched: false, mismatches: list }
    }
}

/// Judges an observation against a fixture's expectation.
///
/// The verdict is `matched` exactly when the expectation is met. Its
/// mismatches are the findings in their stated order, followed by a remark
/// on unparsed lines where there were any.
pub fn evaluate(fixture: &str, expectation: &Expectation, observation: &Observation) -> (v: Verdict)
    ensures
        v@ == verdict_of(fixture@, expectation@, observation@),
{
    let mut list = match expectation {
        Expectation::CompileOk => compile_ok_findings(observation),
        Expectation::CompileError { code } => compile_error_findings(code, observation),
        Expectation::LintWarnings { codes } => lint_findings(codes, observation),
        Expectation::TestResults { tests } => test_findings(tests, observation),
    };
    let matched = list.len() == 0;
    let ghost found = list.deep_view();
    if observation.unparsed_lines > 0 {
        list.push(Mismatch::UnparsedLines { count: observation.unparsed_lines });
        assert(list.deep_view() == found + remarks(observation@));
    } else {
        assert(list.deep_view() == found + remarks(observation@));
    }
    proof {
        lemma_no_finding_iff_met(expectation@, observation@);
        lemma_verdict_consistent(fixture@, expectation@, observation@);
    }
    Verdict { fixture: fixture.to_owned(), matched, mismatches: list }
}

/// Judges a fixture whose evaluation may have failed: from the observation
/// where there is one, else from the error.
pub fn judge(
    fixture: &str,
    expectation: &Expectation,
    outcome: &Result<Observation, PipelineError>,
) -> (v: Verdict)
    ensures
        v@ == verdict_of_outcome(
            fixture@,
            expectation@,
            match outcome {
                Ok(o) => Ok(o@),
                Err(error) => Err(error@),
            },
        ),
{
    match outcome {
        Ok(observation) => evaluate(fixture, expectation, observation),
        Err(error) => Verdict::from_error(fixture, error),
    }
}

} // verus!
