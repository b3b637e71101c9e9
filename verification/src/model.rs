//! The data that flows through an evaluation: what a fixture expects, what
//! the toolchain was seen to do, and the judgment that compares the two.
//!
//! Every type that holds text has a view in which each text is a sequence of
//! characters; the contracts of the crate speak of those views.

use vstd::prelude::*;

verus! {

/// How serious a diagnostic is.
#[derive(Clone, Copy, Debug, PartialEq, Eq, Structural)]
pub enum Severity {
    Error,
    Warning,
    Note,
}

/// How one test ended.
#[derive(Clone, Copy, Debug, PartialEq, Eq, Structural)]
pub enum TestStatus {
    Passed,
    Failed,
    Panicked,
}

/// A place in the source that a diagnostic points at.
#[derive(Clone, Copy, Debug, PartialEq, Eq, Structural)]
pub struct Location {
    pub line: u32,
    pub column: u32,
}

/// One message of the compiler or linter.
#[derive(Clone, Debug, PartialEq, Eq)]
pub struct Diagnostic {
    pub severity: Severity,
    /// The stable identifier of the message, such as a lint's name.
    pub code: Option<String>,
    pub message: String,
    pub location: Option<Location>,
}

pub struct DiagnosticView {
    pub severity: Severity,
    pub code: Option<Seq<char>>,
    pub message: Seq<char>,
    pub location: Option<Location>,
}

impl View for Diagnostic {
    type V = DiagnosticView;

    open spec fn view(&self) -> DiagnosticView {
        DiagnosticView {
            severity: self.severity,
            code: self.code.deep_view(),
            message: self.message@,
            location: self.location,
        }
    }
}

impl DeepView for Diagnostic {
    type V = DiagnosticView;

    open spec fn deep_view(&self) -> DiagnosticView {
        self@
    }
}

/// The result of one test, as the test runner reported it.
#[derive(Clone, Debug, PartialEq, Eq)]
pub struct TestOutcome {
    pub name: String,
    pub status: TestStatus,
    pub message: Option<String>,
}

pub struct TestOutcomeView {
    pub name: Seq<char>,
    pub status: TestStatus,
    pub message: Option<Seq<char>>,
}

impl View for TestOutcome {
    type V = TestOutcomeView;

    open spec fn view(&self) -> TestOutcomeView {
        TestOutcomeView {
            name: self.name@,
            status: self.status,
            message: self.message.deep_view(),
        }
    }
}

impl DeepView for TestOutcome {
    type V = TestOutcomeView;

    open spec fn deep_view(&self) -> TestOutcomeView {
        self@
    }
}

/// What a fixture expects of one test.
#[derive(Clone, Debug, PartialEq, Eq)]
pub struct ExpectedTest {
    pub name: String,
    pub status: TestStatus,
}

pub struct ExpectedTestView {
    pub name: Seq<char>,
    pub status: TestStatus,
}

impl View for ExpectedTest {
    type V = ExpectedTestView;

    open spec fn view(&self) -> ExpectedTestView {
        ExpectedTestView { name: self.name@, status: self.status }
    }
}

impl DeepView for ExpectedTest {
    type V = ExpectedTestView;

    open spec fn deep_view(&self) -> ExpectedTestView {
        self@
    }
}

/// The outcome that a fixture declares correct. A fixture has exactly one.
#[derive(Clone, Debug, PartialEq, Eq)]
pub enum Expectation {
    /// The snippet compiles.
    CompileOk,
    /// The snippet does not compile; with a code, one of the errors carries it.
    CompileError { code: Option<String> },
    /// The snippet draws at least these warnings.
    LintWarnings { codes: Vec<String> },
    /// Each of these tests ends as stated.
    TestResults { tests: Vec<ExpectedTest> },
}

pub enum ExpectationView {
    CompileOk,
    CompileError { code: Option<Seq<char>> },
    LintWarnings { codes: Seq<Seq<char>> },
    TestResults { tests: Seq<ExpectedTestView> },
}

impl View for Expectation {
    type V = ExpectationView;

    open spec fn view(&self) -> ExpectationView {
        match self {
            Expectation::CompileOk => ExpectationView::CompileOk,
            Expectation::CompileError { code } => ExpectationView::CompileError {
                code: code.deep_view(),
            },
            Expectation::LintWarnings { codes } => ExpectationView::LintWarnings {
                codes: codes.deep_view(),
            },
            Expectation::TestResults { tests } => ExpectationView::TestResults {
                tests: tests.deep_view(),
            },
        }
    }
}

impl ExpectationView {
    /// The expected warnings form a set and the expected tests a mapping:
    /// no code and no test name is listed twice.
    pub open spec fn well_formed(self) -> bool {
        match self {
            ExpectationView::LintWarnings { codes } => codes.no_duplicates(),
            ExpectationView::TestResults { tests } => forall|i: int, j: int|
                0 <= i < j < tests.len() ==> tests[i].name != tests[j].name,
            _ => true,
        }
    }
}

/// What was seen of the toolchain on one fixture.
#[derive(Clone, Debug, PartialEq, Eq)]
pub struct Observation {
    pub exit_code: i32,
    /// In the order in which the tool emitted them.
    pub diagnostics: Vec<Diagnostic>,
    /// In the order in which the test runner reported them.
    pub outcomes: Vec<TestOutcome>,
    /// How many lines of the tool's output could not be classified.
    pub unparsed_lines: usize,
}

pub struct ObservationView {
    pub exit_code: int,
    pub diagnostics: Seq<DiagnosticView>,
    pub outcomes: Seq<TestOutcomeView>,
    pub unparsed_lines: nat,
}

impl View for Observation {
    type V = ObservationView;

    open spec fn view(&self) -> ObservationView {
        ObservationView {
            exit_code: self.exit_code as int,
            diagnostics: self.diagnostics.deep_view(),
            outcomes: self.outcomes.deep_view(),
            unparsed_lines: self.unparsed_lines as nat,
        }
    }
}

/// What one run of the tool left behind.
#[derive(Clone, Debug, PartialEq, Eq)]
pub struct RawToolOutput {
    pub exit_code: i32,
    pub stdout: String,
    pub stderr: String,
    /// Wall-clock time of the run, in milliseconds.
    pub duration_ms: u64,
}

pub struct RawToolOutputView {
    pub exit_code: int,
    pub stdout: Seq<char>,
    pub stderr: Seq<char>,
    pub duration_ms: u64,
}

impl View for RawToolOutput {
    type V = RawToolOutputView;

    open spec fn view(&self) -> RawToolOutputView {
        RawToolOutputView {
            exit_code: self.exit_code as int,
            stdout: self.stdout@,
            stderr: self.stderr@,
            duration_ms: self.duration_ms,
        }
    }
}

/// Why a manifest was refused. Lines are counted from one.
#[derive(Clone, Copy, Debug, PartialEq, Eq, Structural)]
pub enum ManifestError {
    /// The manifest has no entry at all.
    MissingKind,
    /// The line is no entry, or an entry with a part left empty.
    Malformed { line: usize },
    /// The value of `expectation_kind` is none of the four kinds.
    UnknownKind { line: usize },
    /// The value of a test is none of the three statuses.
    UnknownStatus { line: usize },
    /// The entry has an unknown key, does not belong to the kind, comes
    /// before the kind, or states the kind a second time.
    UnexpectedEntry { line: usize },
    /// The code or the test was listed before.
    Duplicate { line: usize },
}

/// Why a fixture could not be loaded.
#[derive(Clone, Copy, Debug, PartialEq, Eq, Structural)]
pub enum LoadError {
    /// The fixture has no manifest.
    MissingManifest,
    /// The manifest is malformed.
    Manifest(ManifestError),
    /// The source file that the manifest refers to is missing.
    MissingSource,
}

/// Why a fixture's evaluation could not take place.
#[derive(Clone, Debug, PartialEq, Eq)]
pub enum PipelineError {
    /// The manifest is malformed or names a source file that is missing.
    Load { cause: LoadError },
    /// The tool could not be started.
    Invocation { reason: String },
    /// The tool ran longer than the fixture's limit, in milliseconds.
    Timeout { limit_ms: u64 },
}

pub enum PipelineErrorView {
    Load { cause: LoadError },
    Invocation { reason: Seq<char> },
    Timeout { limit_ms: u64 },
}

impl View for PipelineError {
    type V = PipelineErrorView;

    open spec fn view(&self) -> PipelineErrorView {
        match self {
            PipelineError::Load { cause } => PipelineErrorView::Load { cause: *cause },
            PipelineError::Invocation { reason } => PipelineErrorView::Invocation {
                reason: reason@,
            },
            PipelineError::Timeout { limit_ms } => PipelineErrorView::Timeout {
                limit_ms: *limit_ms,
            },
        }
    }
}

/// One discrepancy between what a fixture expects and what was observed.
#[derive(Clone, Debug, PartialEq, Eq)]
#[allow(inconsistent_fields)]
pub enum Mismatch {
    /// An error was expected; the tool exited with zero and reported none.
    ErrorMissing,
    /// No error-severity diagnostic carries the expected code.
    ErrorCodeMissing { code: String },
    /// No warning-severity diagnostic carries the expected code.
    WarningMissing { code: String },
    /// The expected test does not occur among the observed outcomes.
    TestNotRun { name: String },
    /// A clean compile was expected; the tool exited with this code.
    UnexpectedExit { exit_code: i32 },
    /// A clean compile was expected; the tool reported this error.
    UnexpectedError { code: Option<String>, message: String },
    /// The test ran and ended otherwise than expected.
    StatusMismatch { name: String, expected: TestStatus, observed: TestStatus },
    /// The fixture could not be loaded.
    LoadFailed { cause: LoadError },
    /// The tool could not be started.
    InvocationFailed { reason: String },
    /// The tool did not finish within the limit.
    TimedOut { limit_ms: u64 },
    /// A remark, not a failure: lines of output that were not understood.
    UnparsedLines { count: usize },
}

#[allow(inconsistent_fields)]
pub enum MismatchView {
    ErrorMissing,
    ErrorCodeMissing { code: Seq<char> },
    WarningMissing { code: Seq<char> },
    TestNotRun { name: Seq<char> },
    UnexpectedExit { exit_code: int },
    UnexpectedError { code: Option<Seq<char>>, message: Seq<char> },
    StatusMismatch { name: Seq<char>, expected: TestStatus, observed: TestStatus },
    LoadFailed { cause: LoadError },
    InvocationFailed { reason: Seq<char> },
    TimedOut { limit_ms: u64 },
    UnparsedLines { count: nat },
}

impl View for Mismatch {
    type V = MismatchView;

    open spec fn view(&self) -> MismatchView {
        match self {
            Mismatch::ErrorMissing => MismatchView::ErrorMissing,
            Mismatch::ErrorCodeMissing { code } => MismatchView::ErrorCodeMissing { code: code@ },
            Mismatch::WarningMissing { code } => MismatchView::WarningMissing { code: code@ },
            Mismatch::TestNotRun { name } => MismatchView::TestNotRun { name: name@ },
            Mismatch::UnexpectedExit { exit_code } => MismatchView::UnexpectedExit {
                exit_code: *exit_code as int,
            },
            Mismatch::UnexpectedError { code, message } => MismatchView::UnexpectedError {
                code: code.deep_view(),
                message: message@,
            },
            Mismatch::StatusMismatch { name, expected, observed } => MismatchView::StatusMismatch {
                name: name@,
                expected: *expected,
                observed: *observed,
            },
            Mismatch::LoadFailed { cause } => MismatchView::LoadFailed { cause: *cause },
            Mismatch::InvocationFailed { reason } => MismatchView::InvocationFailed {
                reason: reason@,
            },
            Mismatch::TimedOut { limit_ms } => MismatchView::TimedOut { limit_ms: *limit_ms },
            Mismatch::UnparsedLines { count } => MismatchView::UnparsedLines {
                count: *count as nat,
            },
        }
    }
}

impl DeepView for Mismatch {
    type V = MismatchView;

    open spec fn deep_view(&self) -> MismatchView {
        self@
    }
}

impl MismatchView {
    /// Whether this entry is a remark that leaves the judgment as it is.
    pub open spec fn is_remark(self) -> bool {
        self is UnparsedLines
    }
}

impl Mismatch {
    /// Whether this entry is a remark that leaves the judgment as it is.
    pub fn is_remark(&self) -> (r: bool)
        ensures
            r == self@.is_remark(),
    {
        match self {
            Mismatch::UnparsedLines { .. } => true,
            _ => false,
        }
    }
}

} // verus!
