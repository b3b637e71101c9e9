//! Mismatches in words, and the records of a report.

use crate::evaluator::{Verdict, VerdictView};
use crate::model::{LoadError, ManifestError, Mismatch, MismatchView, TestStatus};
use crate::report::Report;
use crate::scan::{all_digits, decimal_value, is_digit};
use crate::text::{put, text_of};
use vstd::prelude::*;

verus! {

/// The character that writes the digit `d`.
pub open spec fn digit_char(d: nat) -> char {
    if d == 0 {
        '0'
    } else if d == 1 {
        '1'
    } else if d == 2 {
        '2'
    } else if d == 3 {
        '3'
    } else if d == 4 {
        '4'
    } else if d == 5 {
        '5'
    } else if d == 6 {
        '6'
    } else if d == 7 {
        '7'
    } else if d == 8 {
        '8'
    } else {
        '9'
    }
}

/// The digits that write `n` in base ten, without leading zeros.
pub open spec fn decimal_of(n: nat) -> Seq<char>
    decreases n,
{
    if n < 10 {
        seq![digit_char(n)]
    } else {
        decimal_of(n / 10).push(digit_char(n % 10))
    }
}

/// A number in base ten, with a minus sign where it is negative.
pub open spec fn signed_decimal_of(v: int) -> Seq<char> {
    if v < 0 {
        seq!['-'] + decimal_of((-v) as nat)
    } else {
        decimal_of(v as nat)
    }
}

/// What is written for a number reads back as that number.
pub proof fn lemma_decimal_round_trip(n: nat)
    ensures
        decimal_of(n).len() > 0,
        all_digits(decimal_of(n)),
        decimal_value(decimal_of(n)) == n,
    decreases n,
{
    if n >= 10 {
        lemma_decimal_round_trip(n / 10);
        let front = decimal_of(n / 10);
        let all = decimal_of(n);
        assert(all.drop_last() == front);
        assert(all.last() == digit_char(n % 10));
        assert forall|i: int| 0 <= i < all.len() implies is_digit(#[trigger] all[i]) by {
            if i < front.len() {
                assert(all[i] == front[i]);
            }
        }
    } else {
        assert(decimal_of(n).drop_last() == Seq::<char>::empty());
        assert(decimal_value(Seq::<char>::empty()) == 0);
    }
}

/// The word for a test status.
pub open spec fn status_name(status: TestStatus) -> Seq<char> {
    match status {
        TestStatus::Passed => "passed"@,
        TestStatus::Failed => "failed"@,
        TestStatus::Panicked => "panicked"@,
    }
}

/// Why a manifest was refused, in words.
pub open spec fn manifest_error_text(e: ManifestError) -> Seq<char> {
    match e {
        ManifestError::MissingKind => "manifest has no expectation_kind"@,
        ManifestError::Malformed { line } => "manifest line "@ + decimal_of(line as nat)
            + ": malformed entry"@,
        ManifestError::UnknownKind { line } => "manifest line "@ + decimal_of(line as nat)
            + ": unknown expectation_kind"@,
        ManifestError::UnknownStatus { line } => "manifest line "@ + decimal_of(line as nat)
            + ": unknown test status"@,
        ManifestError::UnexpectedEntry { line } => "manifest line "@ + decimal_of(line as nat)
            + ": unexpected entry"@,
        ManifestError::Duplicate { line } => "manifest line "@ + decimal_of(line as nat)
            + ": listed twice"@,
    }
}

/// Why a fixture could not be loaded, in words.
pub open spec fn load_error_text(e: LoadError) -> Seq<char> {
    match e {
        LoadError::MissingManifest => "manifest is missing"@,
        LoadError::Manifest(e) => manifest_error_text(e),
        LoadError::MissingSource => "source file is missing"@,
    }
}

/// A mismatch in words: what was expected and what was observed.
pub open spec fn description_of(m: MismatchView) -> Seq<char> {
    match m {
        MismatchView::ErrorMissing => "expected a compile error, observed a clean compile"@,
        MismatchView::ErrorCodeMissing { code } => "expected an error with code "@ + code
            + ", observed none"@,
        MismatchView::WarningMissing { code } => "expected warning "@ + code + ", observed none"@,
        MismatchView::TestNotRun { name } => "test not run: "@ + name,
        MismatchView::UnexpectedExit { exit_code } => "expected exit code 0, observed "@
            + signed_decimal_of(exit_code),
        MismatchView::UnexpectedError { code, message } => match code {
            Some(code) => "expected no error, observed error["@ + code + "]: "@ + message,
            None => "expected no error, observed error: "@ + message,
        },
        MismatchView::StatusMismatch { name, expected, observed } => "test "@ + name
            + ": expected "@ + status_name(expected) + ", observed "@ + status_name(observed),
        MismatchView::LoadFailed { cause } => "load failed: "@ + load_error_text(cause),
        MismatchView::InvocationFailed { reason } => "invocation failed: "@ + reason,
        MismatchView::TimedOut { limit_ms } => "timed out after "@ + decimal_of(limit_ms as nat)
            + " ms"@,
        MismatchView::UnparsedLines { count } => "note: "@ + decimal_of(count) + " unparsed lines"@,
    }
}

/// The character that writes a digit.
fn digit(d: u64) -> (c: char)
    requires
        d < 10,
    ensures
        c == digit_char(d as nat),
{
    if d == 0 {
        '0'
    } else if d == 1 {
        '1'
    } else if d == 2 {
        '2'
    } else if d == 3 {
        '3'
    } else if d == 4 {
        '4'
    } else if d == 5 {
        '5'
    } else if d == 6 {
        '6'
    } else if d == 7 {
        '7'
    } else if d == 8 {
        '8'
    } else {
        '9'
    }
}

/// Appends `n` in base ten.
pub(crate) fn put_decimal(out: &mut Vec<char>, n: u64)
    ensures
        final(out)@ == old(out)@ + decimal_of(n as nat),
    decreases n,
{
    if n >= 10 {
        put_decimal(out, n / 10);
    }
    out.push(digit(n % 10));
}

/// Appends `v` in base ten, with a minus sign where it is negative.
fn put_signed(out: &mut Vec<char>, v: i32)
    ensures
        final(out)@ == old(out)@ + signed_decimal_of(v as int),
{
    if v < 0 {
        out.push('-');
        let magnitude: u64 = (-(v as i64)) as u64;
        put_decimal(out, magnitude);
    } else {
        put_decimal(out, v as u64);
    }
}

/// Appends the word for a test status.
fn put_status(out: &mut Vec<char>, status: TestStatus)
    ensures
        final(out)@ == old(out)@ + status_name(status),
{
    match status {
        TestStatus::Passed => put(out, "passed"),
        TestStatus::Failed => put(out, "failed"),
        TestStatus::Panicked => put(out, "panicked"),
    }
}

/// Appends the words for a line of a manifest and what is wrong with it.
fn put_line_error(out: &mut Vec<char>, line: usize, what: &str)
    ensures
        final(out)@ == old(out)@ + ("manifest line "@ + decimal_of(line as nat) + what@),
{
    put(out, "manifest line ");
    put_decimal(out, line as u64);
    put(out, what);
}

/// Appends why a fixture could not be loaded.
fn put_load_error(out: &mut Vec<char>, e: &LoadError)
    ensures
        final(out)@ == old(out)@ + load_error_text(*e),
{
    match e {
        LoadError::MissingManifest => put(out, "manifest is missing"),
        LoadError::MissingSource => put(out, "source file is missing"),
        LoadError::Manifest(e) => match e {
            ManifestError::MissingKind => put(out, "manifest has no expectation_kind"),
            ManifestError::Malformed { line } => put_line_error(out, *line, ": malformed entry"),
            ManifestError::UnknownKind { line } => put_line_error(
                out,
                *line,
                ": unknown expectation_kind",
            ),
            ManifestError::UnknownStatus { line } => put_line_error(
                out,
                *line,
                ": unknown test status",
            ),
            ManifestError::UnexpectedEntry { line } => put_line_error(
                out,
                *line,
                ": unexpected entry",
            ),
            ManifestError::Duplicate { line } => put_line_error(out, *line, ": listed twice"),
        },
    }
}

impl Mismatch {
    /// The mismatch in words: what was expected and what was observed.
    pub fn describe(&self) -> (r: String)
        ensures
            r@ == description_of(self@),
    {
        let mut out: Vec<char> = Vec::new();
        match self {
            Mismatch::ErrorMissing => {
                put(&mut out, "expected a compile error, observed a clean compile");
            },
            Mismatch::ErrorCodeMissing { code } => {
                put(&mut out, "expected an error with code ");
                put(&mut out, code.as_str());
                put(&mut out, ", observed none");
            },
            Mismatch::WarningMissing { code } => {
                put(&mut out, "expected warning ");
                put(&mut out, code.as_str());
                put(&mut out, ", observed none");
            },
            Mismatch::TestNotRun { name } => {
                put(&mut out, "test not run: ");
                put(&mut out, name.as_str());
            },
            Mismatch::UnexpectedExit { exit_code } => {
                put(&mut out, "expected exit code 0, observed ");
                put_signed(&mut out, *exit_code);
            },
            Mismatch::UnexpectedError { code, message } => {
                match code {
                    Some(code) => {
                        put(&mut out, "expected no error, observed error[");
                        put(&mut out, code.as_str());
                        put(&mut out, "]: ");
                    },
                    None => {
                        put(&mut out, "expected no error, observed error: ");
                    },
                }
                put(&mut out, message.as_str());
            },
            Mismatch::StatusMismatch { name, expected, observed } => {
                put(&mut out, "test ");
                put(&mut out, name.as_str());
                put(&mut out, ": expected ");
                put_status(&mut out, *expected);
                put(&mut out, ", observed ");
                put_status(&mut out, *observed);
            },
            Mismatch::LoadFailed { cause } => {
                put(&mut out, "load failed: ");
                put_load_error(&mut out, cause);
            },
            Mismatch::InvocationFailed { reason } => {
                put(&mut out, "invocation failed: ");
                put(&mut out, reason.as_str());
            },
            Mismatch::TimedOut { limit_ms } => {
                put(&mut out, "timed out after ");
                put_decimal(&mut out, *limit_ms);
                put(&mut out, " ms");
            },
            Mismatch::UnparsedLines { count } => {
                put(&mut out, "note: ");
                put_decimal(&mut out, *count as u64);
                put(&mut out, " unparsed lines");
            },
        }
        assert(out@ == description_of(self@));
        text_of(out.as_slice())
    }
}

/// One record of a report: a fixture, whether it matched, and its
/// mismatches in words, in the order in which they are reported.
#[derive(Clone, Debug, PartialEq, Eq)]
pub struct Record {
    pub fixture: String,
    pub matched: bool,
    pub mismatches: Vec<String>,
}

pub struct RecordView {
    pub fixture: Seq<char>,
    pub matched: bool,
    pub mismatches: Seq<Seq<char>>,
}

impl View for Record {
    type V = RecordView;

    open spec fn view(&self) -> RecordView {
        RecordView {
            fixture: self.fixture@,
            matched: self.matched,
            mismatches: self.mismatches.deep_view(),
        }
    }
}

impl DeepView for Record {
    type V = RecordView;

    open spec fn deep_view(&self) -> RecordView {
        self@
    }
}

/// The record of a verdict.
pub open spec fn record_of(v: VerdictView) -> RecordView {
    RecordView {
        fixture: v.fixture,
        matched: v.matched,
        mismatches: v.mismatches.map_values(|m: MismatchView| description_of(m)),
    }
}

impl Verdict {
    /// The record of this verdict.
    pub fn record(&self) -> (r: Record)
        ensures
            r@ == record_of(self@),
    {
        let list = self.mismatches();
        let ghost view = list.deep_view();
        let mut words: Vec<String> = Vec::new();
        let mut i: usize = 0;
        while i < list.len()
            invariant
                i <= list.len(),
                view == list.deep_view(),
                words.len() == i,
                forall|k: int| 0 <= k < i ==> (#[trigger] words[k])@ == description_of(view[k]),
            decreases list.len() - i,
        {
            words.push(list[i].describe());
            i = i + 1;
        }
        assert(words.deep_view() =~= view.map_values(|m: MismatchView| description_of(m)));
        Record { fixture: self.fixture().clone(), matched: self.matched(), mismatches: words }
    }
}

impl Report {
    /// The records of the report, one for each fixture, in the order of the
    /// report.
    pub fn records(&self) -> (r: Vec<Record>)
        ensures
            r.deep_view() == self@.verdicts.map_values(|v: VerdictView| record_of(v)),
    {
        let list = self.verdicts();
        let ghost view = list.deep_view();
        let mut records: Vec<Record> = Vec::new();
        let mut i: usize = 0;
        while i < list.len()
            invariant
                i <= list.len(),
                view == list.deep_view(),
                records.len() == i,
                forall|k: int| 0 <= k < i ==> (#[trigger] records[k])@ == record_of(view[k]),
            decreases list.len() - i,
        {
            records.push(list[i].record());
            i = i + 1;
        }
        assert(records.deep_view() =~= view.map_values(|v: VerdictView| record_of(v)));
        records
    }
}

} // verus!
