//! Reading a fixture's manifest: the text that declares what the fixture
//! expects.
//!
//! A manifest is read line by line. A line that is empty, or whose first
//! character other than a blank is `#`, says nothing. Every other line is an
//! entry, `key = value`; blanks around the key and around the value do not
//! count. The first entry is `expectation_kind`, with one of the values
//! `compile_ok`, `compile_error`, `lint_warnings` and `test_results`.
//!
//! Under every kind one entry `source` may follow: the path of the source
//! file. Besides that:
//!
//! - `compile_ok` takes nothing;
//! - `compile_error` takes at most one entry `code`, the code that an error
//!   has to carry;
//! - `lint_warnings` takes entries `code`, one for each expected warning;
//! - `test_results` takes entries whose key is `test`, a space and the name
//!   of a test, and whose value is `passed`, `failed` or `panicked`.
//!
//! The first line that breaks these rules decides the error.

use crate::model::{
    Expectation, ExpectationView, ExpectedTest, ExpectedTestView, ManifestError, TestStatus,
};
use crate::scan::{
    after, first_position, head, is_word, line_at, position, split_lines, strip_word, tail, trim,
    trimmed,
};
use crate::text::{chars_of, text_of};
use vstd::prelude::*;
use vstd::slice::slice_subrange;

verus! {

/// What a manifest declares.
#[derive(Clone, Debug, PartialEq, Eq)]
pub struct Manifest {
    pub expectation: Expectation,
    /// The path of the source file, where the manifest names one.
    pub source: Option<String>,
}

pub struct ManifestView {
    pub expectation: ExpectationView,
    pub source: Option<Seq<char>>,
}

impl View for Manifest {
    type V = ManifestView;

    open spec fn view(&self) -> ManifestView {
        ManifestView { expectation: self.expectation@, source: self.source.deep_view() }
    }
}

/// The four kinds of expectation.
#[derive(Clone, Copy, Debug, PartialEq, Eq, Structural)]
pub enum Kind {
    CompileOk,
    CompileError,
    LintWarnings,
    TestResults,
}

/// What one line of a manifest says.
pub enum EntryView {
    Nothing,
    Kind(Kind),
    Source(Seq<char>),
    Code(Seq<char>),
    Test(ExpectedTestView),
}

/// The kind that a value of `expectation_kind` names.
pub open spec fn kind_of(value: Seq<char>) -> Option<Kind> {
    if value == "compile_ok"@ {
        Some(Kind::CompileOk)
    } else if value == "compile_error"@ {
        Some(Kind::CompileError)
    } else if value == "lint_warnings"@ {
        Some(Kind::LintWarnings)
    } else if value == "test_results"@ {
        Some(Kind::TestResults)
    } else {
        None
    }
}

/// The status that the value of a test entry names.
pub open spec fn expected_status_of(value: Seq<char>) -> Option<TestStatus> {
    if value == "passed"@ {
        Some(TestStatus::Passed)
    } else if value == "failed"@ {
        Some(TestStatus::Failed)
    } else if value == "panicked"@ {
        Some(TestStatus::Panicked)
    } else {
        None
    }
}

/// What the line with the given number says, taken by itself.
pub open spec fn entry_of(raw: Seq<char>, line: usize) -> Result<EntryView, ManifestError> {
    let text = trim(raw);
    if text.len() == 0 || text[0] == '#' {
        Ok(EntryView::Nothing)
    } else {
        let equals = position(text, '=');
        if !(0 <= equals < text.len()) {
            Err(ManifestError::Malformed { line })
        } else {
            let key = trim(text.take(equals));
            let value = trim(text.skip(equals + 1));
            if key == "expectation_kind"@ {
                match kind_of(value) {
                    Some(kind) => Ok(EntryView::Kind(kind)),
                    None => Err(ManifestError::UnknownKind { line }),
                }
            } else if key == "source"@ {
                if value.len() > 0 {
                    Ok(EntryView::Source(value))
                } else {
                    Err(ManifestError::Malformed { line })
                }
            } else if key == "code"@ {
                if value.len() > 0 {
                    Ok(EntryView::Code(value))
                } else {
                    Err(ManifestError::Malformed { line })
                }
            } else if let Some(rest) = after(key, "test "@) {
                let name = trim(rest);
                if name.len() == 0 {
                    Err(ManifestError::Malformed { line })
                } else {
                    match expected_status_of(value) {
                        Some(status) => Ok(EntryView::Test(ExpectedTestView { name, status })),
                        None => Err(ManifestError::UnknownStatus { line }),
                    }
                }
            } else {
                Err(ManifestError::UnexpectedEntry { line })
            }
        }
    }
}

/// What has been read of a manifest so far.
pub struct ProgressView {
    pub kind: Option<Kind>,
    pub source: Option<Seq<char>>,
    pub code: Option<Seq<char>>,
    pub codes: Seq<Seq<char>>,
    pub tests: Seq<ExpectedTestView>,
}

/// Whether a test of the given name is among `tests`.
pub open spec fn names_test(tests: Seq<ExpectedTestView>, name: Seq<char>) -> bool {
    exists|i: int| 0 <= i < tests.len() && (#[trigger] tests[i]).name == name
}

/// What has been read after one more entry, given the number of its line.
pub open spec fn step(p: ProgressView, entry: EntryView, line: usize) -> Result<
    ProgressView,
    ManifestError,
> {
    match entry {
        EntryView::Nothing => Ok(p),
        EntryView::Kind(kind) => if p.kind is None {
            Ok(ProgressView { kind: Some(kind), ..p })
        } else {
            Err(ManifestError::UnexpectedEntry { line })
        },
        EntryView::Source(path) => if p.kind is Some && p.source is None {
            Ok(ProgressView { source: Some(path), ..p })
        } else {
            Err(ManifestError::UnexpectedEntry { line })
        },
        EntryView::Code(code) => match p.kind {
            Some(Kind::CompileError) => if p.code is None {
                Ok(ProgressView { code: Some(code), ..p })
            } else {
                Err(ManifestError::UnexpectedEntry { line })
            },
            Some(Kind::LintWarnings) => if p.codes.contains(code) {
                Err(ManifestError::Duplicate { line })
            } else {
                Ok(ProgressView { codes: p.codes.push(code), ..p })
            },
            _ => Err(ManifestError::UnexpectedEntry { line }),
        },
        EntryView::Test(test) => match p.kind {
            Some(Kind::TestResults) => if names_test(p.tests, test.name) {
                Err(ManifestError::Duplicate { line })
            } else {
                Ok(ProgressView { tests: p.tests.push(test), ..p })
            },
            _ => Err(ManifestError::UnexpectedEntry { line }),
        },
    }
}

/// What the given lines amount to, or the error of the first line that
/// breaks the rules.
pub open spec fn read_lines(lines: Seq<Seq<char>>) -> Result<ProgressView, ManifestError>
    decreases lines.len(),
{
    if lines.len() == 0 {
        Ok(
            ProgressView {
                kind: None,
                source: None,
                code: None,
                codes: Seq::empty(),
                tests: Seq::empty(),
            },
        )
    } else {
        match read_lines(lines.drop_last()) {
            Ok(p) => match entry_of(lines.last(), lines.len() as usize) {
                Ok(entry) => step(p, entry, lines.len() as usize),
                Err(e) => Err(e),
            },
            Err(e) => Err(e),
        }
    }
}

/// The expectation that was read, once the manifest has been read through.
pub open spec fn expectation_of(p: ProgressView) -> Option<ExpectationView> {
    match p.kind {
        None => None,
        Some(Kind::CompileOk) => Some(ExpectationView::CompileOk),
        Some(Kind::CompileError) => Some(ExpectationView::CompileError { code: p.code }),
        Some(Kind::LintWarnings) => Some(ExpectationView::LintWarnings { codes: p.codes }),
        Some(Kind::TestResults) => Some(ExpectationView::TestResults { tests: p.tests }),
    }
}

/// What a manifest declares, or why the manifest is refused.
pub open spec fn manifest_of(text: Seq<char>) -> Result<ManifestView, ManifestError> {
    match read_lines(split_lines(text)) {
        Ok(p) => match expectation_of(p) {
            Some(expectation) => Ok(ManifestView { expectation, source: p.source }),
            None => Err(ManifestError::MissingKind),
        },
        Err(e) => Err(e),
    }
}

/// Once a line has been refused, the lines after it change nothing.
pub proof fn lemma_error_stays(lines: Seq<Seq<char>>, more: Seq<Seq<char>>)
    requires
        read_lines(lines) is Err,
    ensures
        read_lines(lines + more) == read_lines(lines),
    decreases more.len(),
{
    if more.len() == 0 {
        assert(lines + more == lines);
    } else {
        lemma_error_stays(lines, more.drop_last());
        assert((lines + more).drop_last() == lines + more.drop_last());
    }
}

/// What has been read lists no code and no test twice.
pub proof fn lemma_read_lines_distinct(lines: Seq<Seq<char>>)
    ensures
        read_lines(lines) matches Ok(p) ==> p.codes.no_duplicates() && forall|i: int, j: int|
            0 <= i < j < p.tests.len() ==> p.tests[i].name != p.tests[j].name,
    decreases lines.len(),
{
    if lines.len() > 0 {
        lemma_read_lines_distinct(lines.drop_last());
        if let Ok(before) = read_lines(lines.drop_last()) {
            if let Ok(p) = read_lines(lines) {
                assert forall|i: int, j: int| 0 <= i < j < p.tests.len() implies p.tests[i].name
                    != p.tests[j].name by {
                    if p.tests.len() > before.tests.len() && j == before.tests.len() {
                        assert(before.tests[i].name != p.tests[j].name);
                    }
                }
            }
        }
    }
}

/// A manifest that is accepted declares a well-formed expectation.
pub proof fn lemma_manifest_well_formed(text: Seq<char>)
    ensures
        manifest_of(text) matches Ok(m) ==> m.expectation.well_formed(),
{
    lemma_read_lines_distinct(split_lines(text));
}

/// What one line of a manifest says.
enum Entry {
    Nothing,
    Kind(Kind),
    Source(String),
    Code(String),
    Test(ExpectedTest),
}

impl View for Entry {
    type V = EntryView;

    closed spec fn view(&self) -> EntryView {
        match self {
            Entry::Nothing => EntryView::Nothing,
            Entry::Kind(kind) => EntryView::Kind(*kind),
            Entry::Source(path) => EntryView::Source(path@),
            Entry::Code(code) => EntryView::Code(code@),
            Entry::Test(test) => EntryView::Test(test@),
        }
    }
}

/// What has been read of a manifest so far.
struct Progress {
    kind: Option<Kind>,
    source: Option<String>,
    code: Option<String>,
    codes: Vec<String>,
    tests: Vec<ExpectedTest>,
}

impl View for Progress {
    type V = ProgressView;

    closed spec fn view(&self) -> ProgressView {
        ProgressView {
            kind: self.kind,
            source: self.source.deep_view(),
            code: self.code.deep_view(),
            codes: self.codes.deep_view(),
            tests: self.tests.deep_view(),
        }
    }
}

/// The kind that a value of `expectation_kind` names.
fn read_kind(value: &[char]) -> (r: Option<Kind>)
    ensures
        r == kind_of(value@),
{
    if is_word(value, "compile_ok") {
        Some(Kind::CompileOk)
    } else if is_word(value, "compile_error") {
        Some(Kind::CompileError)
    } else if is_word(value, "lint_warnings") {
        Some(Kind::LintWarnings)
    } else if is_word(value, "test_results") {
        Some(Kind::TestResults)
    } else {
        None
    }
}

/// The status that the value of a test entry names.
fn read_expected_status(value: &[char]) -> (r: Option<TestStatus>)
    ensures
        r == expected_status_of(value@),
{
    if is_word(value, "passed") {
        Some(TestStatus::Passed)
    } else if is_word(value, "failed") {
        Some(TestStatus::Failed)
    } else if is_word(value, "panicked") {
        Some(TestStatus::Panicked)
    } else {
        None
    }
}

/// What the line with the given number says, taken by itself.
fn read_entry(raw: &[char], line: usize) -> (r: Result<Entry, ManifestError>)
    ensures
        match r {
            Ok(entry) => entry_of(raw@, line) == Ok::<EntryView, ManifestError>(entry@),
            Err(e) => entry_of(raw@, line) == Err::<EntryView, ManifestError>(e),
        },
{
    let text = trimmed(raw);
    if text.len() == 0 || text[0] == '#' {
        return Ok(Entry::Nothing);
    }
    let equals = first_position(text, '=');
    if equals >= text.len() {
        return Err(ManifestError::Malformed { line });
    }
    let key = trimmed(head(text, equals));
    let value = trimmed(tail(text, equals + 1));
    if is_word(key, "expectation_kind") {
        return match read_kind(value) {
            Some(kind) => Ok(Entry::Kind(kind)),
            None => Err(ManifestError::UnknownKind { line }),
        };
    }
    if is_word(key, "source") {
        return if value.len() > 0 {
            Ok(Entry::Source(text_of(value)))
        } else {
            Err(ManifestError::Malformed { line })
        };
    }
    if is_word(key, "code") {
        return if value.len() > 0 {
            Ok(Entry::Code(text_of(value)))
        } else {
            Err(ManifestError::Malformed { line })
        };
    }
    match strip_word(key, "test ") {
        Some(rest) => {
            let name = trimmed(rest);
            if name.len() == 0 {
                return Err(ManifestError::Malformed { line });
            }
            match read_expected_status(value) {
                Some(status) => Ok(Entry::Test(ExpectedTest { name: text_of(name), status })),
                None => Err(ManifestError::UnknownStatus { line }),
            }
        },
        None => Err(ManifestError::UnexpectedEntry { line }),
    }
}

/// Whether `code` is among `codes`.
fn lists_code(codes: &Vec<String>, code: &String) -> (r: bool)
    ensures
        r == codes.deep_view().contains(code@),
{
    let ghost view = codes.deep_view();
    let mut i: usize = 0;
    while i < codes.len()
        invariant
            i <= codes.len(),
            view == codes.deep_view(),
            forall|k: int| 0 <= k < i ==> view[k] != code@,
        decreases codes.len() - i,
    {
        if codes[i] == *code {
            assert(view[i as int] == code@);
            return true;
        }
        i = i + 1;
    }
    false
}

/// Whether a test of the given name is among `tests`.
fn lists_test(tests: &Vec<ExpectedTest>, name: &String) -> (r: bool)
    ensures
        r == names_test(tests.deep_view(), name@),
{
    let ghost view = tests.deep_view();
    let mut i: usize = 0;
    while i < tests.len()
        invariant
            i <= tests.len(),
            view == tests.deep_view(),
            forall|k: int| 0 <= k < i ==> (#[trigger] view[k]).name != name@,
        decreases tests.len() - i,
    {
        if tests[i].name == *name {
            assert(view[i as int].name == name@);
            return true;
        }
        i = i + 1;
    }
    false
}

/// Takes one more entry into what has been read.
fn apply(p: Progress, entry: Entry, line: usize) -> (r: Result<Progress, ManifestError>)
    ensures
        match r {
            Ok(next) => step(p@, entry@, line) == Ok::<ProgressView, ManifestError>(next@),
            Err(e) => step(p@, entry@, line) == Err::<ProgressView, ManifestError>(e),
        },
{
    let mut p = p;
    match entry {
        Entry::Nothing => Ok(p),
        Entry::Kind(kind) => {
            if p.kind.is_none() {
                p.kind = Some(kind);
                Ok(p)
            } else {
                Err(ManifestError::UnexpectedEntry { line })
            }
        },
        Entry::Source(path) => {
            if p.kind.is_some() && p.source.is_none() {
                p.source = Some(path);
                Ok(p)
            } else {
                Err(ManifestError::UnexpectedEntry { line })
            }
        },
        Entry::Code(code) => match p.kind {
            Some(Kind::CompileError) => {
                if p.code.is_none() {
                    p.code = Some(code);
                    Ok(p)
                } else {
                    Err(ManifestError::UnexpectedEntry { line })
                }
            },
            Some(Kind::LintWarnings) => {
                if lists_code(&p.codes, &code) {
                    Err(ManifestError::Duplicate { line })
                } else {
                    let ghost before = p.codes.deep_view();
                    p.codes.push(code);
                    assert(p.codes.deep_view() == before.push(code@));
                    Ok(p)
                }
            },
            _ => Err(ManifestError::UnexpectedEntry { line }),
        },
        Entry::Test(test) => match p.kind {
            Some(Kind::TestResults) => {
                if lists_test(&p.tests, &test.name) {
                    Err(ManifestError::Duplicate { line })
                } else {
                    let ghost before = p.tests.deep_view();
                    p.tests.push(test);
                    assert(p.tests.deep_view() == before.push(test@));
                    Ok(p)
                }
            },
            _ => Err(ManifestError::UnexpectedEntry { line }),
        },
    }
}

/// What was read, once the manifest has been read through.
fn finish(p: Progress) -> (r: Option<Manifest>)
    ensures
        match r {
            Some(m) => expectation_of(p@) == Some(m@.expectation) && m@.source == p@.source,
            None => expectation_of(p@) is None,
        },
{
    let expectation = match p.kind {
        None => {
            return None;
        },
        Some(Kind::CompileOk) => Expectation::CompileOk,
        Some(Kind::CompileError) => Expectation::CompileError { code: p.code },
        Some(Kind::LintWarnings) => Expectation::LintWarnings { codes: p.codes },
        Some(Kind::TestResults) => Expectation::TestResults { tests: p.tests },
    };
    Some(Manifest { expectation, source: p.source })
}

/// Reads a manifest. The module's description says what a manifest is.
///
/// An expectation that is returned is well formed: it lists no code and no
/// test twice.
pub fn parse_manifest(manifest: &str) -> (r: Result<Manifest, ManifestError>)
    ensures
        match r {
            Ok(m) => manifest_of(manifest@) == Ok::<ManifestView, ManifestError>(m@)
                && m@.expectation.well_formed(),
            Err(e) => manifest_of(manifest@) == Err::<ManifestView, ManifestError>(e),
        },
{
    let chars = chars_of(manifest);
    let text = chars.as_slice();
    let mut p = Progress {
        kind: None,
        source: None,
        code: None,
        codes: Vec::new(),
        tests: Vec::new(),
    };
    let ghost mut done: Seq<Seq<char>> = Seq::empty();
    let mut start: usize = 0;
    let mut count: usize = 0;
    assert(text@.skip(0) == text@);
    assert(p.codes.deep_view() == Seq::<Seq<char>>::empty());
    assert(p.tests.deep_view() == Seq::<ExpectedTestView>::empty());
    while start < text.len()
        invariant
            text@ == manifest@,
            start <= text.len(),
            count == done.len() <= start,
            split_lines(text@) == done + split_lines(text@.skip(start as int)),
            read_lines(done) == Ok::<ProgressView, ManifestError>(p@),
        decreases text.len() - start,
    {
        let (end, next) = line_at(text, start);
        let ghost line = text@.subrange(start as int, end as int);
        let ghost rest = split_lines(text@.skip(next as int));
        proof {
            assert(done.push(line).drop_last() == done);
            assert(done + (seq![line] + rest) == done.push(line) + rest);
        }
        count = count + 1;
        let entry = match read_entry(slice_subrange(text, start, end), count) {
            Ok(entry) => entry,
            Err(e) => {
                proof {
                    lemma_error_stays(done.push(line), rest);
                }
                return Err(e);
            },
        };
        p = match apply(p, entry, count) {
            Ok(next_p) => next_p,
            Err(e) => {
                proof {
                    lemma_error_stays(done.push(line), rest);
                }
                return Err(e);
            },
        };
        proof {
            done = done.push(line);
        }
        start = next;
    }
    proof {
        assert(split_lines(text@.skip(start as int)) == Seq::<Seq<char>>::empty());
        assert(done + Seq::<Seq<char>>::empty() == done);
        lemma_manifest_well_formed(manifest@);
    }
    match finish(p) {
        Some(m) => Ok(m),
        None => Err(ManifestError::MissingKind),
    }
}

/// Whether no code is listed twice.
fn distinct_codes(codes: &Vec<String>) -> (r: bool)
    ensures
        r == codes.deep_view().no_duplicates(),
{
    let ghost view = codes.deep_view();
    let mut j: usize = 0;
    while j < codes.len()
        invariant
            j <= codes.len(),
            view == codes.deep_view(),
            forall|a: int, b: int| 0 <= a < b < j ==> view[a] != view[b],
        decreases codes.len() - j,
    {
        if lists_code_before(codes, j) {
            return false;
        }
        j = j + 1;
    }
    true
}

/// Whether the code at place `j` also stands at an earlier place.
fn lists_code_before(codes: &Vec<String>, j: usize) -> (r: bool)
    requires
        j < codes.len(),
    ensures
        r == exists|a: int| 0 <= a < j && codes.deep_view()[a] == codes.deep_view()[j as int],
{
    let ghost view = codes.deep_view();
    let mut i: usize = 0;
    while i < j
        invariant
            i <= j < codes.len(),
            view == codes.deep_view(),
            forall|a: int| 0 <= a < i ==> view[a] != view[j as int],
        decreases j - i,
    {
        if codes[i] == codes[j] {
            assert(view[i as int] == view[j as int]);
            return true;
        }
        i = i + 1;
    }
    false
}

/// Whether no test is listed twice.
fn distinct_tests(tests: &Vec<ExpectedTest>) -> (r: bool)
    ensures
        r == (ExpectationView::TestResults { tests: tests.deep_view() }).well_formed(),
{
    let ghost view = tests.deep_view();
    let mut j: usize = 0;
    while j < tests.len()
        invariant
            j <= tests.len(),
            view == tests.deep_view(),
            forall|a: int, b: int| 0 <= a < b < j ==> view[a].name != view[b].name,
        decreases tests.len() - j,
    {
        if lists_test_before(tests, j) {
            return false;
        }
        j = j + 1;
    }
    true
}

/// Whether the test at place `j` also stands at an earlier place.
fn lists_test_before(tests: &Vec<ExpectedTest>, j: usize) -> (r: bool)
    requires
        j < tests.len(),
    ensures
        r == exists|a: int|
            0 <= a < j && tests.deep_view()[a].name == tests.deep_view()[j as int].name,
{
    let ghost view = tests.deep_view();
    let mut i: usize = 0;
    while i < j
        invariant
            i <= j < tests.len(),
            view == tests.deep_view(),
            forall|a: int| 0 <= a < i ==> view[a].name != view[j as int].name,
        decreases j - i,
    {
        if tests[i].name == tests[j].name {
            assert(view[i as int].name == view[j as int].name);
            return true;
        }
        i = i + 1;
    }
    false
}

impl Expectation {
    /// Whether the expectation lists no code and no test twice.
    pub fn is_well_formed(&self) -> (r: bool)
        ensures
            r == self@.well_formed(),
    {
        match self {
            Expectation::LintWarnings { codes } => distinct_codes(codes),
            Expectation::TestResults { tests } => distinct_tests(tests),
            _ => true,
        }
    }
}

} // verus!
