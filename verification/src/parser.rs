//! Reading a tool's textual output, line by line, into diagnostics and
//! test outcomes.
//!
//! A line, with the blanks at both ends removed, is one of these:
//!
//! - empty: it is passed over;
//! - a diagnostic or a test outcome in the tool's machine-readable form: a
//!   JSON object, which the module `json` reads; every line that begins
//!   with `{` is taken for one;
//! - a diagnostic in words: `error`, `warning` or `note`, then optionally a
//!   code in square brackets, then a colon and the message;
//! - a location: `-->`, then a path, a colon, a line number, a colon and a
//!   column number; it belongs to the diagnostic before it;
//! - the name of a lint: ``= note: `#[warn(``, the name and `)`, or the same
//!   with `deny`; it is the code of the warning, or of the error, before it;
//! - a test outcome: `test`, a space, the test's name, ` ... `, then `ok`,
//!   `FAILED` or `panicked`, and optionally a colon and a message;
//! - anything else: it is counted and dropped.

use crate::json::{json_diagnostic, json_test, read_json_diagnostic, read_json_test};
use crate::model::{
    Diagnostic, DiagnosticView, Location, Observation, ObservationView, RawToolOutput,
    RawToolOutputView, Severity, TestOutcome, TestOutcomeView, TestStatus,
};
use crate::scan::{
    after, final_position, find, find_word, first_position, head, is_word, last_position, line_at,
    number, position, read_number, skip_blanks, split_lines, strip_word, tail, trim, trim_start,
    trimmed,
};
use crate::text::{chars_of, text_of};
use vstd::prelude::*;
use vstd::slice::slice_subrange;

verus! {

/// What one line of output says.
pub enum LineView {
    Blank,
    Header(DiagnosticView),
    Place(Location),
    Lint(Severity, Seq<char>),
    Test(TestOutcomeView),
    Unknown,
}

/// The severity word that a line begins with, and what follows the word.
pub open spec fn severity_of(line: Seq<char>) -> Option<(Severity, Seq<char>)> {
    if let Some(rest) = after(line, "error"@) {
        Some((Severity::Error, rest))
    } else if let Some(rest) = after(line, "warning"@) {
        Some((Severity::Warning, rest))
    } else if let Some(rest) = after(line, "note"@) {
        Some((Severity::Note, rest))
    } else {
        None
    }
}

/// Whether a line has the outer shape of a diagnostic: it begins with `{`,
/// or with a severity word followed by a colon or an opening bracket.
pub open spec fn is_diagnostic_shaped(raw: Seq<char>) -> bool {
    ||| trim(raw).len() > 0 && trim(raw)[0] == '{'
    ||| severity_of(trim(raw)) matches Some((_, rest)) && rest.len() > 0 && (rest[0] == ':'
        || rest[0] == '[')
}

/// The diagnostic that a line states, given its severity and what follows
/// the severity word.
pub open spec fn header_after(severity: Severity, rest: Seq<char>) -> Option<DiagnosticView> {
    if rest.len() > 0 && rest[0] == ':' {
        Some(DiagnosticView { severity, code: None, message: trim(rest.skip(1)), location: None })
    } else if rest.len() > 0 && rest[0] == '[' {
        let inner = rest.skip(1);
        let close = position(inner, ']');
        if 0 < close && close + 1 < inner.len() && inner[close + 1] == ':' {
            Some(
                DiagnosticView {
                    severity,
                    code: Some(inner.take(close)),
                    message: trim(inner.skip(close + 2)),
                    location: None,
                },
            )
        } else {
            None
        }
    } else {
        None
    }
}

/// The diagnostic that a trimmed line states.
pub open spec fn header(line: Seq<char>) -> Option<DiagnosticView> {
    match severity_of(line) {
        Some((severity, rest)) => header_after(severity, rest),
        None => None,
    }
}

/// The location that a trimmed line states. The numbers are read from the
/// right, so the path may hold colons.
pub open spec fn place(line: Seq<char>) -> Option<Location> {
    match after(line, "-->"@) {
        Some(rest) => {
            let target = trim_start(rest);
            match last_position(target, ':') {
                Some(second) => {
                    let front = target.take(second);
                    match last_position(front, ':') {
                        Some(first) => match (
                            number(front.skip(first + 1)),
                            number(target.skip(second + 1)),
                        ) {
                            (Some(line), Some(column)) => Some(Location { line, column }),
                            _ => None,
                        },
                        None => None,
                    }
                },
                None => None,
            }
        },
        None => None,
    }
}

/// The lint that a trimmed line names, with the severity of the
/// diagnostics that the lint gives: a warning for `warn`, an error for `deny`.
pub open spec fn lint_note(line: Seq<char>) -> Option<(Severity, Seq<char>)> {
    let named = if let Some(rest) = after(line, "= note: `#[warn("@) {
        Some((Severity::Warning, rest))
    } else if let Some(rest) = after(line, "= note: `#[deny("@) {
        Some((Severity::Error, rest))
    } else {
        None
    };
    match named {
        Some((severity, rest)) => {
            let close = position(rest, ')');
            if 0 < close < rest.len() {
                Some((severity, rest.take(close)))
            } else {
                None
            }
        },
        None => None,
    }
}

/// The status that a word of a test line stands for.
pub open spec fn status_of(word: Seq<char>) -> Option<TestStatus> {
    if word == "ok"@ {
        Some(TestStatus::Passed)
    } else if word == "FAILED"@ {
        Some(TestStatus::Failed)
    } else if word == "panicked"@ {
        Some(TestStatus::Panicked)
    } else {
        None
    }
}

/// The test outcome that a trimmed line states.
pub open spec fn test_outcome(line: Seq<char>) -> Option<TestOutcomeView> {
    match after(line, "test "@) {
        Some(rest) => match find(rest, " ... "@) {
            Some(k) if 0 <= k && k + " ... "@.len() <= rest.len() => {
                let name = trim(rest.take(k));
                let end = rest.skip(k + " ... "@.len());
                let colon = position(end, ':');
                let message = if 0 <= colon < end.len() {
                    Some(trim(end.skip(colon + 1)))
                } else {
                    None
                };
                match status_of(trim(end.take(colon))) {
                    Some(status) if name.len() > 0 => Some(
                        TestOutcomeView { name, status, message },
                    ),
                    _ => None,
                }
            },
            _ => None,
        },
        None => None,
    }
}

/// What a line of output says.
pub open spec fn classify(raw: Seq<char>) -> LineView {
    let line = trim(raw);
    if line.len() == 0 {
        LineView::Blank
    } else if line[0] == '{' {
        match json_diagnostic(line) {
            Some(d) => LineView::Header(d),
            None => match json_test(line) {
                Some(t) => LineView::Test(t),
                None => LineView::Unknown,
            },
        }
    } else if let Some(d) = header(line) {
        LineView::Header(d)
    } else if let Some(l) = place(line) {
        LineView::Place(l)
    } else if let Some((severity, name)) = lint_note(line) {
        LineView::Lint(severity, name)
    } else if let Some(t) = test_outcome(line) {
        LineView::Test(t)
    } else {
        LineView::Unknown
    }
}

/// The observation after one more line. A location goes to the latest
/// diagnostic if that has none yet, and the name of a lint to the latest
/// diagnostic if that is of the lint's severity and has no code yet; one
/// with no diagnostic to go to counts as a line that was not understood.
pub open spec fn absorb(o: ObservationView, line: LineView) -> ObservationView {
    match line {
        LineView::Blank => o,
        LineView::Header(d) => ObservationView { diagnostics: o.diagnostics.push(d), ..o },
        LineView::Place(l) => if o.diagnostics.len() > 0 && o.diagnostics.last().location
            is None {
            ObservationView {
                diagnostics: o.diagnostics.drop_last().push(
                    DiagnosticView { location: Some(l), ..o.diagnostics.last() },
                ),
                ..o
            }
        } else {
            ObservationView { unparsed_lines: o.unparsed_lines + 1, ..o }
        },
        LineView::Lint(severity, name) => if o.diagnostics.len() > 0
            && o.diagnostics.last().severity == severity && o.diagnostics.last().code is None {
            ObservationView {
                diagnostics: o.diagnostics.drop_last().push(
                    DiagnosticView { code: Some(name), ..o.diagnostics.last() },
                ),
                ..o
            }
        } else {
            ObservationView { unparsed_lines: o.unparsed_lines + 1, ..o }
        },
        LineView::Test(t) => ObservationView { outcomes: o.outcomes.push(t), ..o },
        LineView::Unknown => ObservationView { unparsed_lines: o.unparsed_lines + 1, ..o },
    }
}

/// The observation that a run of lines amounts to.
pub open spec fn parse_lines(lines: Seq<Seq<char>>, exit_code: int) -> ObservationView
    decreases lines.len(),
{
    if lines.len() == 0 {
        ObservationView {
            exit_code,
            diagnostics: Seq::empty(),
            outcomes: Seq::empty(),
            unparsed_lines: 0,
        }
    } else {
        absorb(parse_lines(lines.drop_last(), exit_code), classify(lines.last()))
    }
}

/// The observation that a text amounts to.
pub open spec fn parse(text: Seq<char>, exit_code: int) -> ObservationView {
    parse_lines(split_lines(text), exit_code)
}

/// The observation that a tool's output amounts to: its two streams are
/// read as one text, the error stream first.
pub open spec fn observation_of(raw: RawToolOutputView) -> ObservationView {
    parse(raw.stderr + seq!['\n'] + raw.stdout, raw.exit_code)
}

/// How many of the lines have the outer shape of a diagnostic.
pub open spec fn diagnostic_shaped_count(lines: Seq<Seq<char>>) -> nat
    decreases lines.len(),
{
    if lines.len() == 0 {
        0
    } else {
        diagnostic_shaped_count(lines.drop_last()) + if is_diagnostic_shaped(lines.last()) {
            1nat
        } else {
            0nat
        }
    }
}

/// Nothing is made up: there are no more diagnostics than lines of a
/// diagnostic's shape, and diagnostics, test outcomes and lines that were
/// not understood together are no more than the lines.
pub proof fn lemma_parse_bounds(lines: Seq<Seq<char>>, exit_code: int)
    ensures
        parse_lines(lines, exit_code).exit_code == exit_code,
        parse_lines(lines, exit_code).diagnostics.len() <= diagnostic_shaped_count(lines),
        parse_lines(lines, exit_code).diagnostics.len() + parse_lines(
            lines,
            exit_code,
        ).outcomes.len() + parse_lines(lines, exit_code).unparsed_lines <= lines.len(),
    decreases lines.len(),
{
    if lines.len() > 0 {
        lemma_parse_bounds(lines.drop_last(), exit_code);
    }
}

/// The severity word that a line begins with, and what follows the word.
fn read_severity<'a>(line: &'a [char]) -> (r: Option<(Severity, &'a [char])>)
    ensures
        match r {
            Some((severity, rest)) => severity_of(line@) == Some((severity, rest@)),
            None => severity_of(line@) is None,
        },
{
    if let Some(rest) = strip_word(line, "error") {
        Some((Severity::Error, rest))
    } else if let Some(rest) = strip_word(line, "warning") {
        Some((Severity::Warning, rest))
    } else if let Some(rest) = strip_word(line, "note") {
        Some((Severity::Note, rest))
    } else {
        None
    }
}

/// The diagnostic that a trimmed line states.
fn read_header(line: &[char]) -> (r: Option<Diagnostic>)
    ensures
        r.deep_view() == header(line@),
{
    let (severity, rest) = match read_severity(line) {
        Some(found) => found,
        None => {
            return None;
        },
    };
    if rest.len() > 0 && rest[0] == ':' {
        let message = text_of(trimmed(tail(rest, 1)));
        return Some(Diagnostic { severity, code: None, message, location: None });
    }
    if rest.len() > 0 && rest[0] == '[' {
        let inner = tail(rest, 1);
        let close = first_position(inner, ']');
        if 0 < close && close + 1 < inner.len() && inner[close + 1] == ':' {
            let code = text_of(head(inner, close));
            let message = text_of(trimmed(tail(inner, close + 2)));
            return Some(Diagnostic { severity, code: Some(code), message, location: None });
        }
    }
    None
}

/// The location that a trimmed line states.
fn read_place(line: &[char]) -> (r: Option<Location>)
    ensures
        r == place(line@),
{
    let rest = match strip_word(line, "-->") {
        Some(rest) => rest,
        None => {
            return None;
        },
    };
    let target = skip_blanks(rest);
    let second = match final_position(target, ':') {
        Some(second) => second,
        None => {
            return None;
        },
    };
    let front = head(target, second);
    let first = match final_position(front, ':') {
        Some(first) => first,
        None => {
            return None;
        },
    };
    match (read_number(tail(front, first + 1)), read_number(tail(target, second + 1))) {
        (Some(line), Some(column)) => Some(Location { line, column }),
        _ => None,
    }
}

/// The lint that a trimmed line names, with the severity of its diagnostics.
fn read_lint(line: &[char]) -> (r: Option<(Severity, String)>)
    ensures
        match r {
            Some((severity, name)) => lint_note(line@) == Some((severity, name@)),
            None => lint_note(line@) is None,
        },
{
    let (severity, rest) = if let Some(rest) = strip_word(line, "= note: `#[warn(") {
        (Severity::Warning, rest)
    } else if let Some(rest) = strip_word(line, "= note: `#[deny(") {
        (Severity::Error, rest)
    } else {
        return None;
    };
    let close = first_position(rest, ')');
    if 0 < close && close < rest.len() {
        Some((severity, text_of(head(rest, close))))
    } else {
        None
    }
}

/// The status that a word of a test line stands for.
fn read_status(word: &[char]) -> (r: Option<TestStatus>)
    ensures
        r == status_of(word@),
{
    if is_word(word, "ok") {
        Some(TestStatus::Passed)
    } else if is_word(word, "FAILED") {
        Some(TestStatus::Failed)
    } else if is_word(word, "panicked") {
        Some(TestStatus::Panicked)
    } else {
        None
    }
}

/// The test outcome that a trimmed line states.
fn read_test(line: &[char]) -> (r: Option<TestOutcome>)
    ensures
        r.deep_view() == test_outcome(line@),
{
    let rest = match strip_word(line, "test ") {
        Some(rest) => rest,
        None => {
            return None;
        },
    };
    let k = match find_word(rest, " ... ") {
        Some(k) => k,
        None => {
            return None;
        },
    };
    let separator = chars_of(" ... ");
    let name = trimmed(head(rest, k));
    let end = tail(rest, k + separator.len());
    let colon = first_position(end, ':');
    let status = match read_status(trimmed(head(end, colon))) {
        Some(status) => status,
        None => {
            return None;
        },
    };
    if name.len() == 0 {
        return None;
    }
    let message = if colon < end.len() {
        Some(text_of(trimmed(tail(end, colon + 1))))
    } else {
        None
    };
    Some(TestOutcome { name: text_of(name), status, message })
}

/// Takes one more line into the observation.
fn absorb_line(o: &mut Observation, raw: &[char], Ghost(seen): Ghost<nat>)
    requires
        old(o).unparsed_lines <= seen < usize::MAX,
    ensures
        final(o)@ == absorb(old(o)@, classify(raw@)),
        final(o).unparsed_lines <= seen + 1,
{
    let line = trimmed(raw);
    if line.len() == 0 {
        return ;
    }
    if line[0] == '{' {
        match read_json_diagnostic(line) {
            Some(d) => {
                let ghost before = o.diagnostics.deep_view();
                o.diagnostics.push(d);
                assert(o.diagnostics.deep_view() == before.push(d@));
            },
            None => match read_json_test(line) {
                Some(t) => {
                    let ghost before = o.outcomes.deep_view();
                    o.outcomes.push(t);
                    assert(o.outcomes.deep_view() == before.push(t@));
                },
                None => {
                    o.unparsed_lines = o.unparsed_lines + 1;
                },
            },
        }
        return ;
    }
    if let Some(d) = read_header(line) {
        let ghost before = o.diagnostics.deep_view();
        o.diagnostics.push(d);
        assert(o.diagnostics.deep_view() == before.push(d@));
        return ;
    }
    if let Some(l) = read_place(line) {
        let ghost before = o.diagnostics.deep_view();
        match o.diagnostics.pop() {
            Some(latest) => {
                assert(latest@ == before.last());
                assert(o.diagnostics.deep_view() == before.drop_last());
                if latest.location.is_none() {
                    let located = Diagnostic {
                        severity: latest.severity,
                        code: latest.code,
                        message: latest.message,
                        location: Some(l),
                    };
                    o.diagnostics.push(located);
                    assert(o.diagnostics.deep_view() == before.drop_last().push(located@));
                } else {
                    o.diagnostics.push(latest);
                    assert(o.diagnostics.deep_view() == before);
                    o.unparsed_lines = o.unparsed_lines + 1;
                }
            },
            None => {
                assert(o.diagnostics.deep_view() == before);
                o.unparsed_lines = o.unparsed_lines + 1;
            },
        }
        return ;
    }
    if let Some((severity, name)) = read_lint(line) {
        let ghost before = o.diagnostics.deep_view();
        match o.diagnostics.pop() {
            Some(latest) => {
                assert(latest@ == before.last());
                assert(o.diagnostics.deep_view() == before.drop_last());
                if latest.severity == severity && latest.code.is_none() {
                    let named = Diagnostic {
                        severity: latest.severity,
                        code: Some(name),
                        message: latest.message,
                        location: latest.location,
                    };
                    o.diagnostics.push(named);
                    assert(o.diagnostics.deep_view() == before.drop_last().push(named@));
                } else {
                    o.diagnostics.push(latest);
                    assert(o.diagnostics.deep_view() == before);
                    o.unparsed_lines = o.unparsed_lines + 1;
                }
            },
            None => {
                assert(o.diagnostics.deep_view() == before);
                o.unparsed_lines = o.unparsed_lines + 1;
            },
        }
        return ;
    }
    if let Some(t) = read_test(line) {
        let ghost before = o.outcomes.deep_view();
        o.outcomes.push(t);
        assert(o.outcomes.deep_view() == before.push(t@));
        return ;
    }
    o.unparsed_lines = o.unparsed_lines + 1;
}

/// Reads a text of tool output into an observation.
fn parse_chars(text: &[char], exit_code: i32) -> (o: Observation)
    ensures
        o@ == parse(text@, exit_code as int),
{
    let mut o = Observation {
        exit_code,
        diagnostics: Vec::new(),
        outcomes: Vec::new(),
        unparsed_lines: 0,
    };
    let ghost mut done: Seq<Seq<char>> = Seq::empty();
    let mut start: usize = 0;
    assert(text@.skip(0) == text@);
    assert(o.diagnostics.deep_view() == Seq::<DiagnosticView>::empty());
    assert(o.outcomes.deep_view() == Seq::<TestOutcomeView>::empty());
    while start < text.len()
        invariant
            start <= text.len(),
            done.len() <= start,
            o.unparsed_lines <= done.len(),
            split_lines(text@) == done + split_lines(text@.skip(start as int)),
            o@ == parse_lines(done, exit_code as int),
        decreases text.len() - start,
    {
        let (end, next) = line_at(text, start);
        let ghost line = text@.subrange(start as int, end as int);
        proof {
            assert(done.push(line).drop_last() == done);
            assert(done + (seq![line] + split_lines(text@.skip(next as int))) == done.push(line)
                + split_lines(text@.skip(next as int)));
        }
        absorb_line(&mut o, slice_subrange(text, start, end), Ghost(done.len()));
        proof {
            done = done.push(line);
        }
        start = next;
    }
    assert(split_lines(text@.skip(start as int)) == Seq::<Seq<char>>::empty());
    assert(done + Seq::<Seq<char>>::empty() == done);
    o
}

/// Reads a text of tool output into an observation with the given exit
/// code. See the module's description for what each line may be.
///
/// Nothing is made up: the observation holds no more diagnostics than the
/// text has lines of a diagnostic's shape.
pub fn parse_text(text: &str, exit_code: i32) -> (o: Observation)
    ensures
        o@ == parse(text@, exit_code as int),
        o.diagnostics.len() <= diagnostic_shaped_count(split_lines(text@)),
        o.diagnostics.len() + o.outcomes.len() + o.unparsed_lines <= split_lines(text@).len(),
{
    let chars = chars_of(text);
    proof {
        lemma_parse_bounds(split_lines(text@), exit_code as int);
    }
    parse_chars(chars.as_slice(), exit_code)
}

/// Reads what a run of the tool left behind into an observation: the error
/// stream first, then the output stream, as one text.
pub fn observe(raw: &RawToolOutput) -> (o: Observation)
    ensures
        o@ == observation_of(raw@),
        o.diagnostics.len() <= diagnostic_shaped_count(
            split_lines(raw@.stderr + seq!['\n'] + raw@.stdout),
        ),
{
    proof {
        lemma_parse_bounds(
            split_lines(raw@.stderr + seq!['\n'] + raw@.stdout),
            raw.exit_code as int,
        );
    }
    let mut chars = chars_of(raw.stderr.as_str());
    chars.push('\n');
    let mut out = chars_of(raw.stdout.as_str());
    chars.append(&mut out);
    assert(chars@ == raw@.stderr + seq!['\n'] + raw@.stdout);
    parse_chars(chars.as_slice(), raw.exit_code)
}

} // verus!
