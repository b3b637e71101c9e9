//! What holds of every judgment, proved from the rules.

use crate::evaluator::{verdict_of, VerdictView};
use crate::json::{
    closing_quote, code_unit, escape, hex_value, scalar_of, string_value, unescaped,
};
use crate::model::{
    DiagnosticView, ExpectationView, ExpectedTestView, MismatchView, ObservationView, Severity,
};
use crate::render::{escape_of, escaped, hex_char, json_string};
use crate::report::report_of;
use crate::rules::{
    carries, findings, has_error, lemma_filter_map_empty, lemma_no_finding_iff_met,
    observed_status, remarks, status_differs, test_not_run,
};
use vstd::prelude::*;

verus! {

/// A verdict is matched exactly when it lists no finding; what it lists
/// then is at most the remark on lines that were not understood.
pub proof fn lemma_matched_iff_no_finding(
    fixture: Seq<char>,
    e: ExpectationView,
    o: ObservationView,
)
    ensures
        verdict_of(fixture, e, o).matched <==> findings(e, o).len() == 0,
        verdict_of(fixture, e, o).matched ==> verdict_of(fixture, e, o).mismatches == remarks(o),
        verdict_of(fixture, e, o).matched && o.unparsed_lines == 0 ==> verdict_of(
            fixture,
            e,
            o,
        ).mismatches.len() == 0,
{
    lemma_no_finding_iff_met(e, o);
    if findings(e, o).len() == 0 {
        assert(findings(e, o) + remarks(o) == remarks(o));
    }
}

/// A fixture that expects a clean compile is matched by every snippet that
/// is clean: the tool exits with zero and reports no error.
pub proof fn lemma_clean_compile_is_matched(fixture: Seq<char>, o: ObservationView)
    requires
        o.exit_code == 0,
        !has_error(o.diagnostics),
    ensures
        verdict_of(fixture, ExpectationView::CompileOk, o).matched,
        verdict_of(fixture, ExpectationView::CompileOk, o).mismatches == remarks(o),
{
    lemma_matched_iff_no_finding(fixture, ExpectationView::CompileOk, o);
}

/// A fixture that expects a compile error, whatever its code, is matched by
/// every snippet for which the tool reports an error.
pub proof fn lemma_genuine_error_is_matched(fixture: Seq<char>, o: ObservationView)
    requires
        has_error(o.diagnostics),
    ensures
        verdict_of(fixture, ExpectationView::CompileError { code: None }, o).matched,
        verdict_of(fixture, ExpectationView::CompileError { code: None }, o).mismatches == remarks(
            o,
        ),
{
    lemma_matched_iff_no_finding(fixture, ExpectationView::CompileError { code: None }, o);
}

/// Expected warnings are matched exactly when each of them is among the
/// codes of the warnings that were emitted.
pub proof fn lemma_warnings_matched_iff_subset(
    fixture: Seq<char>,
    codes: Seq<Seq<char>>,
    o: ObservationView,
)
    ensures
        verdict_of(fixture, ExpectationView::LintWarnings { codes }, o).matched
            <==> codes.to_set().subset_of(
            Set::new(|c: Seq<char>| carries(o.diagnostics, Severity::Warning, c)),
        ),
{
    let emitted = Set::new(|c: Seq<char>| carries(o.diagnostics, Severity::Warning, c));
    if codes.to_set().subset_of(emitted) {
        assert forall|i: int| 0 <= i < codes.len() implies carries(
            o.diagnostics,
            Severity::Warning,
            #[trigger] codes[i],
        ) by {
            assert(codes.to_set().contains(codes[i]));
            assert(emitted.contains(codes[i]));
        }
    }
    if verdict_of(fixture, ExpectationView::LintWarnings { codes }, o).matched {
        assert forall|c: Seq<char>| codes.to_set().contains(c) implies emitted.contains(c) by {
            let i = choose|i: int| 0 <= i < codes.len() && codes[i] == c;
            assert(carries(o.diagnostics, Severity::Warning, codes[i]));
        }
    }
}

/// Expecting one more warning, one that was not emitted, makes the verdict
/// not matched.
pub proof fn lemma_unemitted_warning_fails(
    fixture: Seq<char>,
    codes: Seq<Seq<char>>,
    extra: Seq<char>,
    o: ObservationView,
)
    requires
        !carries(o.diagnostics, Severity::Warning, extra),
    ensures
        !verdict_of(fixture, ExpectationView::LintWarnings { codes: codes.push(extra) }, o).matched,
{
    assert(codes.push(extra)[codes.len() as int] == extra);
}

/// Expecting fewer warnings keeps a matched verdict matched.
pub proof fn lemma_fewer_warnings_stay_matched(
    fixture: Seq<char>,
    codes: Seq<Seq<char>>,
    fewer: Seq<Seq<char>>,
    o: ObservationView,
)
    requires
        verdict_of(fixture, ExpectationView::LintWarnings { codes }, o).matched,
        forall|i: int| 0 <= i < fewer.len() ==> codes.contains(#[trigger] fewer[i]),
    ensures
        verdict_of(fixture, ExpectationView::LintWarnings { codes: fewer }, o).matched,
{
    assert forall|i: int| 0 <= i < fewer.len() implies carries(
        o.diagnostics,
        Severity::Warning,
        #[trigger] fewer[i],
    ) by {
        assert(codes.contains(fewer[i]));
        let j = choose|j: int| 0 <= j < codes.len() && codes[j] == fewer[i];
        assert(carries(o.diagnostics, Severity::Warning, codes[j]));
    }
}

/// Warnings beyond the expected ones do no harm: further diagnostics keep a
/// matched verdict on expected warnings matched.
pub proof fn lemma_further_diagnostics_are_tolerated(
    fixture: Seq<char>,
    codes: Seq<Seq<char>>,
    o: ObservationView,
    further: Seq<DiagnosticView>,
)
    requires
        verdict_of(fixture, ExpectationView::LintWarnings { codes }, o).matched,
    ensures
        verdict_of(
            fixture,
            ExpectationView::LintWarnings { codes },
            ObservationView { diagnostics: o.diagnostics + further, ..o },
        ).matched,
{
    let all = o.diagnostics + further;
    assert forall|i: int| 0 <= i < codes.len() implies carries(
        all,
        Severity::Warning,
        #[trigger] codes[i],
    ) by {
        assert(carries(o.diagnostics, Severity::Warning, codes[i]));
        let k = choose|k: int|
            0 <= k < o.diagnostics.len() && (#[trigger] o.diagnostics[k]).severity
                == Severity::Warning && o.diagnostics[k].code == Some(codes[i]);
        assert(all[k] == o.diagnostics[k]);
    }
}

/// A fixture is not matched when one of its expected tests was observed to
/// end otherwise than expected, or was not observed at all. So a test that
/// is expected to pass and did not pass fails the fixture.
pub proof fn lemma_differing_test_fails(
    fixture: Seq<char>,
    tests: Seq<ExpectedTestView>,
    i: int,
    o: ObservationView,
)
    requires
        0 <= i < tests.len(),
        observed_status(o.outcomes, tests[i].name) != Some(tests[i].status),
    ensures
        !verdict_of(fixture, ExpectationView::TestResults { tests }, o).matched,
{
}

/// With no outcome observed, every expected test is reported as not run,
/// in the order of the expectation, and nothing else is found.
pub proof fn lemma_no_outcomes_means_not_run(tests: Seq<ExpectedTestView>, o: ObservationView)
    requires
        o.outcomes.len() == 0,
    ensures
        findings(ExpectationView::TestResults { tests }, o) == tests.map_values(
            |t: ExpectedTestView| MismatchView::TestNotRun { name: t.name },
        ),
    decreases tests.len(),
{
    let absent = test_not_run(o.outcomes);
    let differs = status_differs(o.outcomes);
    let named = |t: ExpectedTestView| MismatchView::TestNotRun { name: t.name };
    if tests.len() > 0 {
        let rest = tests.drop_last();
        lemma_no_outcomes_means_not_run(rest, o);
        assert(rest.filter_map(absent) + rest.filter_map(differs) == rest.map_values(named));
        lemma_filter_map_empty(rest, differs);
        assert(rest.filter_map(differs) == Seq::<MismatchView>::empty()) by {
            assert forall|k: int| 0 <= k < rest.len() implies differs(
                #[trigger] rest[k],
            ) is None by {}
        }
        assert(rest.filter_map(absent) == rest.map_values(named));
        assert(tests.filter_map(absent) == rest.filter_map(absent) + seq![named(tests.last())]);
        assert(tests.filter_map(differs) == rest.filter_map(differs));
        assert(tests.map_values(named) == rest.map_values(named).push(named(tests.last())));
    } else {
        assert(tests.filter_map(absent) + tests.filter_map(differs) == tests.map_values(named));
    }
}

/// Judging and summarizing are functions of what is judged: the same
/// fixtures, expectations and observations give the same verdicts, mismatch
/// for mismatch and in the same order, and the same report.
pub proof fn lemma_rerun_is_identical(
    fixtures: Seq<Seq<char>>,
    expectations: Seq<ExpectationView>,
    observations: Seq<ObservationView>,
    first: Seq<VerdictView>,
    second: Seq<VerdictView>,
)
    requires
        fixtures.len() == expectations.len() == observations.len(),
        first.len() == fixtures.len(),
        second.len() == fixtures.len(),
        forall|i: int|
            0 <= i < fixtures.len() ==> #[trigger] first[i] == verdict_of(
                fixtures[i],
                expectations[i],
                observations[i],
            ),
        forall|i: int|
            0 <= i < fixtures.len() ==> #[trigger] second[i] == verdict_of(
                fixtures[i],
                expectations[i],
                observations[i],
            ),
    ensures
        first == second,
        report_of(first) == report_of(second),
{
    assert(first =~= second);
}

/// The value of the character that writes a hexadecimal digit is the digit.
proof fn lemma_hex_round_trip(d: nat)
    requires
        d < 16,
    ensures
        hex_value(hex_char(d)) == Some(d),
{
}

/// A character that is neither a quotation mark nor a backslash stands for
/// itself in a string and closes nothing.
proof fn lemma_plain_char(c: char, t: Seq<char>)
    requires
        c != '"',
        c != '\\',
    ensures
        unescaped(seq![c] + t) == match unescaped(t) {
            Some(r) => Some(seq![c] + r),
            None => None,
        },
        closing_quote(seq![c] + t) == match closing_quote(t) {
            Some(k) => Some(k + 1),
            None => None,
        },
{
    assert((seq![c] + t).skip(1) == t);
}

/// A quotation mark, a backslash, a newline, a carriage return and a tab
/// read back from behind their backslash, and close nothing.
proof fn lemma_short_escape(c: char, t: Seq<char>)
    requires
        c == '"' || c == '\\' || c == '\n' || c == '\r' || c == '\t',
    ensures
        unescaped(escape_of(c) + t) == match unescaped(t) {
            Some(r) => Some(seq![c] + r),
            None => None,
        },
        closing_quote(escape_of(c) + t) == match closing_quote(t) {
            Some(k) => Some(k + escape_of(c).len()),
            None => None,
        },
{
    let all = escape_of(c) + t;
    assert(all[0] == '\\');
    assert(all.skip(1)[0] == escape_of(c)[1]);
    assert(all.skip(2) == t);
    assert(escape(all.skip(1)) == Some((c, 1int)));
}

/// The four digits that write the number of a control character give that
/// number.
proof fn lemma_control_code(c: char, u: Seq<char>)
    requires
        (c as nat) < 32,
        u.len() >= 4,
        u[0] == '0',
        u[1] == '0',
        u[2] == hex_char(c as nat / 16),
        u[3] == hex_char(c as nat % 16),
    ensures
        code_unit(u) == Some(c as nat),
{
    lemma_hex_round_trip(c as nat / 16);
    lemma_hex_round_trip(c as nat % 16);
    lemma_hex_round_trip(0);
    let a = c as nat / 16;
    let b = c as nat % 16;
    assert(((0 * 16 + 0) * 16 + a) * 16 + b == c as nat);
}

/// A control character that is written by its number reads back, and
/// what is written closes nothing.
proof fn lemma_control_escape(c: char, t: Seq<char>)
    requires
        (c as nat) < 32,
        c != '\n',
        c != '\r',
        c != '\t',
    ensures
        unescaped(escape_of(c) + t) == match unescaped(t) {
            Some(r) => Some(seq![c] + r),
            None => None,
        },
        closing_quote(escape_of(c) + t) == match closing_quote(t) {
            Some(k) => Some(k + escape_of(c).len()),
            None => None,
        },
{
    let high = hex_char(c as nat / 16);
    let low = hex_char(c as nat % 16);
    let all = escape_of(c) + t;
    let after_slash = all.skip(1);
    let after_u = all.skip(2);
    assert(all[0] == '\\');
    assert(after_slash[0] == 'u');
    assert(after_slash.skip(1) == after_u);
    assert(after_u[0] == '0' && after_u[1] == '0' && after_u[2] == high && after_u[3] == low);
    lemma_control_code(c, after_u);
    assert(scalar_of(c as nat) == Some(c));
    assert(escape(after_slash) == Some((c, 5int)));
    assert(all.skip(6) == t);
    lemma_hex_round_trip(c as nat / 16);
    lemma_hex_round_trip(c as nat % 16);
    let d3 = seq![low] + t;
    let d2 = seq![high] + d3;
    let d1 = seq!['0'] + d2;
    let d0 = seq!['0'] + d1;
    assert(after_u == d0);
    lemma_plain_char(low, t);
    lemma_plain_char(high, d3);
    lemma_plain_char('0', d2);
    lemma_plain_char('0', d1);
}

/// What is written for one character reads back as that character, and
/// closes nothing.
proof fn lemma_escape_round_trip(c: char, t: Seq<char>)
    ensures
        unescaped(escape_of(c) + t) == match unescaped(t) {
            Some(r) => Some(seq![c] + r),
            None => None,
        },
        closing_quote(escape_of(c) + t) == match closing_quote(t) {
            Some(k) => Some(k + escape_of(c).len()),
            None => None,
        },
{
    if c == '"' || c == '\\' || c == '\n' || c == '\r' || c == '\t' {
        lemma_short_escape(c, t);
    } else if (c as nat) < 32 {
        lemma_control_escape(c, t);
    } else {
        lemma_plain_char(c, t);
    }
}

/// The characters of a text can be written one after the other, from the
/// first on.
proof fn lemma_escaped_from_the_front(s: Seq<char>)
    requires
        s.len() > 0,
    ensures
        escaped(s) == escape_of(s[0]) + escaped(s.skip(1)),
    decreases s.len(),
{
    if s.len() == 1 {
        assert(s.drop_last().len() == 0);
        assert(s.skip(1).len() == 0);
        assert(escaped(s.drop_last()) == Seq::<char>::empty());
        assert(escaped(s.skip(1)) == Seq::<char>::empty());
        assert(s.last() == s[0]);
        assert(escaped(s) =~= escape_of(s[0]) + escaped(s.skip(1)));
    } else {
        let front = s.drop_last();
        lemma_escaped_from_the_front(front);
        assert(front.skip(1) == s.skip(1).drop_last());
        assert(s.skip(1).last() == s.last());
        assert(front[0] == s[0]);
        assert(escaped(s) =~= escape_of(s[0]) + escaped(s.skip(1)));
    }
}

/// What is written for a text reads back as the text, and closes nothing.
proof fn lemma_escaped_round_trip(s: Seq<char>, t: Seq<char>)
    ensures
        unescaped(escaped(s)) == Some(s),
        closing_quote(escaped(s) + t) == match closing_quote(t) {
            Some(k) => Some(k + escaped(s).len()),
            None => None,
        },
    decreases s.len(),
{
    if s.len() == 0 {
        assert(escaped(s) + t == t);
    } else {
        let rest = s.skip(1);
        lemma_escaped_from_the_front(s);
        lemma_escaped_round_trip(rest, t);
        lemma_escape_round_trip(s[0], escaped(rest));
        lemma_escape_round_trip(s[0], escaped(rest) + t);
        assert(escaped(s) + t == escape_of(s[0]) + (escaped(rest) + t));
        assert(seq![s[0]] + rest == s);
    }
}

/// A string that a report writes reads back, by the rules of the
/// machine-readable form, as the text that was written.
pub proof fn lemma_written_string_reads_back(s: Seq<char>)
    ensures
        string_value(json_string(s)) == Some(s),
{
    let written = json_string(s);
    let end = seq!['"'];
    lemma_escaped_round_trip(s, end);
    assert(closing_quote(end) == Some(0int));
    assert(written.skip(1) == escaped(s) + end);
    assert(written.subrange(1, written.len() - 1) == escaped(s));
}

} // verus!
