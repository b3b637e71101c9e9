//! Reading a line of a tool's machine-readable output: one JSON object
//! that states one diagnostic or the outcome of one test.
//!
//! Of an object that states a diagnostic these members are read: `level`,
//! a string, one of `error`, `warning` and `note`; `message`, a string;
//! `code`, an object whose member `code` is a string, or anything else where
//! there is no code; `spans`, an array of objects, of which the first whose
//! member `is_primary` is `true` gives the location by its members
//! `line_start` and `column_start`. Every other member is passed over.
//!
//! An object states the outcome of a test where its member `type` is the
//! string `test` and its member `event` the string `ok` or `failed`; its
//! member `name`, a string, names the test, and its member `stdout`, where
//! it is a string, is the message.
//!
//! The object is taken at its word: values are told apart by their first
//! character and brackets are counted, not matched by their kind.

use crate::model::{
    Diagnostic, DiagnosticView, Location, Severity, TestOutcome, TestOutcomeView, TestStatus,
};
use crate::scan::{head, is_word, number, read_number, skip_blanks, tail, trim_start};
use crate::text::{chars_of, text_of};
use vstd::prelude::*;
use vstd::slice::slice_subrange;

verus! {

/// The place of the quotation mark that closes a string, where `s` is what
/// follows the opening one. A character behind a backslash closes nothing.
pub open spec fn closing_quote(s: Seq<char>) -> Option<int>
    decreases s.len(),
{
    if s.len() == 0 {
        None
    } else if s[0] == '"' {
        Some(0)
    } else if s[0] == '\\' {
        if s.len() < 2 {
            None
        } else {
            match closing_quote(s.skip(2)) {
                Some(k) => Some(k + 2),
                None => None,
            }
        }
    } else {
        match closing_quote(s.skip(1)) {
            Some(k) => Some(k + 1),
            None => None,
        }
    }
}

/// The value of a hexadecimal digit.
pub open spec fn hex_value(c: char) -> Option<nat> {
    if '0' <= c <= '9' {
        Some((c as nat - '0' as nat) as nat)
    } else if 'a' <= c <= 'f' {
        Some((c as nat - 'a' as nat + 10) as nat)
    } else if 'A' <= c <= 'F' {
        Some((c as nat - 'A' as nat + 10) as nat)
    } else {
        None
    }
}

/// The number that the first four characters of `s` write in base sixteen.
pub open spec fn code_unit(s: Seq<char>) -> Option<nat> {
    if s.len() < 4 {
        None
    } else {
        match (hex_value(s[0]), hex_value(s[1]), hex_value(s[2]), hex_value(s[3])) {
            (Some(a), Some(b), Some(c), Some(d)) => Some(((a * 16 + b) * 16 + c) * 16 + d),
            _ => None,
        }
    }
}

/// The character with the given number, where there is one: the numbers
/// from 0xD800 to 0xDFFF and those above 0x10FFFF stand for none.
pub open spec fn scalar_of(code: nat) -> Option<char> {
    if code < 0xD800 || 0xE000 <= code <= 0x10FFFF {
        Some(code as char)
    } else {
        None
    }
}

/// The character that an escape stands for, and how many characters the
/// escape takes, where `s` is what follows the backslash. A number from
/// 0xD800 to 0xDBFF counts with the escape after it, which gives a number
/// from 0xDC00 to 0xDFFF, as one character beyond 0xFFFF.
pub open spec fn escape(s: Seq<char>) -> Option<(char, int)> {
    if s.len() == 0 {
        None
    } else if s[0] == '"' || s[0] == '\\' || s[0] == '/' {
        Some((s[0], 1))
    } else if s[0] == 'n' {
        Some(('\n', 1))
    } else if s[0] == 'r' {
        Some(('\r', 1))
    } else if s[0] == 't' {
        Some(('\t', 1))
    } else if s[0] == 'b' {
        Some(('\u{8}', 1))
    } else if s[0] == 'f' {
        Some(('\u{c}', 1))
    } else if s[0] == 'u' {
        match code_unit(s.skip(1)) {
            Some(first) => if 0xD800 <= first < 0xDC00 {
                if s.len() >= 7 && s[5] == '\\' && s[6] == 'u' {
                    match code_unit(s.skip(7)) {
                        Some(second) => if 0xDC00 <= second < 0xE000 {
                            Some(
                                (
                                    (0x10000 + (first - 0xD800) * 0x400 + (second
                                        - 0xDC00)) as char,
                                    11,
                                ),
                            )
                        } else {
                            None
                        },
                        None => None,
                    }
                } else {
                    None
                }
            } else {
                match scalar_of(first) {
                    Some(c) => Some((c, 5)),
                    None => None,
                }
            },
            None => None,
        }
    } else {
        None
    }
}

/// The text that the inside of a string stands for.
pub open spec fn unescaped(s: Seq<char>) -> Option<Seq<char>>
    decreases s.len(),
{
    if s.len() == 0 {
        Some(Seq::empty())
    } else if s[0] == '\\' {
        match escape(s.skip(1)) {
            Some((c, n)) => if 0 < n < s.len() {
                match unescaped(s.skip(n + 1)) {
                    Some(rest) => Some(seq![c] + rest),
                    None => None,
                }
            } else {
                None
            },
            None => None,
        }
    } else {
        match unescaped(s.skip(1)) {
            Some(rest) => Some(seq![s[0]] + rest),
            None => None,
        }
    }
}

/// The text that a string stands for, where `s` is the string with its
/// quotation marks and nothing after them.
pub open spec fn string_value(s: Seq<char>) -> Option<Seq<char>> {
    if s.len() >= 2 && s[0] == '"' && closing_quote(s.skip(1)) == Some(s.len() - 2) {
        unescaped(s.subrange(1, s.len() - 1))
    } else {
        None
    }
}

/// Whether `c` opens an object or an array.
pub open spec fn opens(c: char) -> bool {
    c == '{' || c == '['
}

/// Whether `c` closes an object or an array.
pub open spec fn closes(c: char) -> bool {
    c == '}' || c == ']'
}

/// The place just behind the bracket that closes the outermost of `depth`
/// open brackets. Brackets inside strings do not count.
pub open spec fn nested_end(s: Seq<char>, depth: nat) -> Option<int>
    decreases s.len(),
{
    if s.len() == 0 {
        None
    } else if s[0] == '"' {
        match closing_quote(s.skip(1)) {
            Some(q) => if 0 <= q && q + 2 <= s.len() {
                match nested_end(s.skip(q + 2), depth) {
                    Some(k) => Some(k + q + 2),
                    None => None,
                }
            } else {
                None
            },
            None => None,
        }
    } else if closes(s[0]) && depth <= 1 {
        Some(1)
    } else {
        let inner = if opens(s[0]) {
            depth + 1
        } else if closes(s[0]) {
            (depth - 1) as nat
        } else {
            depth
        };
        match nested_end(s.skip(1), inner) {
            Some(k) => Some(k + 1),
            None => None,
        }
    }
}

/// Whether `c` ends a value that is neither a string nor in brackets.
pub open spec fn ends_scalar(c: char) -> bool {
    c == ',' || closes(c) || c == ' ' || c == '\t' || c == '\r'
}

/// The length of the value, neither a string nor in brackets, that `s`
/// begins with.
pub open spec fn scalar_len(s: Seq<char>) -> int
    decreases s.len(),
{
    if s.len() == 0 || ends_scalar(s[0]) {
        0
    } else {
        1 + scalar_len(s.skip(1))
    }
}

/// The length of the value that `s` begins with.
pub open spec fn value_len(s: Seq<char>) -> Option<int> {
    if s.len() == 0 {
        None
    } else if s[0] == '"' {
        match closing_quote(s.skip(1)) {
            Some(q) => Some(q + 2),
            None => None,
        }
    } else if opens(s[0]) {
        match nested_end(s.skip(1), 1) {
            Some(k) => Some(k + 1),
            None => None,
        }
    } else if scalar_len(s) > 0 {
        Some(scalar_len(s))
    } else {
        None
    }
}

/// The value of the member `key` of an object, as it is written, where `s`
/// is what follows the opening bracket of the object. Of two members of one
/// name the first counts.
pub open spec fn member(s: Seq<char>, key: Seq<char>) -> Option<Seq<char>>
    decreases s.len(),
{
    let t = trim_start(s);
    if t.len() == 0 || t[0] != '"' {
        None
    } else {
        match closing_quote(t.skip(1)) {
            Some(q) => if 0 <= q && q + 2 <= t.len() {
                let after_name = trim_start(t.skip(q + 2));
                if after_name.len() > 0 && after_name[0] == ':' {
                    let v = trim_start(after_name.skip(1));
                    match value_len(v) {
                        Some(n) => if 0 < n <= v.len() {
                            if t.subrange(1, q + 1) == key {
                                Some(v.take(n))
                            } else {
                                let rest = trim_start(v.skip(n));
                                if 0 < rest.len() <= s.len() && rest[0] == ',' {
                                    member(rest.skip(1), key)
                                } else {
                                    None
                                }
                            }
                        } else {
                            None
                        },
                        None => None,
                    }
                } else {
                    None
                }
            } else {
                None
            },
            None => None,
        }
    }
}

/// The value of the member `key` of the object `v`, where `v` is an object.
pub open spec fn member_of(v: Seq<char>, key: Seq<char>) -> Option<Seq<char>> {
    if v.len() > 0 && v[0] == '{' {
        member(v.skip(1), key)
    } else {
        None
    }
}

/// The first item of an array that is an object whose member `is_primary`
/// is `true`, where `s` is what follows the opening bracket of the array.
pub open spec fn primary_item(s: Seq<char>) -> Option<Seq<char>>
    decreases s.len(),
{
    let v = trim_start(s);
    match value_len(v) {
        Some(n) => if 0 < n <= v.len() {
            if member_of(v.take(n), "is_primary"@) == Some("true"@) {
                Some(v.take(n))
            } else {
                let rest = trim_start(v.skip(n));
                if 0 < rest.len() <= s.len() && rest[0] == ',' {
                    primary_item(rest.skip(1))
                } else {
                    None
                }
            }
        } else {
            None
        },
        None => None,
    }
}

/// The severity that a level names.
pub open spec fn severity_named(level: Seq<char>) -> Option<Severity> {
    if level == "error"@ {
        Some(Severity::Error)
    } else if level == "warning"@ {
        Some(Severity::Warning)
    } else if level == "note"@ {
        Some(Severity::Note)
    } else {
        None
    }
}

/// The text of the member `key` of the object `v`, where the member is a
/// string.
pub open spec fn text_member(v: Seq<char>, key: Seq<char>) -> Option<Seq<char>> {
    match member_of(v, key) {
        Some(raw) => string_value(raw),
        None => None,
    }
}

/// The number of the member `key` of the object `v`, where the member is a
/// number of at most 32 bits, written in digits only.
pub open spec fn number_member(v: Seq<char>, key: Seq<char>) -> Option<u32> {
    match member_of(v, key) {
        Some(raw) => number(raw),
        None => None,
    }
}

/// The code of the diagnostic that the object `v` states.
pub open spec fn code_in(v: Seq<char>) -> Option<Seq<char>> {
    match member_of(v, "code"@) {
        Some(inner) => text_member(inner, "code"@),
        None => None,
    }
}

/// The location of the diagnostic that the object `v` states.
pub open spec fn location_in(v: Seq<char>) -> Option<Location> {
    match member_of(v, "spans"@) {
        Some(spans) => if spans.len() > 0 && spans[0] == '[' {
            match primary_item(spans.skip(1)) {
                Some(span) => match (
                    number_member(span, "line_start"@),
                    number_member(span, "column_start"@),
                ) {
                    (Some(line), Some(column)) => Some(Location { line, column }),
                    _ => None,
                },
                None => None,
            }
        } else {
            None
        },
        None => None,
    }
}

/// The diagnostic that a line states as a JSON object; `line` has no
/// blanks at its ends.
pub open spec fn json_diagnostic(line: Seq<char>) -> Option<DiagnosticView> {
    match text_member(line, "level"@) {
        Some(level) => match (severity_named(level), text_member(line, "message"@)) {
            (Some(severity), Some(message)) => Some(
                DiagnosticView {
                    severity,
                    code: code_in(line),
                    message,
                    location: location_in(line),
                },
            ),
            _ => None,
        },
        None => None,
    }
}

/// The status that an event of a test names.
pub open spec fn status_named(event: Seq<char>) -> Option<TestStatus> {
    if event == "ok"@ {
        Some(TestStatus::Passed)
    } else if event == "failed"@ {
        Some(TestStatus::Failed)
    } else {
        None
    }
}

/// The test outcome that a line states as a JSON object; `line` has no
/// blanks at its ends.
pub open spec fn json_test(line: Seq<char>) -> Option<TestOutcomeView> {
    if text_member(line, "type"@) == Some("test"@) {
        match (text_member(line, "event"@), text_member(line, "name"@)) {
            (Some(event), Some(name)) => match status_named(event) {
                Some(status) => Some(
                    TestOutcomeView { name, status, message: text_member(line, "stdout"@) },
                ),
                None => None,
            },
            _ => None,
        }
    } else {
        None
    }
}

/// The place of the quotation mark that closes a string.
fn find_closing_quote(s: &[char]) -> (r: Option<usize>)
    ensures
        match r {
            Some(k) => closing_quote(s@) == Some(k as int) && k < s.len(),
            None => closing_quote(s@) is None,
        },
{
    let mut i: usize = 0;
    assert(s@.skip(0) == s@);
    while i < s.len()
        invariant
            i <= s.len(),
            closing_quote(s@) == match closing_quote(s@.skip(i as int)) {
                Some(k) => Some(k + i),
                None => None,
            },
        decreases s.len() - i,
    {
        assert(s@.skip(i as int)[0] == s@[i as int]);
        if s[i] == '"' {
            return Some(i);
        }
        if s[i] == '\\' {
            if s.len() - i < 2 {
                return None;
            }
            assert(s@.skip(i as int).skip(2) == s@.skip(i + 2));
            i = i + 2;
        } else {
            assert(s@.skip(i as int).skip(1) == s@.skip(i + 1));
            i = i + 1;
        }
    }
    None
}

/// The value of a hexadecimal digit.
fn hex_digit(c: char) -> (r: Option<u32>)
    ensures
        match r {
            Some(v) => hex_value(c) == Some(v as nat) && v < 16,
            None => hex_value(c) is None,
        },
{
    if c >= '0' && c <= '9' {
        Some(c as u32 - '0' as u32)
    } else if c >= 'a' && c <= 'f' {
        Some(c as u32 - 'a' as u32 + 10)
    } else if c >= 'A' && c <= 'F' {
        Some(c as u32 - 'A' as u32 + 10)
    } else {
        None
    }
}

/// The number that the first four characters of `s` write in base sixteen.
fn read_code_unit(s: &[char]) -> (r: Option<u32>)
    ensures
        match r {
            Some(v) => code_unit(s@) == Some(v as nat) && v < 0x10000 && s.len() >= 4,
            None => code_unit(s@) is None,
        },
{
    if s.len() < 4 {
        return None;
    }
    match (hex_digit(s[0]), hex_digit(s[1]), hex_digit(s[2]), hex_digit(s[3])) {
        (Some(a), Some(b), Some(c), Some(d)) => Some(((a * 16 + b) * 16 + c) * 16 + d),
        _ => None,
    }
}

/// `char::from_u32`: the character with the given number, and nothing
/// where the number stands for no character.
#[verifier::external_body]
fn char_of(code: u32) -> (r: Option<char>)
    ensures
        r == scalar_of(code as nat),
{
    char::from_u32(code)
}

/// The character that an escape stands for, and how many characters the
/// escape takes.
fn read_escape(s: &[char]) -> (r: Option<(char, usize)>)
    ensures
        match r {
            Some((c, n)) => escape(s@) == Some((c, n as int)) && 0 < n <= s.len(),
            None => escape(s@) is None,
        },
{
    if s.len() == 0 {
        return None;
    }
    let c = s[0];
    if c == '"' || c == '\\' || c == '/' {
        Some((c, 1))
    } else if c == 'n' {
        Some(('\n', 1))
    } else if c == 'r' {
        Some(('\r', 1))
    } else if c == 't' {
        Some(('\t', 1))
    } else if c == 'b' {
        Some(('\u{8}', 1))
    } else if c == 'f' {
        Some(('\u{c}', 1))
    } else if c == 'u' {
        let first = match read_code_unit(tail(s, 1)) {
            Some(first) => first,
            None => {
                return None;
            },
        };
        if 0xD800 <= first && first < 0xDC00 {
            if !(s.len() >= 7 && s[5] == '\\' && s[6] == 'u') {
                return None;
            }
            let second = match read_code_unit(tail(s, 7)) {
                Some(second) => second,
                None => {
                    return None;
                },
            };
            if !(0xDC00 <= second && second < 0xE000) {
                return None;
            }
            match char_of(0x10000 + (first - 0xD800) * 0x400 + (second - 0xDC00)) {
                Some(c) => Some((c, 11)),
                None => None,
            }
        } else {
            match char_of(first) {
                Some(c) => Some((c, 5)),
                None => None,
            }
        }
    } else {
        None
    }
}

/// The text that the inside of a string stands for.
fn unescape(s: &[char]) -> (r: Option<Vec<char>>)
    ensures
        match r {
            Some(text) => unescaped(s@) == Some(text@),
            None => unescaped(s@) is None,
        },
{
    let mut out: Vec<char> = Vec::new();
    let mut i: usize = 0;
    assert(s@.skip(0) == s@);
    while i < s.len()
        invariant
            i <= s.len(),
            unescaped(s@) == match unescaped(s@.skip(i as int)) {
                Some(rest) => Some(out@ + rest),
                None => None,
            },
        decreases s.len() - i,
    {
        let ghost here = s@.skip(i as int);
        let ghost before = out@;
        assert(here[0] == s@[i as int]);
        if s[i] == '\\' {
            assert(here.skip(1) == s@.skip(i + 1));
            match read_escape(tail(s, i + 1)) {
                Some((c, n)) => {
                    assert(here.skip(n + 1) == s@.skip(i + n + 1));
                    out.push(c);
                    assert forall|rest: Seq<char>| before + (seq![c] + rest) == #[trigger] (out@
                        + rest) by {
                        assert(before + (seq![c] + rest) =~= out@ + rest);
                    }
                    i = i + n + 1;
                },
                None => {
                    return None;
                },
            }
        } else {
            let c = s[i];
            assert(here.skip(1) == s@.skip(i + 1));
            out.push(c);
            assert forall|rest: Seq<char>| before + (seq![c] + rest) == #[trigger] (out@
                + rest) by {
                assert(before + (seq![c] + rest) =~= out@ + rest);
            }
            i = i + 1;
        }
    }
    assert(s@.skip(i as int) == Seq::<char>::empty());
    assert(out@ + Seq::<char>::empty() == out@);
    Some(out)
}

/// The text that a string stands for.
fn read_string(s: &[char]) -> (r: Option<String>)
    ensures
        r.deep_view() == string_value(s@),
{
    if s.len() < 2 || s[0] != '"' {
        return None;
    }
    match find_closing_quote(tail(s, 1)) {
        Some(q) => {
            if q != s.len() - 2 {
                return None;
            }
        },
        None => {
            return None;
        },
    }
    let inside = slice_subrange(s, 1, s.len() - 1);
    match unescape(inside) {
        Some(text) => Some(text_of(text.as_slice())),
        None => None,
    }
}

/// The place just behind the bracket that closes the one open bracket.
fn find_nested_end(s: &[char]) -> (r: Option<usize>)
    ensures
        match r {
            Some(k) => nested_end(s@, 1) == Some(k as int) && 0 < k <= s.len(),
            None => nested_end(s@, 1) is None,
        },
{
    let mut i: usize = 0;
    let mut depth: usize = 1;
    assert(s@.skip(0) == s@);
    while i < s.len()
        invariant
            i <= s.len(),
            1 <= depth <= i + 1,
            nested_end(s@, 1) == match nested_end(s@.skip(i as int), depth as nat) {
                Some(k) => Some(k + i),
                None => None,
            },
        decreases s.len() - i,
    {
        let ghost here = s@.skip(i as int);
        assert(here[0] == s@[i as int]);
        let c = s[i];
        if c == '"' {
            assert(here.skip(1) == s@.skip(i + 1));
            match find_closing_quote(tail(s, i + 1)) {
                Some(q) => {
                    assert(here.skip(q + 2) == s@.skip(i + q + 2));
                    i = i + q + 2;
                },
                None => {
                    return None;
                },
            }
        } else if (c == '}' || c == ']') && depth <= 1 {
            return Some(i + 1);
        } else {
            assert(here.skip(1) == s@.skip(i + 1));
            if c == '{' || c == '[' {
                if i + 1 == s.len() {
                    assert(here.skip(1).len() == 0);
                    assert(nested_end(here.skip(1), (depth + 1) as nat) is None);
                    assert(nested_end(here, depth as nat) is None);
                    return None;
                }
                depth = depth + 1;
            } else if c == '}' || c == ']' {
                depth = depth - 1;
            }
            i = i + 1;
        }
    }
    None
}

/// The length of the value, neither a string nor in brackets, that `s`
/// begins with.
fn find_scalar_len(s: &[char]) -> (n: usize)
    ensures
        n == scalar_len(s@),
        n <= s.len(),
{
    let mut i: usize = 0;
    assert(s@.skip(0) == s@);
    while i < s.len() && !(s[i] == ',' || s[i] == '}' || s[i] == ']' || s[i] == ' ' || s[i] == '\t'
        || s[i] == '\r')
        invariant
            i <= s.len(),
            scalar_len(s@) == i + scalar_len(s@.skip(i as int)),
        decreases s.len() - i,
    {
        assert(s@.skip(i as int)[0] == s@[i as int]);
        assert(s@.skip(i as int).skip(1) == s@.skip(i + 1));
        i = i + 1;
    }
    proof {
        if i < s.len() {
            assert(s@.skip(i as int)[0] == s@[i as int]);
        }
    }
    i
}

/// The length of the value that `s` begins with.
fn find_value_len(s: &[char]) -> (r: Option<usize>)
    ensures
        match r {
            Some(n) => value_len(s@) == Some(n as int) && 0 < n <= s.len(),
            None => value_len(s@) is None,
        },
{
    if s.len() == 0 {
        return None;
    }
    if s[0] == '"' {
        match find_closing_quote(tail(s, 1)) {
            Some(q) => Some(q + 2),
            None => None,
        }
    } else if s[0] == '{' || s[0] == '[' {
        match find_nested_end(tail(s, 1)) {
            Some(k) => Some(k + 1),
            None => None,
        }
    } else {
        let n = find_scalar_len(s);
        if n > 0 {
            Some(n)
        } else {
            None
        }
    }
}

/// The value of the member `key` of an object, as it is written, where `s`
/// is what follows the opening bracket of the object.
fn find_member<'a>(s: &'a [char], key: &str) -> (r: Option<&'a [char]>)
    ensures
        match r {
            Some(v) => member(s@, key@) == Some(v@),
            None => member(s@, key@) is None,
        },
{
    let mut cur = s;
    loop
        invariant
            member(s@, key@) == member(cur@, key@),
        decreases cur.len(),
    {
        let t = skip_blanks(cur);
        if t.len() == 0 || t[0] != '"' {
            return None;
        }
        let q = match find_closing_quote(tail(t, 1)) {
            Some(q) => q,
            None => {
                return None;
            },
        };
        let after_name = skip_blanks(tail(t, q + 2));
        if !(after_name.len() > 0 && after_name[0] == ':') {
            return None;
        }
        let v = skip_blanks(tail(after_name, 1));
        let n = match find_value_len(v) {
            Some(n) => n,
            None => {
                return None;
            },
        };
        if is_word(slice_subrange(t, 1, q + 1), key) {
            return Some(head(v, n));
        }
        let rest = skip_blanks(tail(v, n));
        if rest.len() > 0 && rest[0] == ',' {
            cur = tail(rest, 1);
        } else {
            return None;
        }
    }
}

/// The value of the member `key` of the object `v`.
fn find_member_of<'a>(v: &'a [char], key: &str) -> (r: Option<&'a [char]>)
    ensures
        match r {
            Some(found) => member_of(v@, key@) == Some(found@),
            None => member_of(v@, key@) is None,
        },
{
    if v.len() > 0 && v[0] == '{' {
        find_member(tail(v, 1), key)
    } else {
        None
    }
}

/// Whether the member `is_primary` of the object `v` is `true`.
fn is_primary(v: &[char]) -> (r: bool)
    ensures
        r == (member_of(v@, "is_primary"@) == Some("true"@)),
{
    match find_member_of(v, "is_primary") {
        Some(value) => is_word(value, "true"),
        None => false,
    }
}

/// The first item of an array that is an object whose member `is_primary`
/// is `true`, where `s` is what follows the opening bracket of the array.
fn find_primary_item<'a>(s: &'a [char]) -> (r: Option<&'a [char]>)
    ensures
        match r {
            Some(v) => primary_item(s@) == Some(v@),
            None => primary_item(s@) is None,
        },
{
    let mut cur = s;
    loop
        invariant
            primary_item(s@) == primary_item(cur@),
        decreases cur.len(),
    {
        let v = skip_blanks(cur);
        let n = match find_value_len(v) {
            Some(n) => n,
            None => {
                return None;
            },
        };
        if is_primary(head(v, n)) {
            return Some(head(v, n));
        }
        let rest = skip_blanks(tail(v, n));
        if rest.len() > 0 && rest[0] == ',' {
            cur = tail(rest, 1);
        } else {
            return None;
        }
    }
}

/// The text of the member `key` of the object `v`.
fn read_text_member(v: &[char], key: &str) -> (r: Option<String>)
    ensures
        r.deep_view() == text_member(v@, key@),
{
    match find_member_of(v, key) {
        Some(raw) => read_string(raw),
        None => None,
    }
}

/// The number of the member `key` of the object `v`.
fn read_number_member(v: &[char], key: &str) -> (r: Option<u32>)
    ensures
        r == number_member(v@, key@),
{
    match find_member_of(v, key) {
        Some(raw) => read_number(raw),
        None => None,
    }
}

/// The location of the diagnostic that the object `v` states.
fn read_location_in(v: &[char]) -> (r: Option<Location>)
    ensures
        r == location_in(v@),
{
    let spans = match find_member_of(v, "spans") {
        Some(spans) => spans,
        None => {
            return None;
        },
    };
    if !(spans.len() > 0 && spans[0] == '[') {
        return None;
    }
    let span = match find_primary_item(tail(spans, 1)) {
        Some(span) => span,
        None => {
            return None;
        },
    };
    match (read_number_member(span, "line_start"), read_number_member(span, "column_start")) {
        (Some(line), Some(column)) => Some(Location { line, column }),
        _ => None,
    }
}

/// The diagnostic that a line states as a JSON object; `line` has no blanks
/// at its ends. The module's description says which members are read.
pub fn read_json_diagnostic(line: &[char]) -> (r: Option<Diagnostic>)
    ensures
        r.deep_view() == json_diagnostic(line@),
{
    let level = match read_text_member(line, "level") {
        Some(level) => level,
        None => {
            return None;
        },
    };
    let severity = if says(&level, "error") {
        Severity::Error
    } else if says(&level, "warning") {
        Severity::Warning
    } else if says(&level, "note") {
        Severity::Note
    } else {
        return None;
    };
    let message = match read_text_member(line, "message") {
        Some(message) => message,
        None => {
            return None;
        },
    };
    let code = match find_member_of(line, "code") {
        Some(inner) => read_text_member(inner, "code"),
        None => None,
    };
    let location = read_location_in(line);
    Some(Diagnostic { severity, code, message, location })
}

/// Whether the text `s` is exactly `word`.
fn says(s: &String, word: &str) -> (r: bool)
    ensures
        r == (s@ == word@),
{
    let chars = chars_of(s.as_str());
    is_word(chars.as_slice(), word)
}

/// The test outcome that a line states as a JSON object; `line` has no
/// blanks at its ends. The module's description says which members are
/// read.
pub fn read_json_test(line: &[char]) -> (r: Option<TestOutcome>)
    ensures
        r.deep_view() == json_test(line@),
{
    match read_text_member(line, "type") {
        Some(kind) => {
            if !says(&kind, "test") {
                return None;
            }
        },
        None => {
            return None;
        },
    }
    let event = match read_text_member(line, "event") {
        Some(event) => event,
        None => {
            return None;
        },
    };
    let name = match read_text_member(line, "name") {
        Some(name) => name,
        None => {
            return None;
        },
    };
    let status = if says(&event, "ok") {
        TestStatus::Passed
    } else if says(&event, "failed") {
        TestStatus::Failed
    } else {
        return None;
    };
    Some(TestOutcome { name, status, message: read_text_member(line, "stdout") })
}

} // verus!
