//! A report as one line of JSON text:
//!
//! ```text
//! {"matched":1,"mismatched":1,"fixtures":[{"fixture":"a","matched":true,
//! "mismatches":[]},{"fixture":"b","matched":false,"mismatches":["..."]}]}
//! ```
//!
//! The line holds no line break and no blank outside its strings.

use crate::describe::{decimal_of, put_decimal, record_of, Record, RecordView};
use crate::evaluator::VerdictView;
use crate::report::{Report, ReportView};
use crate::text::{chars_of, put, text_of};
use vstd::prelude::*;

verus! {

/// The character that writes the hexadecimal digit `d`.
pub open spec fn hex_char(d: nat) -> char {
    if d == 0 {
        '0'
    } else if d == 1 {
        '1'
    } else if d == 2 {
        '2'
    } else if d == 3 {
        '3'
    } else if d == 4 {
        '4'
    } else if d == 5 {
        '5'
    } else if d == 6 {
        '6'
    } else if d == 7 {
        '7'
    } else if d == 8 {
        '8'
    } else if d == 9 {
        '9'
    } else if d == 10 {
        'a'
    } else if d == 11 {
        'b'
    } else if d == 12 {
        'c'
    } else if d == 13 {
        'd'
    } else if d == 14 {
        'e'
    } else {
        'f'
    }
}

/// How one character stands inside a JSON string: the quotation mark and
/// the backslash behind a backslash, a control character by its short name
/// or by its number, every other character as it is.
pub open spec fn escape_of(c: char) -> Seq<char> {
    if c == '"' {
        seq!['\\', '"']
    } else if c == '\\' {
        seq!['\\', '\\']
    } else if c == '\n' {
        seq!['\\', 'n']
    } else if c == '\r' {
        seq!['\\', 'r']
    } else if c == '\t' {
        seq!['\\', 't']
    } else if (c as nat) < 32 {
        seq!['\\', 'u', '0', '0', hex_char(c as nat / 16), hex_char(c as nat % 16)]
    } else {
        seq![c]
    }
}

/// The characters of `s`, each as it stands inside a JSON string.
pub open spec fn escaped(s: Seq<char>) -> Seq<char>
    decreases s.len(),
{
    if s.len() == 0 {
        Seq::empty()
    } else {
        escaped(s.drop_last()) + escape_of(s.last())
    }
}

/// `s` as a JSON string.
pub open spec fn json_string(s: Seq<char>) -> Seq<char> {
    seq!['"'] + escaped(s) + seq!['"']
}

/// The items with a comma between each two neighbours.
pub open spec fn joined(items: Seq<Seq<char>>) -> Seq<char>
    decreases items.len(),
{
    if items.len() == 0 {
        Seq::empty()
    } else if items.len() == 1 {
        items[0]
    } else {
        joined(items.drop_last()) + seq![','] + items.last()
    }
}

/// The items as a JSON array.
pub open spec fn json_array(items: Seq<Seq<char>>) -> Seq<char> {
    seq!['['] + joined(items) + seq![']']
}

/// `true` or `false`.
pub open spec fn json_bool(b: bool) -> Seq<char> {
    if b {
        "true"@
    } else {
        "false"@
    }
}

/// A record as a JSON object.
pub open spec fn json_record(r: RecordView) -> Seq<char> {
    "{\"fixture\":"@ + json_string(r.fixture) + ",\"matched\":"@ + json_bool(r.matched)
        + ",\"mismatches\":"@ + json_array(r.mismatches.map_values(|m: Seq<char>| json_string(m)))
        + "}"@
}

/// A report as a JSON object.
pub open spec fn json_report(r: ReportView) -> Seq<char> {
    "{\"matched\":"@ + decimal_of(r.matched) + ",\"mismatched\":"@ + decimal_of(r.mismatched)
        + ",\"fixtures\":"@ + json_array(
        r.verdicts.map_values(|v: VerdictView| json_record(record_of(v))),
    ) + "}"@
}

/// The character that writes a hexadecimal digit.
fn hex(d: u32) -> (c: char)
    requires
        d < 16,
    ensures
        c == hex_char(d as nat),
{
    if d == 0 {
        '0'
    } else if d == 1 {
        '1'
    } else if d == 2 {
        '2'
    } else if d == 3 {
        '3'
    } else if d == 4 {
        '4'
    } else if d == 5 {
        '5'
    } else if d == 6 {
        '6'
    } else if d == 7 {
        '7'
    } else if d == 8 {
        '8'
    } else if d == 9 {
        '9'
    } else if d == 10 {
        'a'
    } else if d == 11 {
        'b'
    } else if d == 12 {
        'c'
    } else if d == 13 {
        'd'
    } else if d == 14 {
        'e'
    } else {
        'f'
    }
}

/// Appends one character as it stands inside a JSON string.
fn put_escape(out: &mut Vec<char>, c: char)
    ensures
        final(out)@ == old(out)@ + escape_of(c),
{
    let ghost before = out@;
    if c == '"' || c == '\\' {
        out.push('\\');
        out.push(c);
    } else if c == '\n' {
        out.push('\\');
        out.push('n');
    } else if c == '\r' {
        out.push('\\');
        out.push('r');
    } else if c == '\t' {
        out.push('\\');
        out.push('t');
    } else if (c as u32) < 32 {
        let code: u32 = c as u32;
        out.push('\\');
        out.push('u');
        out.push('0');
        out.push('0');
        out.push(hex(code / 16));
        out.push(hex(code % 16));
    } else {
        out.push(c);
    }
    assert(out@ == before + escape_of(c));
}

/// Appends `s` as a JSON string.
fn put_string(out: &mut Vec<char>, s: &String)
    ensures
        final(out)@ == old(out)@ + json_string(s@),
{
    let ghost before = out@;
    let chars = chars_of(s.as_str());
    out.push('"');
    let mut i: usize = 0;
    assert(chars@.take(0) == Seq::<char>::empty());
    while i < chars.len()
        invariant
            i <= chars.len(),
            chars@ == s@,
            out@ == before + seq!['"'] + escaped(chars@.take(i as int)),
        decreases chars.len() - i,
    {
        assert(chars@.take(i + 1).drop_last() == chars@.take(i as int));
        assert(chars@.take(i + 1).last() == chars@[i as int]);
        put_escape(out, chars[i]);
        i = i + 1;
    }
    assert(chars@.take(i as int) == chars@);
    out.push('"');
    assert(out@ == before + json_string(s@));
}

/// Appends a record as a JSON object.
fn put_record(out: &mut Vec<char>, r: &Record)
    ensures
        final(out)@ == old(out)@ + json_record(r@),
{
    let ghost before = out@;
    let ghost items = r@.mismatches.map_values(|m: Seq<char>| json_string(m));
    put(out, "{\"fixture\":");
    put_string(out, &r.fixture);
    put(out, ",\"matched\":");
    if r.matched {
        put(out, "true");
    } else {
        put(out, "false");
    }
    put(out, ",\"mismatches\":");
    out.push('[');
    let ghost front = out@;
    let mut i: usize = 0;
    assert(items.take(0) == Seq::<Seq<char>>::empty());
    while i < r.mismatches.len()
        invariant
            i <= r.mismatches.len(),
            items == r@.mismatches.map_values(|m: Seq<char>| json_string(m)),
            items.len() == r.mismatches.len(),
            out@ == front + joined(items.take(i as int)),
        decreases r.mismatches.len() - i,
    {
        assert(items.take(i + 1).drop_last() == items.take(i as int));
        assert(items.take(i + 1).last() == json_string(r.mismatches@[i as int]@));
        if i > 0 {
            out.push(',');
        }
        put_string(out, &r.mismatches[i]);
        i = i + 1;
    }
    assert(items.take(i as int) == items);
    out.push(']');
    out.push('}');
    assert("}"@ == seq!['}']) by {
        reveal_strlit("}");
    }
    assert(out@ == before + json_record(r@));
}

impl Record {
    /// The record as a JSON object.
    pub fn to_json(&self) -> (r: String)
        ensures
            r@ == json_record(self@),
    {
        let mut out: Vec<char> = Vec::new();
        put_record(&mut out, self);
        text_of(out.as_slice())
    }
}

impl Report {
    /// The report as a JSON object: the counts, then one record for each
    /// fixture, in the order of the report.
    pub fn to_json(&self) -> (r: String)
        ensures
            r@ == json_report(self@),
    {
        let records = self.records();
        let ghost items = self@.verdicts.map_values(|v: VerdictView| json_record(record_of(v)));
        let mut out: Vec<char> = Vec::new();
        put(&mut out, "{\"matched\":");
        put_decimal(&mut out, self.matched() as u64);
        put(&mut out, ",\"mismatched\":");
        put_decimal(&mut out, self.mismatched() as u64);
        put(&mut out, ",\"fixtures\":");
        out.push('[');
        let ghost front = out@;
        let mut i: usize = 0;
        assert(items.take(0) == Seq::<Seq<char>>::empty());
        assert(records.deep_view().len() == records.len());
        while i < records.len()
            invariant
                i <= records.len(),
                items == self@.verdicts.map_values(|v: VerdictView| json_record(record_of(v))),
                records.deep_view() == self@.verdicts.map_values(|v: VerdictView| record_of(v)),
                items.len() == records.len(),
                out@ == front + joined(items.take(i as int)),
            decreases records.len() - i,
        {
            assert(items.take(i + 1).drop_last() == items.take(i as int));
            assert(records.deep_view()[i as int] == record_of(self@.verdicts[i as int]));
            assert(items.take(i + 1).last() == json_record(records@[i as int]@));
            if i > 0 {
                out.push(',');
            }
            put_record(&mut out, &records[i]);
            i = i + 1;
        }
        assert(items.take(i as int) == items);
        out.push(']');
        out.push('}');
        assert("}"@ == seq!['}']) by {
            reveal_strlit("}");
        }
        assert(out@ == json_report(self@));
        text_of(out.as_slice())
    }
}

} // verus!
