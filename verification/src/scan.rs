//! Searching and trimming sequences of characters, and reading decimal
//! numbers from them.

use crate::text::chars_of;
use vstd::prelude::*;
use vstd::slice::slice_subrange;

verus! {

/// A space, a tab or a carriage return.
pub open spec fn is_blank(c: char) -> bool {
    c == ' ' || c == '\t' || c == '\r'
}

/// `s` without its leading blanks.
pub open spec fn trim_start(s: Seq<char>) -> Seq<char>
    decreases s.len(),
{
    if s.len() > 0 && is_blank(s[0]) {
        trim_start(s.skip(1))
    } else {
        s
    }
}

/// `s` without its trailing blanks.
pub open spec fn trim_end(s: Seq<char>) -> Seq<char>
    decreases s.len(),
{
    if s.len() > 0 && is_blank(s.last()) {
        trim_end(s.drop_last())
    } else {
        s
    }
}

/// `s` without its leading and trailing blanks.
pub open spec fn trim(s: Seq<char>) -> Seq<char> {
    trim_end(trim_start(s))
}

/// Whether `s` begins with `word`.
pub open spec fn starts_with(s: Seq<char>, word: Seq<char>) -> bool {
    word.len() <= s.len() && s.take(word.len() as int) == word
}

/// What follows `word` at the start of `s`, if `s` begins with it.
pub open spec fn after(s: Seq<char>, word: Seq<char>) -> Option<Seq<char>> {
    if starts_with(s, word) {
        Some(s.skip(word.len() as int))
    } else {
        None
    }
}

/// The place of the first `c` in `s`, or the length of `s` if there is none.
pub open spec fn position(s: Seq<char>, c: char) -> int
    decreases s.len(),
{
    if s.len() == 0 || s[0] == c {
        0
    } else {
        1 + position(s.skip(1), c)
    }
}

/// The place of the last `c` in `s`.
pub open spec fn last_position(s: Seq<char>, c: char) -> Option<int>
    decreases s.len(),
{
    if s.len() == 0 {
        None
    } else if s.last() == c {
        Some(s.len() - 1)
    } else {
        last_position(s.drop_last(), c)
    }
}

/// The first place at which `word` occurs in `s`.
pub open spec fn find(s: Seq<char>, word: Seq<char>) -> Option<int>
    decreases s.len(),
{
    if starts_with(s, word) {
        Some(0)
    } else if s.len() == 0 {
        None
    } else {
        match find(s.skip(1), word) {
            Some(k) => Some(k + 1),
            None => None,
        }
    }
}

/// Whether `c` is one of the digits `0` to `9`.
pub open spec fn is_digit(c: char) -> bool {
    '0' <= c <= '9'
}

/// Whether `s` consists of digits only.
pub open spec fn all_digits(s: Seq<char>) -> bool {
    forall|i: int| 0 <= i < s.len() ==> is_digit(#[trigger] s[i])
}

/// The number that the digits of `s` write in base ten.
pub open spec fn decimal_value(s: Seq<char>) -> nat
    decreases s.len(),
{
    if s.len() == 0 {
        0
    } else {
        10 * decimal_value(s.drop_last()) + (s.last() as nat - '0' as nat) as nat
    }
}

/// The number that `s` writes, where `s` is a non-empty run of digits whose
/// value fits in 32 bits.
pub open spec fn number(s: Seq<char>) -> Option<u32> {
    if s.len() > 0 && all_digits(s) && decimal_value(s) <= u32::MAX {
        Some(decimal_value(s) as u32)
    } else {
        None
    }
}

/// The lines of a text: the stretches between its newlines. A newline at
/// the very end starts no further line, and an empty text has no line.
pub open spec fn split_lines(s: Seq<char>) -> Seq<Seq<char>>
    decreases s.len(),
{
    if s.len() == 0 {
        Seq::empty()
    } else {
        let k = position(s, '\n');
        if 0 <= k < s.len() {
            seq![s.take(k)] + split_lines(s.skip(k + 1))
        } else {
            seq![s]
        }
    }
}


/// The first place of a character is within the sequence or at its end,
/// nothing before it is that character, and the character stands there.
pub proof fn lemma_position(s: Seq<char>, c: char)
    ensures
        0 <= position(s, c) <= s.len(),
        forall|j: int| 0 <= j < position(s, c) ==> s[j] != c,
        position(s, c) < s.len() ==> s[position(s, c)] == c,
    decreases s.len(),
{
    if !(s.len() == 0 || s[0] == c) {
        let rest = s.skip(1);
        lemma_position(rest, c);
        assert forall|j: int| 0 <= j < position(s, c) implies s[j] != c by {
            if j > 0 {
                assert(rest[j - 1] == s[j]);
            }
        }
    }
}

/// What `trim_start` gives is the end of the sequence from the first
/// character on that is no blank.
pub proof fn lemma_trim_start(s: Seq<char>)
    ensures
        trim_start(s).len() <= s.len(),
        trim_start(s) == s.skip(s.len() - trim_start(s).len()),
        forall|i: int| 0 <= i < s.len() - trim_start(s).len() ==> is_blank(#[trigger] s[i]),
        trim_start(s).len() > 0 ==> !is_blank(trim_start(s)[0]),
    decreases s.len(),
{
    if s.len() > 0 && is_blank(s[0]) {
        let rest = s.skip(1);
        lemma_trim_start(rest);
        let cut = rest.len() - trim_start(rest).len();
        assert(rest.skip(cut) == s.skip(cut + 1));
        assert forall|i: int| 0 <= i < s.len() - trim_start(s).len() implies is_blank(
            #[trigger] s[i],
        ) by {
            if i > 0 {
                assert(rest[i - 1] == s[i]);
            }
        }
    } else {
        assert(s.skip(0) == s);
    }
}

/// What `trim_end` gives is the start of the sequence up to the last
/// character that is no blank.
pub proof fn lemma_trim_end(s: Seq<char>)
    ensures
        trim_end(s).len() <= s.len(),
        trim_end(s) == s.take(trim_end(s).len() as int),
        forall|i: int| trim_end(s).len() <= i < s.len() ==> is_blank(#[trigger] s[i]),
        trim_end(s).len() > 0 ==> !is_blank(trim_end(s).last()),
    decreases s.len(),
{
    if s.len() > 0 && is_blank(s.last()) {
        let rest = s.drop_last();
        lemma_trim_end(rest);
        assert(rest.take(trim_end(rest).len() as int) == s.take(trim_end(rest).len() as int));
        assert forall|i: int| trim_end(s).len() <= i < s.len() implies is_blank(
            #[trigger] s[i],
        ) by {
            if i < rest.len() {
                assert(rest[i] == s[i]);
            }
        }
    } else {
        assert(s.take(s.len() as int) == s);
    }
}

/// The last place of a character holds the character, and nothing after
/// it does; where there is no such place, the character does not occur.
pub proof fn lemma_last_position(s: Seq<char>, c: char)
    ensures
        match last_position(s, c) {
            Some(k) => 0 <= k < s.len() && s[k] == c && forall|j: int|
                k < j < s.len() ==> s[j] != c,
            None => forall|j: int| 0 <= j < s.len() ==> s[j] != c,
        },
    decreases s.len(),
{
    if s.len() > 0 && s.last() != c {
        let rest = s.drop_last();
        lemma_last_position(rest, c);
        assert(forall|j: int| 0 <= j < rest.len() ==> rest[j] == s[j]);
    }
}

/// Where a word is found it occurs, and it occurs nowhere before; where it
/// is not found it occurs nowhere.
pub proof fn lemma_find(s: Seq<char>, word: Seq<char>)
    ensures
        match find(s, word) {
            Some(k) => 0 <= k <= s.len() && starts_with(s.skip(k), word) && forall|j: int|
                0 <= j < k ==> !starts_with(#[trigger] s.skip(j), word),
            None => forall|j: int| 0 <= j <= s.len() ==> !starts_with(#[trigger] s.skip(j), word),
        },
    decreases s.len(),
{
    assert(s.skip(0) == s);
    if !starts_with(s, word) && s.len() > 0 {
        let rest = s.skip(1);
        lemma_find(rest, word);
        assert forall|j: int| 1 <= j <= s.len() implies #[trigger] s.skip(j) == rest.skip(
            j - 1,
        ) by {
            assert(s.skip(j) =~= rest.skip(j - 1));
        }
        match find(rest, word) {
            Some(k) => {
                assert(s.skip(k + 1) == rest.skip(k));
                assert forall|j: int| 0 <= j < k + 1 implies !starts_with(
                    #[trigger] s.skip(j),
                    word,
                ) by {
                    if j > 0 {
                        assert(s.skip(j) == rest.skip(j - 1));
                    }
                }
            },
            None => {
                assert forall|j: int| 0 <= j <= s.len() implies !starts_with(
                    #[trigger] s.skip(j),
                    word,
                ) by {
                    if j > 0 {
                        assert(s.skip(j) == rest.skip(j - 1));
                    }
                }
            },
        }
    }
}

/// No line holds a newline, and a text has no more lines than characters.
pub proof fn lemma_split_lines(s: Seq<char>)
    ensures
        split_lines(s).len() <= s.len(),
        forall|i: int, j: int|
            0 <= i < split_lines(s).len() && 0 <= j < split_lines(s)[i].len() ==> split_lines(
                s,
            )[i][j] != '\n',
    decreases s.len(),
{
    if s.len() > 0 {
        let k = position(s, '\n');
        lemma_position(s, '\n');
        if 0 <= k < s.len() {
            let rest = s.skip(k + 1);
            lemma_split_lines(rest);
            let lines = split_lines(s);
            assert forall|i: int, j: int|
                0 <= i < lines.len() && 0 <= j < lines[i].len() implies lines[i][j] != '\n' by {
                if i == 0 {
                    assert(lines[0] == s.take(k));
                    assert(lines[0][j] == s[j]);
                } else {
                    assert(lines[i] == split_lines(rest)[i - 1]);
                }
            }
        }
    }
}

/// Leading digits never write more than the whole run does.
pub proof fn lemma_decimal_value_grows(s: Seq<char>, n: int)
    requires
        0 <= n <= s.len(),
        all_digits(s),
    ensures
        decimal_value(s.take(n)) <= decimal_value(s),
    decreases s.len() - n,
{
    if n < s.len() {
        lemma_decimal_value_grows(s, n + 1);
        assert(s.take(n + 1).drop_last() == s.take(n));
        assert(is_digit(s[n]));
        assert(s.take(n + 1).last() == s[n]);
    } else {
        assert(s.take(n) == s);
    }
}

/// Whether `c` is a blank.
pub fn blank(c: char) -> (r: bool)
    ensures
        r == is_blank(c),
{
    c == ' ' || c == '\t' || c == '\r'
}

/// `s` without its leading blanks.
pub fn skip_blanks<'a>(s: &'a [char]) -> (r: &'a [char])
    ensures
        r@ == trim_start(s@),
        r.len() <= s.len(),
{
    let mut from: usize = 0;
    assert(s@.skip(0) == s@);
    while from < s.len() && blank(s[from])
        invariant
            from <= s.len(),
            trim_start(s@) == trim_start(s@.skip(from as int)),
        decreases s.len() - from,
    {
        assert(s@.skip(from as int).skip(1) == s@.skip(from + 1));
        from = from + 1;
    }
    tail(s, from)
}

/// `s` without its leading and trailing blanks.
pub fn trimmed<'a>(s: &'a [char]) -> (r: &'a [char])
    ensures
        r@ == trim(s@),
{
    let mut from: usize = 0;
    assert(s@.skip(0) == s@);
    while from < s.len() && blank(s[from])
        invariant
            from <= s.len(),
            trim_start(s@) == trim_start(s@.skip(from as int)),
        decreases s.len() - from,
    {
        assert(s@.skip(from as int).skip(1) == s@.skip(from + 1));
        from = from + 1;
    }
    let ghost front = s@.skip(from as int);
    assert(trim_start(s@) == front);
    let mut to: usize = s.len();
    assert(front.take(front.len() as int) == front);
    while to > from && blank(s[to - 1])
        invariant
            from <= to <= s.len(),
            front == s@.skip(from as int),
            trim_end(front) == trim_end(front.take(to - from)),
        decreases to,
    {
        assert(front.take(to - from).last() == s@[to - 1]);
        assert(front.take(to - from).drop_last() == front.take(to - from - 1));
        to = to - 1;
    }
    assert(front.take(to - from) == s@.subrange(from as int, to as int));
    if to > from {
        assert(front.take(to - from).last() == s@[to - 1]);
    }
    slice_subrange(s, from, to)
}

/// The place of the first `c` in `s`, or the length of `s`.
pub fn first_position(s: &[char], c: char) -> (k: usize)
    ensures
        k == position(s@, c),
        k <= s.len(),
{
    let mut i: usize = 0;
    assert(s@.skip(0) == s@);
    while i < s.len() && s[i] != c
        invariant
            i <= s.len(),
            position(s@, c) == i + position(s@.skip(i as int), c),
        decreases s.len() - i,
    {
        assert(s@.skip(i as int).skip(1) == s@.skip(i + 1));
        i = i + 1;
    }
    i
}

/// The place of the last `c` in `s`.
pub fn final_position(s: &[char], c: char) -> (r: Option<usize>)
    ensures
        match r {
            Some(k) => last_position(s@, c) == Some(k as int) && k < s.len(),
            None => last_position(s@, c) is None,
        },
{
    let mut j: usize = s.len();
    assert(s@.take(j as int) == s@);
    while j > 0 && s[j - 1] != c
        invariant
            j <= s.len(),
            last_position(s@, c) == last_position(s@.take(j as int), c),
        decreases j,
    {
        assert(s@.take(j as int).drop_last() == s@.take(j - 1));
        j = j - 1;
    }
    if j > 0 {
        assert(s@.take(j as int).last() == s@[j - 1]);
        Some(j - 1)
    } else {
        None
    }
}

/// The first place at which `word` occurs in `s`.
pub fn find_word(s: &[char], word: &str) -> (r: Option<usize>)
    ensures
        match r {
            Some(k) => find(s@, word@) == Some(k as int) && k + word@.len() <= s.len(),
            None => find(s@, word@) is None,
        },
{
    let mut i: usize = 0;
    assert(s@.skip(0) == s@);
    loop
        invariant
            i <= s.len(),
            find(s@, word@) == match find(s@.skip(i as int), word@) {
                Some(k) => Some(k + i),
                None => None,
            },
        decreases s.len() - i,
    {
        if strip_word(tail(s, i), word).is_some() {
            return Some(i);
        }
        if i == s.len() {
            return None;
        }
        assert(s@.skip(i as int).skip(1) == s@.skip(i + 1));
        i = i + 1;
    }
}

/// Reads `s` as a decimal number of at most 32 bits.
pub fn read_number(s: &[char]) -> (r: Option<u32>)
    ensures
        r == number(s@),
{
    if s.len() == 0 {
        return None;
    }
    let mut value: u32 = 0;
    let mut i: usize = 0;
    assert(s@.take(0) == Seq::<char>::empty());
    while i < s.len()
        invariant
            i <= s.len(),
            all_digits(s@.take(i as int)),
            value == decimal_value(s@.take(i as int)),
        decreases s.len() - i,
    {
        let c = s[i];
        if !(c >= '0' && c <= '9') {
            assert(!is_digit(s@[i as int]));
            return None;
        }
        let digit: u32 = c as u32 - '0' as u32;
        assert(s@.take(i + 1).drop_last() == s@.take(i as int));
        assert(s@.take(i + 1).last() == c);
        if value > (u32::MAX - digit) / 10 {
            proof {
                if all_digits(s@) {
                    lemma_decimal_value_grows(s@, i + 1);
                }
            }
            return None;
        }
        value = value * 10 + digit;
        i = i + 1;
    }
    assert(s@.take(i as int) == s@);
    Some(value)
}

/// The first `n` characters of `s`.
pub fn head<'a>(s: &'a [char], n: usize) -> (r: &'a [char])
    requires
        n <= s.len(),
    ensures
        r@ == s@.take(n as int),
{
    slice_subrange(s, 0, n)
}

/// `s` without its first `n` characters.
pub fn tail<'a>(s: &'a [char], n: usize) -> (r: &'a [char])
    requires
        n <= s.len(),
    ensures
        r@ == s@.skip(n as int),
{
    slice_subrange(s, n, s.len())
}

/// What follows `word` at the start of `s`, if `s` begins with it.
pub fn strip_word<'a>(s: &'a [char], word: &str) -> (r: Option<&'a [char]>)
    ensures
        match r {
            Some(rest) => after(s@, word@) == Some(rest@),
            None => after(s@, word@) is None,
        },
{
    let w = chars_of(word);
    if w.len() > s.len() {
        return None;
    }
    let mut i: usize = 0;
    while i < w.len()
        invariant
            i <= w.len() <= s.len(),
            w@ == word@,
            forall|k: int| 0 <= k < i ==> s@[k] == w@[k],
        decreases w.len() - i,
    {
        if s[i] != w[i] {
            assert(s@.take(w.len() as int)[i as int] != w@[i as int]);
            return None;
        }
        i = i + 1;
    }
    assert(s@.take(w.len() as int) =~= w@);
    Some(tail(s, w.len()))
}

/// Whether `s` is exactly `word`.
pub fn is_word(s: &[char], word: &str) -> (r: bool)
    ensures
        r == (s@ == word@),
{
    assert(s@.take(s@.len() as int) == s@);
    match strip_word(s, word) {
        Some(rest) => {
            assert(rest@.len() == s@.len() - word@.len());
            rest.len() == 0
        },
        None => false,
    }
}

/// The line that begins at `start`: where it ends, and where what follows
/// it begins.
pub fn line_at(text: &[char], start: usize) -> (r: (usize, usize))
    requires
        start < text.len(),
    ensures
        start <= r.0 <= r.1 <= text.len(),
        start < r.1,
        split_lines(text@.skip(start as int)) == seq![text@.subrange(start as int, r.0 as int)]
            + split_lines(text@.skip(r.1 as int)),
{
    let rest = tail(text, start);
    let k = first_position(rest, '\n');
    proof {
        assert(rest@.take(k as int) == text@.subrange(start as int, start + k));
        if k < rest.len() {
            assert(rest@.skip(k + 1) == text@.skip(start + k + 1));
        } else {
            assert(rest@.take(k as int) == rest@);
            assert(split_lines(text@.skip(text.len() as int)) == Seq::<Seq<char>>::empty());
            assert(seq![rest@] + Seq::<Seq<char>>::empty() == seq![rest@]);
        }
    }
    if k < rest.len() {
        (start + k, start + k + 1)
    } else {
        (text.len(), text.len())
    }
}

} // verus!
