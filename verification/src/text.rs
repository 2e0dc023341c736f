//! Character-level helpers for the argument grammars: splitting at a
//! separator, trimming white space and reading an unsigned number.

use vstd::prelude::*;
use vstd::string::*;

verus! {

/// The characters that count as white space: those with the Unicode property
/// `White_Space`.
pub open spec fn is_space(c: char) -> bool {
    let code = c as u32;
    ||| 0x09 <= code <= 0x0d
    ||| code == 0x20
    ||| code == 0x85
    ||| code == 0xa0
    ||| code == 0x1680
    ||| 0x2000 <= code <= 0x200a
    ||| code == 0x2028
    ||| code == 0x2029
    ||| code == 0x202f
    ||| code == 0x205f
    ||| code == 0x3000
}

/// `s` without the white space at its beginning.
pub open spec fn trim_start(s: Seq<char>) -> Seq<char>
    decreases s.len(),
{
    if s.len() > 0 && is_space(s[0]) {
        trim_start(s.drop_first())
    } else {
        s
    }
}

/// `s` without the white space at its end.
pub open spec fn trim_end(s: Seq<char>) -> Seq<char>
    decreases s.len(),
{
    if s.len() > 0 && is_space(s.last()) {
        trim_end(s.drop_last())
    } else {
        s
    }
}

/// `s` without the white space at its beginning and at its end.
pub open spec fn trimmed(s: Seq<char>) -> Seq<char> {
    trim_end(trim_start(s))
}

/// The index of the first `c` in `s`, or the length of `s` if there is none.
pub open spec fn index_of(s: Seq<char>, c: char) -> int
    decreases s.len(),
{
    if s.len() == 0 || s[0] == c {
        0
    } else {
        1 + index_of(s.drop_first(), c)
    }
}

/// The pieces of `s` between the occurrences of `sep`: one more than there
/// are separators.
pub open spec fn split(s: Seq<char>, sep: char) -> Seq<Seq<char>>
    decreases s.len(),
{
    let i = index_of(s, sep);
    if 0 <= i < s.len() {
        seq![s.take(i)] + split(s.skip(i + 1), sep)
    } else {
        seq![s]
    }
}

/// Whether `c` is one of the ten ASCII digits.
pub open spec fn is_digit(c: char) -> bool {
    0x30 <= c as u32 <= 0x39
}

/// Whether `s` holds digits only.
pub open spec fn all_digits(s: Seq<char>) -> bool {
    forall|i: int| 0 <= i < s.len() ==> is_digit(#[trigger] s[i])
}

/// The number that a string of digits denotes.
pub open spec fn number(digits: Seq<char>) -> int
    decreases digits.len(),
{
    if digits.len() == 0 {
        0
    } else {
        number(digits.drop_last()) * 10 + (digits.last() as u32 - 0x30)
    }
}

/// The unsigned 16-bit number that `s` denotes: decimal digits, at least one,
/// behind an optional `+`, and not above 65535.
pub open spec fn parse_u16(s: Seq<char>) -> Option<u16> {
    let digits = if s.len() > 0 && s[0] == '+' {
        s.drop_first()
    } else {
        s
    };
    if digits.len() > 0 && all_digits(digits) && number(digits) <= 0xffff {
        Some(number(digits) as u16)
    } else {
        None
    }
}

/// The upper-case form of an ASCII letter; any other character as it is.
pub open spec fn upper(c: char) -> char {
    if 0x61 <= c as u32 <= 0x7a {
        ((c as u32 - 0x20) as u32) as char
    } else {
        c
    }
}

/// `s` with its ASCII letters in upper case.
pub open spec fn to_upper(s: Seq<char>) -> Seq<char> {
    Seq::new(s.len(), |i: int| upper(s[i]))
}

/// `index_of` is the least index that holds `c`.
pub proof fn lemma_index_of(s: Seq<char>, c: char, n: int)
    requires
        0 <= n <= s.len(),
        forall|k: int| 0 <= k < n ==> s[k] != c,
        n == s.len() || s[n] == c,
    ensures
        index_of(s, c) == n,
    decreases s.len(),
{
    if s.len() > 0 && s[0] != c {
        lemma_index_of(s.drop_first(), c, n - 1);
    }
}

/// What `split` yields behind position `from`, given the position `at` of the
/// next separator.
pub proof fn lemma_split_step(s: Seq<char>, sep: char, from: int, at: int)
    requires
        0 <= from <= at <= s.len(),
        at - from == index_of(s.skip(from), sep),
    ensures
        split(s.skip(from), sep) == if at < s.len() {
            seq![s.subrange(from, at)] + split(s.skip(at + 1), sep)
        } else {
            seq![s.subrange(from, at)]
        },
{
    let rest = s.skip(from);
    assert(rest.take(at - from) =~= s.subrange(from, at));
    if at < s.len() {
        assert(rest.skip(at - from + 1) =~= s.skip(at + 1));
    } else {
        assert(rest =~= s.subrange(from, at));
    }
}

/// A string of digits with more digits behind it denotes no smaller number.
pub proof fn lemma_number_grows(digits: Seq<char>, n: int)
    requires
        0 <= n <= digits.len(),
        all_digits(digits),
    ensures
        0 <= number(digits.take(n)) <= number(digits),
    decreases digits.len() - n,
{
    if n == digits.len() {
        assert(digits.take(n) =~= digits);
        lemma_number_nonnegative(digits);
    } else {
        lemma_number_grows(digits, n + 1);
        assert(digits.take(n + 1).drop_last() =~= digits.take(n));
        lemma_number_nonnegative(digits.take(n));
    }
}

/// A string of digits denotes a number that is not negative.
pub proof fn lemma_number_nonnegative(digits: Seq<char>)
    requires
        all_digits(digits),
    ensures
        0 <= number(digits),
    decreases digits.len(),
{
    if digits.len() > 0 {
        lemma_number_nonnegative(digits.drop_last());
    }
}

/// The characters of a string.
pub fn chars_of(s: &str) -> (chars: Vec<char>)
    ensures
        chars@ == s@,
{
    let n = s.unicode_len();
    let mut chars: Vec<char> = Vec::new();
    let mut i: usize = 0;
    while i < n
        invariant
            i <= n,
            n == s@.len(),
            chars@ == s@.take(i as int),
        decreases n - i,
    {
        chars.push(s.get_char(i));
        assert(s@.take(i + 1) =~= s@.take(i as int).push(s@[i as int]));
        i += 1;
    }
    assert(s@.take(n as int) =~= s@);
    chars
}

/// Whether `c` counts as white space.
pub fn is_whitespace(c: char) -> (space: bool)
    ensures
        space == is_space(c),
{
    let code = c as u32;
    (0x09 <= code && code <= 0x0d) || code == 0x20 || code == 0x85 || code == 0xa0 || code
        == 0x1680 || (0x2000 <= code && code <= 0x200a) || code == 0x2028 || code == 0x2029
        || code == 0x202f || code == 0x205f || code == 0x3000
}

/// The index of the first `c` in `s[from..to]`, or `to` if there is none.
pub fn find(s: &Vec<char>, from: usize, to: usize, c: char) -> (at: usize)
    requires
        from <= to <= s@.len(),
    ensures
        from <= at <= to,
        at - from == index_of(s@.subrange(from as int, to as int), c),
{
    let mut at = from;
    while at < to && s[at] != c
        invariant
            from <= at <= to <= s@.len(),
            forall|k: int| from <= k < at ==> s@[k] != c,
        decreases to - at,
    {
        at += 1;
    }
    proof {
        lemma_index_of(s@.subrange(from as int, to as int), c, at - from);
    }
    at
}

/// The bounds of `s[from..to]` without the white space at its two ends.
pub fn trim(s: &Vec<char>, from: usize, to: usize) -> (bounds: (usize, usize))
    requires
        from <= to <= s@.len(),
    ensures
        from <= bounds.0 <= bounds.1 <= to,
        s@.subrange(bounds.0 as int, bounds.1 as int) == trimmed(
            s@.subrange(from as int, to as int),
        ),
{
    let mut a = from;
    while a < to && is_whitespace(s[a])
        invariant
            from <= a <= to <= s@.len(),
            trim_start(s@.subrange(from as int, to as int)) == trim_start(
                s@.subrange(a as int, to as int),
            ),
        decreases to - a,
    {
        assert(s@.subrange(a as int, to as int).drop_first() =~= s@.subrange(a + 1, to as int));
        a += 1;
    }
    assert(trim_start(s@.subrange(a as int, to as int)) == s@.subrange(a as int, to as int));
    let mut b = to;
    while a < b && is_whitespace(s[b - 1])
        invariant
            a <= b <= to <= s@.len(),
            trim_end(s@.subrange(a as int, to as int)) == trim_end(
                s@.subrange(a as int, b as int),
            ),
        decreases b - a,
    {
        assert(s@.subrange(a as int, b as int).drop_last() =~= s@.subrange(a as int, b - 1));
        b -= 1;
    }
    assert(trim_end(s@.subrange(a as int, b as int)) == s@.subrange(a as int, b as int));
    (a, b)
}

/// Reads `s[from..to]` as an unsigned 16-bit number.
pub fn read_u16(s: &Vec<char>, from: usize, to: usize) -> (value: Option<u16>)
    requires
        from <= to <= s@.len(),
    ensures
        value == parse_u16(s@.subrange(from as int, to as int)),
{
    let ghost whole = s@.subrange(from as int, to as int);
    let start: usize = if from < to && s[from] == '+' {
        from + 1
    } else {
        from
    };
    let ghost digits = s@.subrange(start as int, to as int);
    assert(digits =~= if whole.len() > 0 && whole[0] == '+' {
        whole.drop_first()
    } else {
        whole
    });
    if start == to {
        return None;
    }
    let mut value: u32 = 0;
    let mut i = start;
    while i < to
        invariant
            start <= i <= to <= s@.len(),
            from <= start,
            whole == s@.subrange(from as int, to as int),
            digits == s@.subrange(start as int, to as int),
            digits == if whole.len() > 0 && whole[0] == '+' {
                whole.drop_first()
            } else {
                whole
            },
            all_digits(digits.take(i - start)),
            value == number(digits.take(i - start)),
            value <= 0xffff,
        decreases to - i,
    {
        let code = s[i] as u32;
        if code < 0x30 || code > 0x39 {
            assert(!is_digit(digits[i - start]));
            return None;
        }
        assert(digits.take(i - start + 1).drop_last() =~= digits.take(i - start));
        value = value * 10 + (code - 0x30);
        if value > 0xffff {
            proof {
                if all_digits(digits) {
                    lemma_number_grows(digits, i - start + 1);
                }
            }
            return None;
        }
        i += 1;
    }
    assert(digits.take(to - start) =~= digits);
    Some(value as u16)
}

/// Whether `s[from..to]`, with its ASCII letters in upper case, is `word`.
pub fn is_word(s: &Vec<char>, from: usize, to: usize, word: &Vec<char>) -> (same: bool)
    requires
        from <= to <= s@.len(),
    ensures
        same == (to_upper(s@.subrange(from as int, to as int)) == word@),
{
    let ghost token = to_upper(s@.subrange(from as int, to as int));
    if to - from != word.len() {
        return false;
    }
    let mut i: usize = 0;
    while i < word.len()
        invariant
            from <= to <= s@.len(),
            to - from == word@.len(),
            i <= word@.len(),
            token == to_upper(s@.subrange(from as int, to as int)),
            forall|k: int| 0 <= k < i ==> token[k] == word@[k],
        decreases word@.len() - i,
    {
        if to_upper_char(s[from + i]) != word[i] {
            assert(token[i as int] != word@[i as int]);
            return false;
        }
        i += 1;
    }
    assert(token =~= word@);
    true
}

/// The upper-case form of an ASCII letter; any other character as it is.
pub fn to_upper_char(c: char) -> (u: char)
    ensures
        u == upper(c),
{
    let code = c as u32;
    if 0x61 <= code && code <= 0x7a {
        (code - 0x20) as u8 as char
    } else {
        c
    }
}

} // verus!
