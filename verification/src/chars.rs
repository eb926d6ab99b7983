//! Characters: their classes, runs of one class, and numbers in base ten.

use vstd::prelude::*;
use vstd::string::StrSliceExecFns;

verus! {

/// The classes of characters that can form a run of more than one character.
pub enum CharClass {
    /// Space, tab, line feed and carriage return.
    Space,
    /// The letters `a` to `z` and `A` to `Z`, and the underscore.
    Letter,
    /// The digits `0` to `9`.
    Digit,
}

pub open spec fn is_whitespace(c: char) -> bool {
    c == ' ' || c == '\t' || c == '\n' || c == '\r'
}

pub open spec fn is_letter(c: char) -> bool {
    ('a' <= c && c <= 'z') || ('A' <= c && c <= 'Z') || c == '_'
}

pub open spec fn is_digit(c: char) -> bool {
    '0' <= c && c <= '9'
}

pub open spec fn in_class(class: CharClass, c: char) -> bool {
    match class {
        CharClass::Space => is_whitespace(c),
        CharClass::Letter => is_letter(c),
        CharClass::Digit => is_digit(c),
    }
}

/// Whether every character of `text` belongs to `class`.
pub open spec fn all_in_class(class: CharClass, text: Seq<char>) -> bool {
    forall|i: int| 0 <= i < text.len() ==> in_class(class, #[trigger] text[i])
}

/// The character of `s` at index `i`, if there is one.
pub open spec fn char_at(s: Seq<char>, i: int) -> Option<char> {
    if 0 <= i < s.len() {
        Some(s[i])
    } else {
        None
    }
}

/// Whether `c` is a character and belongs to `class`.
pub open spec fn holds_class(class: CharClass, c: Option<char>) -> bool {
    match c {
        Some(c) => in_class(class, c),
        None => false,
    }
}

/// The index at which the longest run of `class` characters that begins at
/// `from` ends: that of the first character at or after `from` that is not in
/// `class`, or the length of `s` if there is none.
pub open spec fn run_end(s: Seq<char>, from: int, class: CharClass) -> int
    decreases s.len() - from,
{
    if 0 <= from < s.len() && in_class(class, s[from]) {
        run_end(s, from + 1, class)
    } else {
        from
    }
}

/// A run is made of characters of its class only, and it is maximal: it ends
/// at the end of the text or before a character of another class.
pub proof fn run_end_is_maximal(s: Seq<char>, from: int, class: CharClass)
    requires
        0 <= from <= s.len(),
    ensures
        from <= run_end(s, from, class) <= s.len(),
        all_in_class(class, s.subrange(from, run_end(s, from, class))),
        !holds_class(class, char_at(s, run_end(s, from, class))),
    decreases s.len() - from,
{
    if from < s.len() && in_class(class, s[from]) {
        run_end_is_maximal(s, from + 1, class);
        let end = run_end(s, from, class);
        assert forall|i: int| 0 <= i < end - from implies in_class(
            class,
            #[trigger] s.subrange(from, end)[i],
        ) by {
            if i > 0 {
                assert(s.subrange(from, end)[i] == s.subrange(from + 1, end)[i - 1]);
            }
        }
    }
}

/// The end of a run is determined by what it says of itself: an index
/// reached through characters of the class, at which no such character
/// stands, is the end of the run.
pub proof fn run_end_is_unique(s: Seq<char>, from: int, class: CharClass, end: int)
    requires
        0 <= from <= end <= s.len(),
        all_in_class(class, s.subrange(from, end)),
        !holds_class(class, char_at(s, end)),
    ensures
        run_end(s, from, class) == end,
    decreases end - from,
{
    if from < end {
        assert(s.subrange(from, end)[0] == s[from]);
        assert forall|i: int| 0 <= i < end - (from + 1) implies in_class(
            class,
            #[trigger] s.subrange(from + 1, end)[i],
        ) by {
            assert(s.subrange(from + 1, end)[i] == s.subrange(from, end)[i + 1]);
        }
        run_end_is_unique(s, from + 1, class, end);
    }
}

/// The number that a digit stands for.
pub open spec fn digit_value(c: char) -> int {
    c as int - '0' as int
}

/// The number that a run of digits denotes in base ten; zero for no digits.
pub open spec fn decimal(digits: Seq<char>) -> int
    decreases digits.len(),
{
    if digits.len() == 0 {
        0
    } else {
        decimal(digits.drop_last()) * 10 + digit_value(digits.last())
    }
}

/// A run of digits denotes no less than any of its beginnings, and nothing
/// negative.
pub proof fn decimal_grows(digits: Seq<char>, n: int)
    requires
        all_in_class(CharClass::Digit, digits),
        0 <= n <= digits.len(),
    ensures
        0 <= decimal(digits.take(n)) <= decimal(digits),
    decreases digits.len() - n,
{
    if n == digits.len() {
        assert(digits.take(n) =~= digits);
        decimal_is_natural(digits);
    } else {
        decimal_grows(digits, n + 1);
        let longer = digits.take(n + 1);
        assert(longer.drop_last() =~= digits.take(n));
        assert(longer.last() == digits[n]);
        decimal_is_natural(digits.take(n));
    }
}

/// A run of digits denotes nothing negative.
pub proof fn decimal_is_natural(digits: Seq<char>)
    requires
        all_in_class(CharClass::Digit, digits),
    ensures
        0 <= decimal(digits),
    decreases digits.len(),
{
    if digits.len() > 0 {
        assert(in_class(CharClass::Digit, digits[digits.len() - 1]));
        assert forall|i: int| 0 <= i < digits.drop_last().len() implies in_class(
            CharClass::Digit,
            #[trigger] digits.drop_last()[i],
        ) by {
            assert(digits.drop_last()[i] == digits[i]);
        }
        decimal_is_natural(digits.drop_last());
    }
}

/// Whether `c` is whitespace.
pub(crate) fn whitespace(c: char) -> (b: bool)
    ensures
        b == is_whitespace(c),
{
    c == ' ' || c == '\t' || c == '\n' || c == '\r'
}

/// Whether `c` is a digit.
pub(crate) fn digit(c: char) -> (b: bool)
    ensures
        b == is_digit(c),
{
    '0' <= c && c <= '9'
}

/// The number that a run of digits denotes, if an `i32` can hold it.
pub(crate) fn decimal_value(digits: &str) -> (value: Option<i32>)
    requires
        all_in_class(CharClass::Digit, digits@),
    ensures
        match value {
            Some(v) => v == decimal(digits@),
            None => decimal(digits@) > i32::MAX,
        },
{
    let n: usize = digits.unicode_len();
    let mut value: i32 = 0;
    let mut i: usize = 0;
    while i < n
        invariant
            n == digits@.len(),
            i <= n,
            all_in_class(CharClass::Digit, digits@),
            value == decimal(digits@.take(i as int)),
        decreases n - i,
    {
        let c = digits.get_char(i);
        assert(in_class(CharClass::Digit, digits@[i as int]));
        let d: i32 = (c as u32 - '0' as u32) as i32;
        proof {
            let longer = digits@.take(i + 1);
            assert(longer.drop_last() =~= digits@.take(i as int));
            assert(longer.last() == c);
            assert(decimal(longer) == value * 10 + d);
            decimal_grows(digits@, i + 1);
            decimal_grows(digits@, i as int);
        }
        if value > (i32::MAX - d) / 10 {
            return None;
        }
        value = value * 10 + d;
        i += 1;
    }
    assert(digits@.take(n as int) =~= digits@);
    Some(value)
}

} // verus!
