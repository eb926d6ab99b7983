//! What tokenizing means: the token that begins at a cursor, the tokens of
//! a whole text, and what holds of them.

use vstd::prelude::*;
use crate::chars::{
    CharClass, all_in_class, char_at, decimal, decimal_is_natural, holds_class, in_class,
    is_digit, is_letter, is_whitespace, run_end, run_end_is_maximal,
};
use crate::token::{TokenView, keyword, keyword_or_ident};

verus! {

/// The token that a single character stands for, if it is one of the fixed
/// symbols.
pub open spec fn symbol(c: char) -> Option<TokenView> {
    if c == '=' {
        Some(TokenView::Assign)
    } else if c == '+' {
        Some(TokenView::Plus)
    } else if c == '<' {
        Some(TokenView::LT)
    } else if c == '>' {
        Some(TokenView::GT)
    } else if c == ';' {
        Some(TokenView::Semicolon)
    } else if c == '{' {
        Some(TokenView::LBrace)
    } else if c == '}' {
        Some(TokenView::RBrace)
    } else if c == '(' {
        Some(TokenView::LParen)
    } else if c == ')' {
        Some(TokenView::RParen)
    } else if c == ',' {
        Some(TokenView::Comma)
    } else {
        None
    }
}

/// One step of tokenizing: the token found, and the cursor behind it.
pub struct Scan {
    pub token: TokenView,
    pub cursor: int,
}

/// The token that begins at or after `from` in `s`, whitespace skipped, and
/// the index of the first character behind it.
///
/// A symbol is one character long, and so is a character that begins no
/// token. A name is the longest run of letters, a number the longest run of
/// digits. Where only whitespace is left, the token is `EOF` and the cursor
/// stands at the end.
pub open spec fn scan(s: Seq<char>, from: int) -> Scan {
    let start = run_end(s, from, CharClass::Space);
    match char_at(s, start) {
        None => Scan { token: TokenView::EOF, cursor: start },
        Some(c) => match symbol(c) {
            Some(token) => Scan { token, cursor: start + 1 },
            None => if is_letter(c) {
                let end = run_end(s, start, CharClass::Letter);
                Scan { token: keyword_or_ident(s.subrange(start, end)), cursor: end }
            } else if is_digit(c) {
                let end = run_end(s, start, CharClass::Digit);
                Scan { token: TokenView::Int(decimal(s.subrange(start, end))), cursor: end }
            } else {
                Scan { token: TokenView::Illegal(c), cursor: start + 1 }
            },
        },
    }
}

/// Whether a `Token` can hold `token`: an integer literal has to fit in an
/// `i32`.
pub open spec fn representable(token: TokenView) -> bool {
    token matches TokenView::Int(value) ==> value <= i32::MAX
}

/// What holds of every token that a step yields: a number is not negative,
/// and a name is a run of letters, at least one, that spells no keyword.
pub open spec fn lexed(token: TokenView) -> bool {
    match token {
        TokenView::Int(value) => value >= 0,
        TokenView::Ident(name) => {
            &&& name.len() > 0
            &&& all_in_class(CharClass::Letter, name)
            &&& keyword(name) is None
        },
        _ => true,
    }
}

/// The tokens of `s` from the cursor `from` on, up to and including the one
/// `EOF` that ends them.
pub open spec fn tokens_from(s: Seq<char>, from: int) -> Seq<TokenView>
    decreases s.len() - from,
{
    let step = scan(s, from);
    if step.token is EOF {
        seq![TokenView::EOF]
    } else {
        proof {
            scan_advances(s, from);
        }
        seq![step.token] + tokens_from(s, step.cursor)
    }
}

/// A step never moves the cursor back. A step that yields a token other
/// than `EOF` starts inside the text, takes at least one character and ends
/// inside the text or at its end.
pub proof fn scan_advances(s: Seq<char>, from: int)
    ensures
        from <= scan(s, from).cursor,
        0 <= from <= s.len() ==> scan(s, from).cursor <= s.len(),
        !(scan(s, from).token is EOF) ==> 0 <= from < scan(s, from).cursor <= s.len(),
{
    let start = run_end(s, from, CharClass::Space);
    if 0 <= from <= s.len() {
        run_end_is_maximal(s, from, CharClass::Space);
        if start < s.len() {
            run_end_is_maximal(s, start, CharClass::Letter);
            run_end_is_maximal(s, start, CharClass::Digit);
        }
    }
}

/// Whitespace before a token belongs to no token: a step from `from` is the
/// step from the first character at or after `from` that is no whitespace.
pub proof fn whitespace_is_skipped(s: Seq<char>, from: int)
    requires
        0 <= from <= s.len(),
    ensures
        all_in_class(CharClass::Space, s.subrange(from, run_end(s, from, CharClass::Space))),
        scan(s, from) == scan(s, run_end(s, from, CharClass::Space)),
{
    run_end_is_maximal(s, from, CharClass::Space);
    let start = run_end(s, from, CharClass::Space);
    assert(run_end(s, start, CharClass::Space) == start);
}

/// Every token is a maximal run of its class. Let `text` be the characters
/// from the first that is no whitespace up to the cursor behind the token:
/// it holds no whitespace; for a name or a keyword it is made of letters,
/// for a number of digits, and what follows it is no letter or no digit; a
/// symbol and an illegal character are one character; `EOF` has no text
/// and stands at the end.
pub proof fn token_is_a_maximal_run(s: Seq<char>, from: int)
    requires
        0 <= from <= s.len(),
    ensures
        ({
            let start = run_end(s, from, CharClass::Space);
            let step = scan(s, from);
            let text = s.subrange(start, step.cursor);
            &&& from <= start <= step.cursor <= s.len()
            &&& forall|i: int| 0 <= i < text.len() ==> !is_whitespace(#[trigger] text[i])
            &&& match step.token {
                TokenView::EOF => start == s.len() && step.cursor == s.len(),
                TokenView::Illegal(c) => text == seq![c] && symbol(c) is None && !is_letter(c)
                    && !is_digit(c),
                TokenView::Int(value) => {
                    &&& text.len() > 0
                    &&& all_in_class(CharClass::Digit, text)
                    &&& !holds_class(CharClass::Digit, char_at(s, step.cursor))
                    &&& value == decimal(text)
                },
                TokenView::Ident(name) => {
                    &&& name == text
                    &&& text.len() > 0
                    &&& all_in_class(CharClass::Letter, text)
                    &&& !holds_class(CharClass::Letter, char_at(s, step.cursor))
                    &&& keyword(text) is None
                },
                token => if keyword(text) == Some(token) {
                    &&& all_in_class(CharClass::Letter, text)
                    &&& !holds_class(CharClass::Letter, char_at(s, step.cursor))
                } else {
                    text.len() == 1 && symbol(text[0]) == Some(token)
                },
            }
        }),
{
    let start = run_end(s, from, CharClass::Space);
    let step = scan(s, from);
    let text = s.subrange(start, step.cursor);
    run_end_is_maximal(s, from, CharClass::Space);
    if start < s.len() {
        run_end_is_maximal(s, start, CharClass::Letter);
        run_end_is_maximal(s, start, CharClass::Digit);
        let c = s[start];
        assert(text[0] == c);
        if symbol(c) is None && is_letter(c) {
            assert forall|i: int| 0 <= i < text.len() implies !is_whitespace(
                #[trigger] text[i],
            ) by {
                assert(in_class(CharClass::Letter, text[i]));
            }
        } else if symbol(c) is None && is_digit(c) {
            assert forall|i: int| 0 <= i < text.len() implies !is_whitespace(
                #[trigger] text[i],
            ) by {
                assert(in_class(CharClass::Digit, text[i]));
            }
        } else {
            assert(text =~= seq![c]);
        }
    }
}

/// `lexed` holds of the token of every step.
pub proof fn scan_yields_lexed(s: Seq<char>, from: int)
    ensures
        lexed(scan(s, from).token),
{
    let start = run_end(s, from, CharClass::Space);
    if 0 <= start < s.len() {
        run_end_is_maximal(s, start, CharClass::Letter);
        run_end_is_maximal(s, start, CharClass::Digit);
        decimal_is_natural(s.subrange(start, run_end(s, start, CharClass::Digit)));
    }
}

/// At the end of the input the tokenizer stays: once a step yields `EOF`,
/// the step from where it left the cursor yields `EOF` too and leaves the
/// cursor where it is, and so does every step after it.
pub proof fn end_of_input_repeats(s: Seq<char>, from: int)
    requires
        scan(s, from).token is EOF,
    ensures
        scan(s, scan(s, from).cursor) == scan(s, from),
{
}

/// The tokens of a text end with `EOF`, and no token before the last is
/// `EOF`. They are no more than the characters from the cursor on, and the
/// `EOF`.
pub proof fn tokens_end_with_eof(s: Seq<char>, from: int)
    ensures
        tokens_from(s, from).len() >= 1,
        tokens_from(s, from).last() is EOF,
        forall|i: int|
            0 <= i < tokens_from(s, from).len() - 1 ==> !(#[trigger] tokens_from(s, from)[i] is EOF),
        0 <= from <= s.len() ==> tokens_from(s, from).len() <= s.len() - from + 1,
    decreases s.len() - from,
{
    let step = scan(s, from);
    if !(step.token is EOF) {
        scan_advances(s, from);
        tokens_end_with_eof(s, step.cursor);
    }
}

/// `lexed` holds of every token of a text.
pub proof fn tokens_are_lexed(s: Seq<char>, from: int)
    ensures
        forall|i: int|
            0 <= i < tokens_from(s, from).len() ==> lexed(#[trigger] tokens_from(s, from)[i]),
    decreases s.len() - from,
{
    let step = scan(s, from);
    scan_yields_lexed(s, from);
    if !(step.token is EOF) {
        scan_advances(s, from);
        tokens_are_lexed(s, step.cursor);
        let all = tokens_from(s, from);
        let rest = tokens_from(s, step.cursor);
        assert forall|i: int| 0 <= i < all.len() implies lexed(#[trigger] all[i]) by {
            if i > 0 {
                assert(all[i] == rest[i - 1]);
            }
        }
    }
}

/// Whether every character of `s` is one of the fixed symbols.
pub open spec fn symbols_only(s: Seq<char>) -> bool {
    forall|i: int| 0 <= i < s.len() ==> symbol(#[trigger] s[i]) is Some
}

/// The tokens that the symbols of `s` stand for, one for each character.
pub open spec fn symbol_tokens(s: Seq<char>) -> Seq<TokenView> {
    Seq::new(s.len(), |i: int| symbol(s[i])->0)
}

/// In a text of symbols only, the step at each character yields the token
/// of that character and moves the cursor by one.
pub proof fn symbol_is_one_step(s: Seq<char>, i: int)
    requires
        symbols_only(s),
        0 <= i < s.len(),
    ensures
        scan(s, i) == (Scan { token: symbol(s[i])->0, cursor: i + 1 }),
{
    assert(symbol(s[i]) is Some);
}

/// A text of symbols only yields exactly the tokens of its symbols, in
/// their order, and then one `EOF`.
pub proof fn symbols_yield_their_tokens(s: Seq<char>)
    requires
        symbols_only(s),
    ensures
        tokens_from(s, 0) == symbol_tokens(s).push(TokenView::EOF),
{
    symbols_from(s, 0);
    assert(s.subrange(0, s.len() as int) =~= s);
}

proof fn symbols_from(s: Seq<char>, from: int)
    requires
        symbols_only(s),
        0 <= from <= s.len(),
    ensures
        tokens_from(s, from) == symbol_tokens(s.subrange(from, s.len() as int)).push(
            TokenView::EOF,
        ),
    decreases s.len() - from,
{
    let rest = s.subrange(from, s.len() as int);
    if from < s.len() {
        symbol_is_one_step(s, from);
        symbols_from(s, from + 1);
        let behind = s.subrange(from + 1, s.len() as int);
        assert(tokens_from(s, from) =~= symbol_tokens(rest).push(TokenView::EOF)) by {
            assert(symbol_tokens(rest).len() == symbol_tokens(behind).len() + 1);
            assert forall|i: int| 0 <= i < symbol_tokens(behind).len() implies symbol_tokens(
                behind,
            )[i] == symbol_tokens(rest)[i + 1] by {
                assert(behind[i] == rest[i + 1]);
            }
            assert(symbol_tokens(rest)[0] == symbol(s[from])->0);
        }
    } else {
        assert(tokens_from(s, from) =~= symbol_tokens(rest).push(TokenView::EOF));
    }
}

} // verus!
