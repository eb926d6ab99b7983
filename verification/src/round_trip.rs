//! The way back from a tree to a text, and the proof that tokenizing and
//! parsing undo it.

use vstd::prelude::*;
use crate::ast::Expr;
use crate::chars::{
    CharClass, all_in_class, decimal, in_class, run_end, run_end_is_maximal, run_end_is_unique,
};
use crate::grammar::{
    expression_at, expression_end, expression_shape, expression_tree, is_primary, leaf,
    left_chain, operand_index, operands, operator_count,
};
use crate::scan::{
    Scan, lexed, scan, scan_advances, tokens_are_lexed, tokens_end_with_eof, tokens_from,
};
use crate::token::TokenView;

verus! {

/// The digit that stands for `d`, for `d` from 0 to 9.
pub open spec fn digit_char(d: int) -> char {
    ('0' as int + d) as char
}

/// The digits of `n` in base ten, without leading zeros.
pub open spec fn decimal_digits(n: nat) -> Seq<char>
    decreases n,
{
    if n < 10 {
        seq![digit_char(n as int)]
    } else {
        decimal_digits(n / 10).push(digit_char((n % 10) as int))
    }
}

/// The text of a tree in infix form: a number in base ten, a name as it is,
/// a sum as its two sides with a `+` between them.
pub open spec fn infix(tree: Expr) -> Seq<char>
    decreases tree,
{
    match tree {
        Expr::Int(value) => if value >= 0 {
            decimal_digits(value as nat)
        } else {
            seq!['-'] + decimal_digits((-value) as nat)
        },
        Expr::Ident(name) => name,
        Expr::Add(left, right) => infix(*left) + seq!['+'] + infix(*right),
    }
}

/// The digits of a number are digits, at least one, and denote the number.
pub proof fn decimal_digits_denote(n: nat)
    ensures
        decimal_digits(n).len() > 0,
        all_in_class(CharClass::Digit, decimal_digits(n)),
        decimal(decimal_digits(n)) == n,
    decreases n,
{
    if n < 10 {
        let digits = decimal_digits(n);
        assert(digits.drop_last() =~= Seq::<char>::empty());
        assert(decimal(digits.drop_last()) == 0);
    } else {
        decimal_digits_denote(n / 10);
        let front = decimal_digits(n / 10);
        let digits = decimal_digits(n);
        assert(digits.drop_last() =~= front);
        assert forall|i: int| 0 <= i < digits.len() implies in_class(
            CharClass::Digit,
            #[trigger] digits[i],
        ) by {
            if i < front.len() {
                assert(digits[i] == front[i]);
            }
        }
    }
}

/// A run in a text does not change when the text goes on behind it with a
/// character of another class.
proof fn run_end_before_stop(a: Seq<char>, rest: Seq<char>, from: int, class: CharClass)
    requires
        0 <= from <= a.len(),
        rest.len() > 0,
        !in_class(class, rest[0]),
    ensures
        run_end(a + rest, from, class) == run_end(a, from, class),
{
    let end = run_end(a, from, class);
    run_end_is_maximal(a, from, class);
    assert((a + rest).subrange(from, end) =~= a.subrange(from, end));
    run_end_is_unique(a + rest, from, class, end);
}

/// A run in a text moves along when the text is put behind another.
proof fn run_end_shifts(front: Seq<char>, b: Seq<char>, from: int, class: CharClass)
    requires
        0 <= from <= b.len(),
    ensures
        run_end(front + b, front.len() + from, class) == front.len() + run_end(b, from, class),
{
    let end = run_end(b, from, class);
    run_end_is_maximal(b, from, class);
    assert((front + b).subrange(front.len() + from, front.len() + end) =~= b.subrange(from, end));
    run_end_is_unique(front + b, front.len() + from, class, front.len() + end);
}

/// A step in a text that is followed by `+` and more text: it is the step
/// in the text alone, but that where the text alone is at its end, the
/// step yields the `+`.
proof fn scan_before_plus(a: Seq<char>, b: Seq<char>, from: int)
    requires
        0 <= from <= a.len(),
    ensures
        scan(a + seq!['+'] + b, from) == if scan(a, from).token is EOF {
            Scan { token: TokenView::Plus, cursor: a.len() as int + 1 }
        } else {
            scan(a, from)
        },
{
    let rest = seq!['+'] + b;
    let whole = a + seq!['+'] + b;
    assert(whole =~= a + rest);
    run_end_before_stop(a, rest, from, CharClass::Space);
    run_end_is_maximal(a, from, CharClass::Space);
    let start = run_end(a, from, CharClass::Space);
    if start < a.len() {
        assert(whole[start] == a[start]);
        run_end_before_stop(a, rest, start, CharClass::Letter);
        run_end_before_stop(a, rest, start, CharClass::Digit);
        run_end_is_maximal(a, start, CharClass::Letter);
        run_end_is_maximal(a, start, CharClass::Digit);
        let letters = run_end(a, start, CharClass::Letter);
        let digits = run_end(a, start, CharClass::Digit);
        assert(whole.subrange(start, letters) =~= a.subrange(start, letters));
        assert(whole.subrange(start, digits) =~= a.subrange(start, digits));
    } else {
        assert(whole[start] == '+');
    }
}

/// A step in a text that stands behind another text: it is the step in the
/// text alone, moved along.
proof fn scan_shifts(front: Seq<char>, b: Seq<char>, from: int)
    requires
        0 <= from <= b.len(),
    ensures
        scan(front + b, front.len() + from) == (Scan {
            token: scan(b, from).token,
            cursor: front.len() + scan(b, from).cursor,
        }),
{
    let whole = front + b;
    let shift = front.len() as int;
    run_end_shifts(front, b, from, CharClass::Space);
    run_end_is_maximal(b, from, CharClass::Space);
    let start = run_end(b, from, CharClass::Space);
    if start < b.len() {
        assert(whole[shift + start] == b[start]);
        run_end_shifts(front, b, start, CharClass::Letter);
        run_end_shifts(front, b, start, CharClass::Digit);
        run_end_is_maximal(b, start, CharClass::Letter);
        run_end_is_maximal(b, start, CharClass::Digit);
        let letters = run_end(b, start, CharClass::Letter);
        let digits = run_end(b, start, CharClass::Digit);
        assert(whole.subrange(shift + start, shift + letters) =~= b.subrange(start, letters));
        assert(whole.subrange(shift + start, shift + digits) =~= b.subrange(start, digits));
    }
}

/// The tokens of a text that stands behind another text are those of the
/// text alone.
proof fn tokens_shift(front: Seq<char>, b: Seq<char>, from: int)
    requires
        0 <= from <= b.len(),
    ensures
        tokens_from(front + b, front.len() + from) == tokens_from(b, from),
    decreases b.len() - from,
{
    scan_shifts(front, b, from);
    if !(scan(b, from).token is EOF) {
        scan_advances(b, from);
        tokens_shift(front, b, scan(b, from).cursor);
    }
}

/// The tokens from `from` on of a text that is followed by `+` and more
/// text: those of the text alone without its `EOF`, the `+`, and those of
/// what follows.
proof fn tokens_before_plus(a: Seq<char>, b: Seq<char>, from: int)
    requires
        0 <= from <= a.len(),
    ensures
        tokens_from(a + seq!['+'] + b, from) == tokens_from(a, from).drop_last() + seq![
            TokenView::Plus,
        ] + tokens_from(b, 0),
    decreases a.len() - from,
{
    let whole = a + seq!['+'] + b;
    scan_before_plus(a, b, from);
    if scan(a, from).token is EOF {
        tokens_shift(a + seq!['+'], b, 0);
        assert(tokens_from(a, from).drop_last() =~= Seq::<TokenView>::empty());
        assert(tokens_from(whole, from) =~= tokens_from(a, from).drop_last() + seq![
            TokenView::Plus,
        ] + tokens_from(b, 0));
    } else {
        scan_advances(a, from);
        let next = scan(a, from).cursor;
        tokens_before_plus(a, b, next);
        tokens_end_with_eof(a, next);
        assert(tokens_from(a, from).drop_last() =~= seq![scan(a, from).token] + tokens_from(
            a,
            next,
        ).drop_last());
        assert(tokens_from(whole, from) =~= tokens_from(a, from).drop_last() + seq![
            TokenView::Plus,
        ] + tokens_from(b, 0));
    }
}

/// The tokens of two texts with a `+` between them: those of the first
/// without its `EOF`, the `+`, and those of the second.
pub proof fn tokens_of_sum(left: Seq<char>, right: Seq<char>)
    ensures
        tokens_from(left + seq!['+'] + right, 0) == tokens_from(left, 0).drop_last() + seq![
            TokenView::Plus,
        ] + tokens_from(right, 0),
{
    tokens_before_plus(left, right, 0);
}

/// The text of a leaf that came from the tokenizer yields that token
/// again, and nothing more.
pub proof fn tokens_of_leaf(token: TokenView)
    requires
        is_primary(token),
        lexed(token),
    ensures
        tokens_from(infix(leaf(token)), 0) == seq![token, TokenView::EOF],
{
    let text = infix(leaf(token));
    match token {
        TokenView::Int(value) => {
            decimal_digits_denote(value as nat);
            assert(in_class(CharClass::Digit, text[0]));
            run_end_is_unique(text, 0, CharClass::Digit, text.len() as int);
        },
        TokenView::Ident(name) => {
            assert(in_class(CharClass::Letter, text[0]));
            run_end_is_unique(text, 0, CharClass::Letter, text.len() as int);
        },
        _ => {},
    }
    assert(text.subrange(0, text.len() as int) =~= text);
    assert(scan(text, 0) == Scan { token, cursor: text.len() as int });
    assert(scan(text, text.len() as int).token is EOF);
    assert(tokens_from(text, text.len() as int) =~= seq![TokenView::EOF]);
    assert(tokens_from(text, 0) =~= seq![token, TokenView::EOF]);
}

/// The text of the chain of the first `n + 1` operands of an expression
/// yields the tokens of those operands with their `+` signs.
proof fn tokens_of_chain(tokens: Seq<TokenView>, n: int)
    requires
        expression_at(tokens, 0),
        forall|i: int| 0 <= i < tokens.len() ==> lexed(#[trigger] tokens[i]),
        0 <= n <= operator_count(tokens, 0),
    ensures
        tokens_from(infix(left_chain(operands(tokens, 0).take(n + 1))), 0) == tokens.take(
            2 * n + 1,
        ).push(TokenView::EOF),
    decreases n,
{
    expression_shape(tokens, 0);
    let leaves = operands(tokens, 0);
    let chain = leaves.take(n + 1);
    assert(operand_index(0, n) == 2 * n);
    assert(is_primary(tokens[operand_index(0, n)]));
    let last = tokens[2 * n];
    assert(chain.last() == leaf(last));
    tokens_of_leaf(last);
    if n == 0 {
        assert(left_chain(chain) == leaf(last));
        assert(tokens.take(1).push(TokenView::EOF) =~= seq![last, TokenView::EOF]);
    } else {
        tokens_of_chain(tokens, n - 1);
        assert(chain.drop_last() =~= leaves.take(n));
        let front = infix(left_chain(leaves.take(n)));
        assert(infix(left_chain(chain)) == front + seq!['+'] + infix(leaf(last)));
        tokens_of_sum(front, infix(leaf(last)));
        assert(operand_index(0, n - 1) + 1 == 2 * n - 1);
        assert(tokens[operand_index(0, n - 1) + 1] == TokenView::Plus);
        assert(tokens.take(2 * n - 1).push(TokenView::EOF).drop_last() =~= tokens.take(2 * n - 1));
        assert(tokens.take(2 * n + 1).push(TokenView::EOF) =~= tokens.take(2 * n - 1) + seq![
            TokenView::Plus,
        ] + seq![last, TokenView::EOF]);
    }
}

/// Writing a tree out and reading it in again gives the same tree.
///
/// Let `s` be a text whose tokens are one expression and the `EOF` behind
/// it: numbers and names with a `+` between each two. Then the infix text of
/// its tree has the same tokens as `s`, so it is such a text too, and its
/// tree is the tree of `s`.
pub proof fn round_trip(s: Seq<char>)
    requires
        expression_at(tokens_from(s, 0), 0),
        expression_end(tokens_from(s, 0), 0) == tokens_from(s, 0).len() - 1,
    ensures
        tokens_from(infix(expression_tree(tokens_from(s, 0), 0)), 0) == tokens_from(s, 0),
        ({
            let tree = expression_tree(tokens_from(s, 0), 0);
            let again = tokens_from(infix(tree), 0);
            &&& expression_at(again, 0)
            &&& expression_end(again, 0) == again.len() - 1
            &&& expression_tree(again, 0) == tree
        }),
{
    let tokens = tokens_from(s, 0);
    let count = operator_count(tokens, 0) as int;
    tokens_are_lexed(s, 0);
    tokens_end_with_eof(s, 0);
    tokens_of_chain(tokens, count);
    let leaves = operands(tokens, 0);
    assert(leaves.take(count + 1) =~= leaves);
    assert(tokens.take(2 * count + 1).push(TokenView::EOF) =~= tokens);
}

} // verus!
