//! The grammar of expressions over a sequence of tokens: which tokens form
//! an expression, where it ends, and which tree it has.

use vstd::prelude::*;
use crate::ast::Expr;
use crate::token::TokenView;

verus! {

/// The token at index `at`, if there is one.
pub open spec fn token_at(tokens: Seq<TokenView>, at: int) -> Option<TokenView> {
    if 0 <= at < tokens.len() {
        Some(tokens[at])
    } else {
        None
    }
}

/// Whether `token` can stand as an operand: an integer or an identifier.
pub open spec fn is_primary(token: TokenView) -> bool {
    token is Int || token is Ident
}

/// The leaf that an operand becomes.
pub open spec fn leaf(token: TokenView) -> Expr
    recommends
        is_primary(token),
{
    match token {
        TokenView::Int(value) => Expr::Int(value),
        TokenView::Ident(name) => Expr::Ident(name),
        _ => arbitrary(),
    }
}

/// Whether an expression begins at `at`: an operand stands there, and if a
/// `+` follows the operand, an expression begins behind the `+`.
pub open spec fn expression_at(tokens: Seq<TokenView>, at: int) -> bool
    decreases tokens.len() - at,
{
    &&& 0 <= at < tokens.len()
    &&& is_primary(tokens[at])
    &&& token_at(tokens, at + 1) == Some(TokenView::Plus) ==> expression_at(tokens, at + 2)
}

/// The number of `+` signs in the longest chain of operands and `+` signs
/// that begins with the operand at `at`.
pub open spec fn operator_count(tokens: Seq<TokenView>, at: int) -> nat
    decreases tokens.len() - at,
{
    if 0 <= at && token_at(tokens, at + 1) == Some(TokenView::Plus) {
        1 + operator_count(tokens, at + 2)
    } else {
        0
    }
}

/// The index of the operand number `n` of the chain that begins at `at`.
pub open spec fn operand_index(at: int, n: int) -> int {
    at + 2 * n
}

/// The leaves of the expression that begins at `at`, in the order of the
/// source.
pub open spec fn operands(tokens: Seq<TokenView>, at: int) -> Seq<Expr> {
    Seq::new(operator_count(tokens, at) + 1, |n: int| leaf(tokens[operand_index(at, n)]))
}

/// The index of the first token behind the expression that begins at `at`.
pub open spec fn expression_end(tokens: Seq<TokenView>, at: int) -> int {
    at + 2 * operator_count(tokens, at) + 1
}

/// The tree of a chain of operands joined by `+`: the sum leans to the left,
/// so that the last operand is the right side of the root.
pub open spec fn left_chain(operands: Seq<Expr>) -> Expr
    recommends
        operands.len() > 0,
    decreases operands.len(),
{
    if operands.len() <= 1 {
        operands[0]
    } else {
        Expr::Add(Box::new(left_chain(operands.drop_last())), Box::new(operands.last()))
    }
}

/// The tree of the expression that begins at `at`.
pub open spec fn expression_tree(tokens: Seq<TokenView>, at: int) -> Expr {
    left_chain(operands(tokens, at))
}

/// The shape of an expression: its operands stand at every second index
/// from `at` on, a `+` stands between each two of them, and behind the last
/// operand stands no `+`.
pub proof fn expression_shape(tokens: Seq<TokenView>, at: int)
    requires
        expression_at(tokens, at),
    ensures
        expression_end(tokens, at) <= tokens.len(),
        forall|n: int|
            0 <= n <= operator_count(tokens, at) ==> {
                &&& 0 <= #[trigger] operand_index(at, n) < tokens.len()
                &&& is_primary(tokens[operand_index(at, n)])
            },
        forall|n: int|
            0 <= n < operator_count(tokens, at) ==> tokens[#[trigger] operand_index(at, n) + 1]
                == TokenView::Plus,
        token_at(tokens, expression_end(tokens, at)) != Some(TokenView::Plus),
    decreases tokens.len() - at,
{
    if token_at(tokens, at + 1) == Some(TokenView::Plus) {
        expression_shape(tokens, at + 2);
        let count = operator_count(tokens, at);
        assert forall|n: int| 0 <= n <= count implies {
            &&& 0 <= #[trigger] operand_index(at, n) < tokens.len()
            &&& is_primary(tokens[operand_index(at, n)])
        } by {
            if n > 0 {
                assert(operand_index(at, n) == operand_index(at + 2, n - 1));
            }
        }
        assert forall|n: int| 0 <= n < count implies tokens[#[trigger] operand_index(at, n) + 1]
            == TokenView::Plus by {
            if n > 0 {
                assert(operand_index(at, n) == operand_index(at + 2, n - 1));
            }
        }
    }
}

/// Whether every sum in `tree` has a leaf as its right side, down along the
/// left sides.
pub open spec fn leans_left(tree: Expr) -> bool
    decreases tree,
{
    match tree {
        Expr::Add(left, right) => !(*right is Add) && leans_left(*left),
        _ => true,
    }
}

/// A chain of leaves leans to the left.
pub proof fn left_chain_leans_left(operands: Seq<Expr>)
    requires
        operands.len() > 0,
        forall|i: int| 0 <= i < operands.len() ==> !(#[trigger] operands[i] is Add),
    ensures
        leans_left(left_chain(operands)),
    decreases operands.len(),
{
    if operands.len() > 1 {
        left_chain_leans_left(operands.drop_last());
    }
}

/// The tree of an expression leans to the left: `a + b + c` is the sum of
/// `a + b` and `c`.
pub proof fn expression_tree_leans_left(tokens: Seq<TokenView>, at: int)
    requires
        expression_at(tokens, at),
    ensures
        leans_left(expression_tree(tokens, at)),
{
    expression_shape(tokens, at);
    let leaves = operands(tokens, at);
    assert forall|i: int| 0 <= i < leaves.len() implies !(#[trigger] leaves[i] is Add) by {
        assert(is_primary(tokens[operand_index(at, i)]));
    }
    left_chain_leans_left(leaves);
}

} // verus!
