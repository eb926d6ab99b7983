//! The syntax tree, and the parser that builds it.

use vstd::prelude::*;
use crate::grammar::{
    expression_at, expression_end, expression_tree, is_primary, leaf, left_chain, operand_index,
    operands, operator_count, token_at,
};
use crate::token::{Token, TokenView};

verus! {

/// The mathematical value of a syntax tree.
pub enum Expr {
    Int(int),
    Ident(Seq<char>),
    Add(Box<Expr>, Box<Expr>),
}

/// What a node of the syntax tree is.
#[derive(Debug, PartialEq)]
pub enum ASTKind {
    Int(i32),
    Ident(String),
    Add(Box<AST>, Box<AST>),
}

/// A node of the syntax tree. A node owns its subtrees.
#[derive(Debug, PartialEq)]
pub struct AST {
    pub kind: ASTKind,
}

impl ASTKind {
    /// The value of the node and of what is below it.
    pub open spec fn expr(&self) -> Expr
        decreases self,
    {
        match self {
            ASTKind::Int(value) => Expr::Int(*value as int),
            ASTKind::Ident(name) => Expr::Ident(name@),
            ASTKind::Add(left, right) => Expr::Add(Box::new(left.expr()), Box::new(right.expr())),
        }
    }
}

impl AST {
    /// The value of the tree.
    pub open spec fn expr(&self) -> Expr
        decreases self,
    {
        self.kind.expr()
    }
}

impl View for ASTKind {
    type V = Expr;

    open spec fn view(&self) -> Expr {
        self.expr()
    }
}

impl View for AST {
    type V = Expr;

    open spec fn view(&self) -> Expr {
        self.expr()
    }
}

/// The values of a sequence of tokens.
pub open spec fn token_views(tokens: Seq<Token>) -> Seq<TokenView> {
    tokens.map_values(|token: Token| token@)
}

/// A parser of expressions over a sequence of tokens. It reads the tokens
/// from `index` on and collects the trees of the expressions in `result`.
pub struct Parser<'a> {
    pub tokens: &'a [Token],
    pub index: usize,
    pub result: Vec<AST>,
}

impl<'a> Parser<'a> {
    /// The values of the tokens.
    pub open spec fn stream(&self) -> Seq<TokenView> {
        token_views(self.tokens@)
    }

    /// The index of the token that is read next.
    pub open spec fn cursor(&self) -> int {
        self.index as int
    }

    /// The leaf for an operand.
    fn token_to_ast(t: Token) -> (kind: ASTKind)
        requires
            is_primary(t@),
        ensures
            kind@ == leaf(t@),
    {
        match t {
            Token::Int(i) => ASTKind::Int(i),
            Token::Ident(s) => ASTKind::Ident(s),
            _ => vstd::pervasive::unreached(),
        }
    }

    /// The token at the cursor, if there is one. The cursor stays.
    pub fn peek(&self) -> (token: Option<Token>)
        ensures
            match token {
                Some(t) => token_at(self.stream(), self.cursor()) == Some(t@),
                None => token_at(self.stream(), self.cursor()) is None,
            },
    {
        if self.index < self.tokens.len() {
            Some(self.tokens[self.index].clone())
        } else {
            None
        }
    }

    /// The token at the cursor, if there is one. The cursor then moves on by
    /// one token; at the end it stays.
    pub fn get(&mut self) -> (token: Option<Token>)
        ensures
            final(self).tokens == old(self).tokens,
            final(self).result == old(self).result,
            match token {
                Some(t) => {
                    &&& token_at(old(self).stream(), old(self).cursor()) == Some(t@)
                    &&& final(self).cursor() == old(self).cursor() + 1
                },
                None => {
                    &&& token_at(old(self).stream(), old(self).cursor()) is None
                    &&& final(self).cursor() == old(self).cursor()
                },
            },
    {
        if self.index < self.tokens.len() {
            let token = self.tokens[self.index].clone();
            self.index += 1;
            Some(token)
        } else {
            None
        }
    }

    /// A parser that stands at the first of `tokens` and has no result yet.
    pub fn new(tokens: &'a [Token]) -> (parser: Self)
        ensures
            parser.tokens == tokens,
            parser.index == 0,
            parser.result@ == Seq::<AST>::empty(),
    {
        Parser { tokens, index: 0, result: Vec::new() }
    }

    /// Reads one operand and returns its leaf.
    fn primary(&mut self) -> (node: AST)
        requires
            old(self).cursor() < old(self).stream().len(),
            is_primary(old(self).stream()[old(self).cursor()]),
        ensures
            final(self).tokens == old(self).tokens,
            final(self).result == old(self).result,
            final(self).cursor() == old(self).cursor() + 1,
            node@ == leaf(old(self).stream()[old(self).cursor()]),
    {
        let token = self.peek().unwrap();
        self.get();
        let kind = Parser::token_to_ast(token);
        AST { kind }
    }

    /// Reads one expression, as long as it goes, and returns its tree.
    fn additive(&mut self) -> (node: AST)
        requires
            expression_at(old(self).stream(), old(self).cursor()),
        ensures
            final(self).tokens == old(self).tokens,
            final(self).result == old(self).result,
            final(self).cursor() == expression_end(old(self).stream(), old(self).cursor()),
            node@ == expression_tree(old(self).stream(), old(self).cursor()),
    {
        let ghost tokens = self.stream();
        let ghost at = self.cursor();
        let ghost leaves = operands(tokens, at);
        let ghost mut n: int = 0;
        let mut left = self.primary();
        assert(leaves.take(1).drop_last().len() == 0);
        loop
            invariant
                self.tokens == old(self).tokens,
                self.result == old(self).result,
                tokens == self.stream(),
                leaves == operands(tokens, at),
                0 <= at,
                0 <= n,
                self.cursor() == operand_index(at, n) + 1,
                expression_at(tokens, operand_index(at, n)),
                operator_count(tokens, at) == n + operator_count(tokens, operand_index(at, n)),
                left@ == left_chain(leaves.take(n + 1)),
            ensures
                operator_count(tokens, at) == n,
                self.cursor() == operand_index(at, n) + 1,
                self.tokens == old(self).tokens,
                self.result == old(self).result,
                leaves == operands(tokens, at),
                left@ == left_chain(leaves.take(n + 1)),
            decreases tokens.len() - self.cursor(),
        {
            let peeked = self.peek();
            match peeked {
                Some(Token::Plus) => {},
                _ => {
                    break ;
                },
            }
            proof {
                let here = operand_index(at, n);
                assert(token_at(tokens, here + 1) == Some(TokenView::Plus));
                assert(expression_at(tokens, here + 2));
                assert(operand_index(at, n + 1) == here + 2);
            }
            self.get();
            let right = self.primary();
            proof {
                let longer = leaves.take(n + 2);
                assert(longer.drop_last() =~= leaves.take(n + 1));
                assert(longer.last() == leaf(tokens[operand_index(at, n + 1)]));
                n = n + 1;
            }
            left = AST { kind: ASTKind::Add(Box::new(left), Box::new(right)) };
        }
        assert(leaves.take(n + 1) =~= leaves);
        left
    }

    /// Whether an expression begins at the cursor, so that `parse` may be
    /// called.
    pub fn at_expression(&self) -> (begins: bool)
        ensures
            begins == expression_at(self.stream(), self.cursor()),
    {
        let ghost tokens = self.stream();
        let mut at: usize = self.index;
        loop
            invariant
                tokens == self.stream(),
                expression_at(tokens, at as int) == expression_at(tokens, self.cursor()),
            decreases tokens.len() - at,
        {
            if at >= self.tokens.len() {
                return false;
            }
            match self.tokens[at] {
                Token::Int(_) | Token::Ident(_) => {},
                _ => {
                    return false;
                },
            }
            if at + 1 >= self.tokens.len() {
                return true;
            }
            match self.tokens[at + 1] {
                Token::Plus => {},
                _ => {
                    return true;
                },
            }
            at = at + 2;
        }
    }

    /// Reads the expression that begins at the cursor and appends its tree
    /// to `result`. The cursor then stands behind the expression, so that
    /// another call reads on from there.
    ///
    /// An expression has to begin at the cursor: `at_expression` tells
    /// whether one does.
    pub fn parse(&mut self)
        requires
            expression_at(old(self).stream(), old(self).cursor()),
        ensures
            final(self).tokens == old(self).tokens,
            final(self).cursor() == expression_end(old(self).stream(), old(self).cursor()),
            final(self).result@.len() == old(self).result@.len() + 1,
            final(self).result@.drop_last() == old(self).result@,
            final(self).result@.last()@ == expression_tree(
                old(self).stream(),
                old(self).cursor(),
            ),
    {
        let node = self.additive();
        self.result.push(node);
    }
}

} // verus!
