//! Tokens, and the table of keywords.

use vstd::prelude::*;
use vstd::string::StrSliceExecFns;

verus! {

/// One lexical unit of the source text.
#[derive(Debug, PartialEq, Eq)]
pub enum Token {
    /// A character that starts no token.
    Illegal(char),
    /// The end of the source text.
    EOF,
    Assign,
    Plus,
    GT,
    LT,
    LParen,
    RParen,
    LBrace,
    RBrace,
    Semicolon,
    Comma,
    Let,
    Function,
    /// A name that is no keyword.
    Ident(String),
    /// An integer literal.
    Int(i32),
    If,
    Else,
    Return,
    True,
    False,
}

/// The mathematical value of a [`Token`]: the same variants, with a name as
/// a sequence of characters and an integer without bound.
pub enum TokenView {
    Illegal(char),
    EOF,
    Assign,
    Plus,
    GT,
    LT,
    LParen,
    RParen,
    LBrace,
    RBrace,
    Semicolon,
    Comma,
    Let,
    Function,
    Ident(Seq<char>),
    Int(int),
    If,
    Else,
    Return,
    True,
    False,
}

impl View for Token {
    type V = TokenView;

    open spec fn view(&self) -> TokenView {
        match *self {
            Token::Illegal(c) => TokenView::Illegal(c),
            Token::EOF => TokenView::EOF,
            Token::Assign => TokenView::Assign,
            Token::Plus => TokenView::Plus,
            Token::GT => TokenView::GT,
            Token::LT => TokenView::LT,
            Token::LParen => TokenView::LParen,
            Token::RParen => TokenView::RParen,
            Token::LBrace => TokenView::LBrace,
            Token::RBrace => TokenView::RBrace,
            Token::Semicolon => TokenView::Semicolon,
            Token::Comma => TokenView::Comma,
            Token::Let => TokenView::Let,
            Token::Function => TokenView::Function,
            Token::Ident(name) => TokenView::Ident(name@),
            Token::Int(value) => TokenView::Int(value as int),
            Token::If => TokenView::If,
            Token::Else => TokenView::Else,
            Token::Return => TokenView::Return,
            Token::True => TokenView::True,
            Token::False => TokenView::False,
        }
    }
}

impl Clone for Token {
    fn clone(&self) -> (copy: Self)
        ensures
            copy@ == self@,
    {
        match self {
            Token::Illegal(c) => Token::Illegal(*c),
            Token::EOF => Token::EOF,
            Token::Assign => Token::Assign,
            Token::Plus => Token::Plus,
            Token::GT => Token::GT,
            Token::LT => Token::LT,
            Token::LParen => Token::LParen,
            Token::RParen => Token::RParen,
            Token::LBrace => Token::LBrace,
            Token::RBrace => Token::RBrace,
            Token::Semicolon => Token::Semicolon,
            Token::Comma => Token::Comma,
            Token::Let => Token::Let,
            Token::Function => Token::Function,
            Token::Ident(name) => Token::Ident(name.clone()),
            Token::Int(value) => Token::Int(*value),
            Token::If => Token::If,
            Token::Else => Token::Else,
            Token::Return => Token::Return,
            Token::True => Token::True,
            Token::False => Token::False,
        }
    }
}

/// The keyword that `text` spells, if it spells one.
pub open spec fn keyword(text: Seq<char>) -> Option<TokenView> {
    if text == "let"@ {
        Some(TokenView::Let)
    } else if text == "fn"@ {
        Some(TokenView::Function)
    } else if text == "if"@ {
        Some(TokenView::If)
    } else if text == "else"@ {
        Some(TokenView::Else)
    } else if text == "return"@ {
        Some(TokenView::Return)
    } else if text == "true"@ {
        Some(TokenView::True)
    } else if text == "false"@ {
        Some(TokenView::False)
    } else {
        None
    }
}

/// The token for a run of letters: its keyword, or else an identifier that
/// carries the run unchanged.
pub open spec fn keyword_or_ident(text: Seq<char>) -> TokenView {
    match keyword(text) {
        Some(token) => token,
        None => TokenView::Ident(text),
    }
}

/// Whether two strings hold the same characters.
fn same_text(a: &str, b: &str) -> (same: bool)
    ensures
        same == (a@ == b@),
{
    let n: usize = a.unicode_len();
    if n != b.unicode_len() {
        return false;
    }
    let mut i: usize = 0;
    while i < n
        invariant
            n == a@.len(),
            n == b@.len(),
            i <= n,
            forall|j: int| 0 <= j < i ==> a@[j] == b@[j],
        decreases n - i,
    {
        if a.get_char(i) != b.get_char(i) {
            return false;
        }
        i += 1;
    }
    assert(a@ =~= b@);
    true
}

/// Turns a run of letters into its token: the keyword it spells, or an
/// identifier named by it.
pub fn lookup_keyword(literal: String) -> (token: Token)
    ensures
        token@ == keyword_or_ident(literal@),
{
    if same_text(literal.as_str(), "let") {
        Token::Let
    } else if same_text(literal.as_str(), "fn") {
        Token::Function
    } else if same_text(literal.as_str(), "if") {
        Token::If
    } else if same_text(literal.as_str(), "else") {
        Token::Else
    } else if same_text(literal.as_str(), "return") {
        Token::Return
    } else if same_text(literal.as_str(), "true") {
        Token::True
    } else if same_text(literal.as_str(), "false") {
        Token::False
    } else {
        Token::Ident(literal)
    }
}

} // verus!
