//! The tokenizer.

use vstd::prelude::*;
use vstd::string::StrSliceExecFns;
use crate::chars::{
    CharClass, char_at, decimal_value, digit, holds_class, run_end, run_end_is_maximal, whitespace,
};
use crate::scan::{end_of_input_repeats, representable, scan};
use crate::token::{Token, lookup_keyword};

verus! {

/// A tokenizer over a source text. It hands out the tokens one by one, from
/// the cursor on, and cannot be rewound.
#[derive(Debug)]
pub struct Lexer {
    src: String,
    /// The number of characters of `src`.
    length: usize,
    /// The index of the character that is read next.
    position: usize,
    /// The character under examination.
    ch: Option<char>,
}

impl Lexer {
    #[verifier::type_invariant]
    spec fn well_formed(&self) -> bool {
        self.length == self.src@.len() && self.position <= self.length
    }

    /// The source text.
    pub closed spec fn source(&self) -> Seq<char> {
        self.src@
    }

    /// The index in the source at which the next token is looked for.
    pub closed spec fn cursor(&self) -> int {
        self.position as int
    }

    /// The index of the character under examination, while it is the one
    /// that was read last: the character before the cursor, or the end.
    spec fn examined(&self) -> int {
        if self.ch is Some {
            self.position - 1
        } else {
            self.position as int
        }
    }

    /// Whether the character under examination is the one that `examined`
    /// points at.
    spec fn loaded(&self) -> bool {
        self.ch == char_at(self.src@, self.examined())
    }

    /// A tokenizer that stands at the beginning of `src`.
    pub fn new(src: String) -> (lexer: Lexer)
        ensures
            lexer.source() == src@,
            lexer.cursor() == 0,
    {
        let length: usize = src.as_str().unicode_len();
        Lexer { src, length, position: 0, ch: None }
    }

    /// The next token, whitespace skipped; the cursor moves behind it. Once
    /// a call has returned `EOF`, every call after it returns `EOF`.
    ///
    /// The token has to fit in a `Token`: `next_fits` tells whether it does.
    pub fn next_token(&mut self) -> (token: Token)
        requires
            representable(scan(old(self).source(), old(self).cursor()).token),
        ensures
            final(self).source() == old(self).source(),
            token@ == scan(old(self).source(), old(self).cursor()).token,
            final(self).cursor() == scan(old(self).source(), old(self).cursor()).cursor,
            0 <= final(self).cursor() <= final(self).source().len(),
            token@ is EOF ==> scan(final(self).source(), final(self).cursor()).token is EOF,
    {
        proof {
            if scan(self.source(), self.cursor()).token is EOF {
                end_of_input_repeats(self.source(), self.cursor());
            }
        }
        self.read_char();
        self.skip_whitespace();
        proof {
            use_type_invariant(&*self);
        }
        let ghost s = self.src@;
        let ghost start = self.examined();
        match self.ch {
            Some('=') => Token::Assign,
            Some('+') => Token::Plus,
            Some('<') => Token::LT,
            Some('>') => Token::GT,
            Some(';') => Token::Semicolon,
            Some('{') => Token::LBrace,
            Some('}') => Token::RBrace,
            Some('(') => Token::LParen,
            Some(')') => Token::RParen,
            Some(',') => Token::Comma,
            None => Token::EOF,
            Some(c) => match c {
                'a'..='z' | 'A'..='Z' | '_' => {
                    let first: usize = self.position - 1;
                    loop
                        invariant
                            self.src@ == s,
                            self.loaded(),
                            first == start <= self.examined(),
                            run_end(s, self.examined(), CharClass::Letter) == run_end(
                                s,
                                start,
                                CharClass::Letter,
                            ),
                        ensures
                            !holds_class(CharClass::Letter, self.ch),
                        decreases s.len() - self.examined(),
                    {
                        proof {
                            use_type_invariant(&*self);
                        }
                        match self.ch {
                            Some('a'..='z' | 'A'..='Z' | '_') => {
                                self.read_char();
                            },
                            _ => {
                                break ;
                            },
                        }
                    }
                    self.backtick();
                    proof {
                        use_type_invariant(&*self);
                    }
                    let literal = self.src.as_str().substring_char(first, self.position);
                    lookup_keyword(literal.to_owned())
                },
                '0'..='9' => {
                    let first: usize = self.position - 1;
                    loop
                        invariant
                            self.src@ == s,
                            self.loaded(),
                            first == start <= self.examined(),
                            run_end(s, self.examined(), CharClass::Digit) == run_end(
                                s,
                                start,
                                CharClass::Digit,
                            ),
                        ensures
                            !holds_class(CharClass::Digit, self.ch),
                        decreases s.len() - self.examined(),
                    {
                        proof {
                            use_type_invariant(&*self);
                        }
                        match self.ch {
                            Some('0'..='9') => {
                                self.read_char();
                            },
                            _ => {
                                break ;
                            },
                        }
                    }
                    self.backtick();
                    proof {
                        use_type_invariant(&*self);
                        run_end_is_maximal(s, start, CharClass::Digit);
                    }
                    let literal = self.src.as_str().substring_char(first, self.position);
                    Token::Int(decimal_value(literal).unwrap())
                },
                _ => Token::Illegal(c),
            },
        }
    }

    /// Whether the next token fits in a `Token`, so that `next_token` may be
    /// called.
    pub fn next_fits(&self) -> (fits: bool)
        ensures
            fits == representable(scan(self.source(), self.cursor()).token),
    {
        proof {
            use_type_invariant(self);
        }
        let text = self.src.as_str();
        let mut start: usize = self.position;
        while start < self.length && whitespace(text.get_char(start))
            invariant
                text@ == self.src@,
                self.length == self.src@.len(),
                self.position <= start <= self.length,
                run_end(self.src@, start as int, CharClass::Space) == run_end(
                    self.src@,
                    self.position as int,
                    CharClass::Space,
                ),
            decreases self.length - start,
        {
            start += 1;
        }
        if start < self.length && digit(text.get_char(start)) {
            let mut end: usize = start;
            while end < self.length && digit(text.get_char(end))
                invariant
                    text@ == self.src@,
                    self.length == self.src@.len(),
                    start <= end <= self.length,
                    run_end(self.src@, end as int, CharClass::Digit) == run_end(
                        self.src@,
                        start as int,
                        CharClass::Digit,
                    ),
                decreases self.length - end,
            {
                end += 1;
            }
            proof {
                run_end_is_maximal(self.src@, start as int, CharClass::Digit);
            }
            decimal_value(text.substring_char(start, end)).is_some()
        } else {
            true
        }
    }

    /// Skips the whitespace from the character under examination on, and
    /// stops at the first character that is none, or at the end.
    fn skip_whitespace(&mut self)
        requires
            old(self).loaded(),
        ensures
            final(self).src == old(self).src,
            final(self).loaded(),
            final(self).examined() == run_end(
                old(self).src@,
                old(self).examined(),
                CharClass::Space,
            ),
    {
        loop
            invariant
                self.src == old(self).src,
                self.loaded(),
                run_end(self.src@, self.examined(), CharClass::Space) == run_end(
                    old(self).src@,
                    old(self).examined(),
                    CharClass::Space,
                ),
            ensures
                !holds_class(CharClass::Space, self.ch),
            decreases self.src@.len() - self.examined(),
        {
            proof {
                use_type_invariant(&*self);
            }
            match self.ch {
                Some('\t') | Some(' ') | Some('\n') | Some('\r') => {
                    self.read_char();
                },
                _ => {
                    break ;
                },
            }
        }
    }

    /// Reads the character at the cursor and moves the cursor behind it. At
    /// the end of the source there is no character and the cursor stays.
    fn read_char(&mut self)
        ensures
            final(self).src == old(self).src,
            final(self).ch == char_at(old(self).src@, old(self).position as int),
            final(self).position == if old(self).position < old(self).src@.len() {
                old(self).position + 1
            } else {
                old(self).position as int
            },
            final(self).loaded(),
            final(self).examined() == old(self).position,
    {
        proof {
            use_type_invariant(&*self);
        }
        if self.position < self.length {
            self.ch = Some(self.src.as_str().get_char(self.position));
            self.position = self.position + 1;
        } else {
            self.ch = None;
        }
    }

    /// Takes back the character that was read last, so that it is read
    /// again: the cursor then stands at the character under examination.
    fn backtick(&mut self)
        requires
            old(self).loaded(),
        ensures
            final(self).src == old(self).src,
            final(self).ch == old(self).ch,
            final(self).position == old(self).examined(),
            final(self).ch == char_at(final(self).src@, final(self).position as int),
    {
        proof {
            use_type_invariant(&*self);
        }
        if self.ch.is_some() {
            self.position = self.position - 1;
        }
    }
}

} // verus!
