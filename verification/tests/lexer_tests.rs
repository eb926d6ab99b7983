use frontend::lexer::Lexer;
use frontend::token::{lookup_keyword, Token};

#[test]
fn some_operand() {
    let expected = vec![
        Token::Plus,
        Token::Semicolon,
        Token::LBrace,
        Token::RBrace,
        Token::LParen,
        Token::RParen,
        Token::EOF,
    ];
    let input = "+;{}()".to_string();

    let mut l = Lexer::new(input);
    for t in expected {
        assert_eq!(l.next_token(), t);
    }
}

#[test]
fn let_ident() {
    let input = "\
                 let five = 5;\n\
                 let ten = 10;\n\
                 let add = fn (x ,y) {\n\
                 x + y;\n\
                 };\n\
                 let result = add(five, ten);"
        .to_string();

    let expected = vec![
        Token::Let,
        Token::Ident("five".to_string()),
        Token::Assign,
        Token::Int(5),
        Token::Semicolon,
        Token::Let,
        Token::Ident("ten".to_string()),
        Token::Assign,
        Token::Int(10),
        Token::Semicolon,
        Token::Let,
        Token::Ident("add".to_string()),
        Token::Assign,
        Token::Function,
        Token::LParen,
        Token::Ident('x'.to_string()),
        Token::Comma,
        Token::Ident('y'.to_string()),
        Token::RParen,
        Token::LBrace,
        Token::Ident('x'.to_string()),
        Token::Plus,
        Token::Ident('y'.to_string()),
        Token::Semicolon,
        Token::RBrace,
        Token::Semicolon,
        Token::Let,
        Token::Ident("result".to_string()),
        Token::Assign,
        Token::Ident("add".to_string()),
        Token::LParen,
        Token::Ident("five".to_string()),
        Token::Comma,
        Token::Ident("ten".to_string()),
        Token::RParen,
        Token::Semicolon,
    ];
    let mut l = Lexer::new(input);
    for (_i, t) in expected.into_iter().enumerate() {
        let result = l.next_token();
        assert_eq!(result, t);
    }
}

#[test]
fn add_some_keywords() {
    let input = "\
                 if (5 < 10) {\
                 return true;\
                 } else {\
                 return false;\
                 }"
    .to_string();
    let expected = vec![
        Token::If,
        Token::LParen,
        Token::Int(5),
        Token::LT,
        Token::Int(10),
        Token::RParen,
        Token::LBrace,
        Token::Return,
        Token::True,
        Token::Semicolon,
        Token::RBrace,
        Token::Else,
        Token::LBrace,
        Token::Return,
        Token::False,
        Token::Semicolon,
        Token::RBrace,
    ];
    let mut l = Lexer::new(input);
    for (_i, t) in expected.into_iter().enumerate() {
        let result = l.next_token();
        assert_eq!(result, t);
    }
}

fn drain(input: &str) -> Vec<Token> {
    let mut lexer = Lexer::new(input.to_string());
    let mut tokens = Vec::new();
    loop {
        let token = lexer.next_token();
        let done = token == Token::EOF;
        tokens.push(token);
        if done {
            return tokens;
        }
    }
}

#[test]
fn let_statement_ends_with_eof() {
    assert_eq!(
        drain("let five = 5;"),
        vec![
            Token::Let,
            Token::Ident("five".to_string()),
            Token::Assign,
            Token::Int(5),
            Token::Semicolon,
            Token::EOF,
        ]
    );
}

#[test]
fn conditional_with_spaces_ends_with_eof() {
    assert_eq!(
        drain("if (5 < 10) { return true; } else { return false; }"),
        vec![
            Token::If,
            Token::LParen,
            Token::Int(5),
            Token::LT,
            Token::Int(10),
            Token::RParen,
            Token::LBrace,
            Token::Return,
            Token::True,
            Token::Semicolon,
            Token::RBrace,
            Token::Else,
            Token::LBrace,
            Token::Return,
            Token::False,
            Token::Semicolon,
            Token::RBrace,
            Token::EOF,
        ]
    );
}

#[test]
fn every_symbol_is_one_token() {
    assert_eq!(
        drain("=+<>;{}(),"),
        vec![
            Token::Assign,
            Token::Plus,
            Token::LT,
            Token::GT,
            Token::Semicolon,
            Token::LBrace,
            Token::RBrace,
            Token::LParen,
            Token::RParen,
            Token::Comma,
            Token::EOF,
        ]
    );
}

#[test]
fn end_of_input_repeats() {
    let mut lexer = Lexer::new("x".to_string());
    assert_eq!(lexer.next_token(), Token::Ident("x".to_string()));
    for _ in 0..5 {
        assert_eq!(lexer.next_token(), Token::EOF);
    }
}

#[test]
fn empty_source_is_end_of_input() {
    let mut lexer = Lexer::new(String::new());
    assert_eq!(lexer.next_token(), Token::EOF);
    assert_eq!(lexer.next_token(), Token::EOF);
}

#[test]
fn whitespace_only_is_end_of_input() {
    assert_eq!(drain(" \t\r\n "), vec![Token::EOF]);
}

#[test]
fn name_at_the_end_is_read_once() {
    assert_eq!(drain("abc"), vec![Token::Ident("abc".to_string()), Token::EOF]);
    assert_eq!(drain("abc \n"), vec![Token::Ident("abc".to_string()), Token::EOF]);
}

#[test]
fn number_at_the_end_is_read_once() {
    assert_eq!(drain("12"), vec![Token::Int(12), Token::EOF]);
    assert_eq!(drain("0"), vec![Token::Int(0), Token::EOF]);
}

#[test]
fn runs_are_maximal_and_stop_at_the_other_class() {
    assert_eq!(
        drain("abc123def"),
        vec![
            Token::Ident("abc".to_string()),
            Token::Int(123),
            Token::Ident("def".to_string()),
            Token::EOF,
        ]
    );
    assert_eq!(
        drain("x1"),
        vec![Token::Ident("x".to_string()), Token::Int(1), Token::EOF]
    );
}

#[test]
fn names_take_every_letter_and_the_underscore() {
    assert_eq!(
        drain("_azAZ_ zebra Zulu"),
        vec![
            Token::Ident("_azAZ_".to_string()),
            Token::Ident("zebra".to_string()),
            Token::Ident("Zulu".to_string()),
            Token::EOF,
        ]
    );
}

#[test]
fn numbers_take_every_digit() {
    assert_eq!(drain("1234567890"), vec![Token::Int(1_234_567_890), Token::EOF]);
    assert_eq!(drain("9 99"), vec![Token::Int(9), Token::Int(99), Token::EOF]);
}

#[test]
fn largest_number_fits() {
    assert_eq!(drain("2147483647"), vec![Token::Int(i32::MAX), Token::EOF]);
}

#[test]
fn leading_zeros_do_not_count() {
    assert_eq!(drain("007"), vec![Token::Int(7), Token::EOF]);
    assert_eq!(
        drain("0000000000000000000042"),
        vec![Token::Int(42), Token::EOF]
    );
}

#[test]
fn unknown_characters_are_illegal_tokens() {
    assert_eq!(
        drain("a ! b"),
        vec![
            Token::Ident("a".to_string()),
            Token::Illegal('!'),
            Token::Ident("b".to_string()),
            Token::EOF,
        ]
    );
    assert_eq!(
        drain("-*/"),
        vec![
            Token::Illegal('-'),
            Token::Illegal('*'),
            Token::Illegal('/'),
            Token::EOF,
        ]
    );
}

#[test]
fn characters_outside_ascii_are_illegal_tokens() {
    assert_eq!(
        drain("é+ü1"),
        vec![
            Token::Illegal('é'),
            Token::Plus,
            Token::Illegal('ü'),
            Token::Int(1),
            Token::EOF,
        ]
    );
}

#[test]
fn keywords_are_looked_up() {
    assert_eq!(lookup_keyword("let".to_string()), Token::Let);
    assert_eq!(lookup_keyword("fn".to_string()), Token::Function);
    assert_eq!(lookup_keyword("if".to_string()), Token::If);
    assert_eq!(lookup_keyword("else".to_string()), Token::Else);
    assert_eq!(lookup_keyword("return".to_string()), Token::Return);
    assert_eq!(lookup_keyword("true".to_string()), Token::True);
    assert_eq!(lookup_keyword("false".to_string()), Token::False);
}

#[test]
fn other_names_are_identifiers() {
    assert_eq!(
        lookup_keyword("lets".to_string()),
        Token::Ident("lets".to_string())
    );
    assert_eq!(
        lookup_keyword("Let".to_string()),
        Token::Ident("Let".to_string())
    );
    assert_eq!(
        lookup_keyword("f".to_string()),
        Token::Ident("f".to_string())
    );
    assert_eq!(lookup_keyword(String::new()), Token::Ident(String::new()));
}

#[test]
fn keyword_inside_a_name_is_no_keyword() {
    assert_eq!(
        drain("letter iffy fn_"),
        vec![
            Token::Ident("letter".to_string()),
            Token::Ident("iffy".to_string()),
            Token::Ident("fn_".to_string()),
            Token::EOF,
        ]
    );
}

#[test]
fn token_clone_is_equal() {
    let tokens = drain("let x = 1 + y;");
    let copies: Vec<Token> = tokens.iter().map(|t| t.clone()).collect();
    assert_eq!(tokens, copies);
}

#[test]
fn numbers_that_fit_are_announced() {
    assert!(Lexer::new("2147483647".to_string()).next_fits());
    assert!(Lexer::new("  \n12;".to_string()).next_fits());
    assert!(Lexer::new("0000000000000000000042".to_string()).next_fits());
}

#[test]
fn numbers_that_do_not_fit_are_announced() {
    assert!(!Lexer::new("2147483648".to_string()).next_fits());
    assert!(!Lexer::new(" 99999999999999999999 ".to_string()).next_fits());
    assert!(!Lexer::new("00000000004294967296".to_string()).next_fits());
}

#[test]
fn what_is_no_number_always_fits() {
    assert!(Lexer::new(String::new()).next_fits());
    assert!(Lexer::new("   ".to_string()).next_fits());
    assert!(Lexer::new("abc".to_string()).next_fits());
    assert!(Lexer::new("+".to_string()).next_fits());
    assert!(Lexer::new("?".to_string()).next_fits());
}

#[test]
fn only_the_next_token_counts_for_the_fit() {
    let mut lexer = Lexer::new("x = 99999999999 + 1".to_string());
    assert!(lexer.next_fits());
    assert_eq!(lexer.next_token(), Token::Ident("x".to_string()));
    assert!(lexer.next_fits());
    assert_eq!(lexer.next_token(), Token::Assign);
    assert!(!lexer.next_fits());
}

#[test]
fn asking_for_the_fit_moves_nothing() {
    let mut lexer = Lexer::new(" 12 + 3".to_string());
    assert!(lexer.next_fits());
    assert!(lexer.next_fits());
    assert_eq!(lexer.next_token(), Token::Int(12));
    assert!(lexer.next_fits());
    assert_eq!(lexer.next_token(), Token::Plus);
    assert_eq!(lexer.next_token(), Token::Int(3));
    assert!(lexer.next_fits());
    assert_eq!(lexer.next_token(), Token::EOF);
    assert!(lexer.next_fits());
}

#[test]
fn symbols_between_whitespace() {
    assert_eq!(
        drain(" (\t)\r\n{ } "),
        vec![
            Token::LParen,
            Token::RParen,
            Token::LBrace,
            Token::RBrace,
            Token::EOF,
        ]
    );
}
