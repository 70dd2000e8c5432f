use monkey_lib::lexer::{int_literals_fit_check, Lexer};
use monkey_lib::token::{Token, TokenEnum};

/// Lexes the whole input, including the first `EndOfInput` token.
fn collect_tokens(input: &str) -> Vec<Token> {
    let mut lexer = Lexer::new(input);
    let mut tokens: Vec<Token> = vec![];
    loop {
        let token = lexer.next_token();
        let done = token.token_type == TokenEnum::EOF;
        tokens.push(token);
        if done {
            break;
        }
    }
    tokens
}

#[test]
fn test_next_token_extra() {
    println!("test_next_token_extra");
    let tests: Vec<TokenEnum> = [
        // let five = 5;
        TokenEnum::LET,
        TokenEnum::IDENT { name: "five".to_string() },
        TokenEnum::ASSIGN,
        TokenEnum::INT(5),
        TokenEnum::SEMICOLON,
        // let ten = 10;
        TokenEnum::LET,
        TokenEnum::IDENT { name: "ten".to_string() },
        TokenEnum::ASSIGN,
        TokenEnum::INT(10),
        TokenEnum::SEMICOLON,
        // let add = fn(x, y) { x + y; };
        TokenEnum::LET,
        TokenEnum::IDENT { name: "add".to_string() },
        TokenEnum::ASSIGN,
        TokenEnum::FUNCTION,
        TokenEnum::LPAREN,
        TokenEnum::IDENT { name: "x".to_string() },
        TokenEnum::COMMA,
        TokenEnum::IDENT { name: "y".to_string() },
        TokenEnum::RPAREN,
        TokenEnum::LBRACE,
        TokenEnum::IDENT { name: "x".to_string() },
        TokenEnum::PLUS,
        TokenEnum::IDENT { name: "y".to_string() },
        TokenEnum::SEMICOLON,
        TokenEnum::RBRACE,
        TokenEnum::SEMICOLON,
        // let result = add(five, ten);
        TokenEnum::LET,
        TokenEnum::IDENT { name: "result".to_string() },
        TokenEnum::ASSIGN,
        TokenEnum::IDENT { name: "add".to_string() },
        TokenEnum::LPAREN,
        TokenEnum::IDENT { name: "five".to_string() },
        TokenEnum::COMMA,
        TokenEnum::IDENT { name: "ten".to_string() },
        TokenEnum::RPAREN,
        TokenEnum::SEMICOLON,
        TokenEnum::EOF,
    ]
    .to_vec();

    let mut lex = Lexer::new(
        r"
        let five = 5;
        let ten = 10;
        let add = fn(x, y) {
            x + y;
        };
        let result = add(five, ten);",
    );

    for (_, token_type) in tests.iter().enumerate() {
        let token = lex.next_token();

        assert_eq!(token.token_type, *token_type);
    }
}

#[test]
fn test_extended_operators() {
    println!("test_extended_operators");
    let tests: Vec<TokenEnum> = [
        // !-/*5;
        TokenEnum::BANG,
        TokenEnum::MINUS,
        TokenEnum::SLASH,
        TokenEnum::ASTERISK,
        TokenEnum::INT(5),
        TokenEnum::SEMICOLON,
        // 5 < 10 > 5;
        TokenEnum::INT(5),
        TokenEnum::LT,
        TokenEnum::INT(10),
        TokenEnum::GT,
        TokenEnum::INT(5),
        TokenEnum::SEMICOLON,
        // if (5 < 10) {
        TokenEnum::IF,
        TokenEnum::LPAREN,
        TokenEnum::INT(5),
        TokenEnum::LT,
        TokenEnum::INT(10),
        TokenEnum::RPAREN,
        TokenEnum::LBRACE,
        // return true;
        TokenEnum::RETURN,
        TokenEnum::TRUE,
        TokenEnum::SEMICOLON,
        // } else {
        TokenEnum::RBRACE,
        TokenEnum::ELSE,
        TokenEnum::LBRACE,
        // return false;
        TokenEnum::RETURN,
        TokenEnum::FALSE,
        TokenEnum::SEMICOLON,
        // }
        TokenEnum::RBRACE,
        // 10 == 10;
        TokenEnum::INT(10),
        TokenEnum::EQ,
        TokenEnum::INT(10),
        TokenEnum::SEMICOLON,
        // 10 != 9;
        TokenEnum::INT(10),
        TokenEnum::NEQ,
        TokenEnum::INT(9),
        TokenEnum::SEMICOLON,
    ]
    .to_vec();

    let mut lex = Lexer::new(
        r"
        !-/*5;
        5 < 10 > 5;

        if (5 < 10) {
            return true;
        } else {
            return false;
        }

        10 == 10;
        10 != 9;",
    );

    for (_, token_type) in tests.iter().enumerate() {
        let token = lex.next_token();

        assert_eq!(token.token_type, *token_type);
    }
}

#[test]
fn test_eof_is_idempotent() {
    let mut lexer = Lexer::new("let x = 1;");
    loop {
        if lexer.next_token().token_type == TokenEnum::EOF {
            break;
        }
    }
    // once the input is exhausted, every further call yields EndOfInput again
    for _ in 0..10 {
        let token = lexer.next_token();
        assert_eq!(token.token_type, TokenEnum::EOF);
        assert_eq!(token.range.start, 10);
        assert_eq!(token.range.end, 10);
    }
}

#[test]
fn test_eof_on_empty_input() {
    let mut lexer = Lexer::new("");
    for _ in 0..3 {
        let token = lexer.next_token();
        assert_eq!(token.token_type, TokenEnum::EOF);
        assert_eq!(token.range.start, 0);
        assert_eq!(token.range.end, 0);
    }
}

#[test]
fn test_ranges_monotonic_and_ordered() {
    let tokens = collect_tokens("let five = 5; five != 10; @ let;");
    let mut previous_start = 0;
    for token in &tokens {
        assert!(token.range.start <= token.range.end);
        assert!(previous_start <= token.range.start);
        previous_start = token.range.start;
    }
}

#[test]
fn test_two_char_operators_lex_as_one_token() {
    let tokens = collect_tokens("a==b != c");
    assert_eq!(tokens.len(), 6);
    assert_eq!(tokens[1].token_type, TokenEnum::EQ);
    assert_eq!(tokens[1].range.start, 1);
    assert_eq!(tokens[1].range.end, 3);
    assert_eq!(tokens[3].token_type, TokenEnum::NEQ);
    assert_eq!(tokens[3].range.start, 5);
    assert_eq!(tokens[3].range.end, 7);
}

#[test]
fn test_assign_and_bang_alone() {
    let tokens = collect_tokens("= ! =!");
    assert_eq!(tokens[0].token_type, TokenEnum::ASSIGN);
    assert_eq!(tokens[1].token_type, TokenEnum::BANG);
    assert_eq!(tokens[2].token_type, TokenEnum::ASSIGN);
    assert_eq!(tokens[3].token_type, TokenEnum::BANG);
    assert_eq!(tokens[4].token_type, TokenEnum::EOF);
}

#[test]
fn test_illegal_character_zero_width_range() {
    let tokens = collect_tokens("a @ b");
    assert_eq!(tokens[0].token_type, TokenEnum::IDENT { name: "a".to_string() });
    assert_eq!(tokens[1].token_type, TokenEnum::ILLEGAL);
    assert_eq!(tokens[1].range.start, 2);
    assert_eq!(tokens[1].range.end, 2);
    assert_eq!(tokens[2].token_type, TokenEnum::IDENT { name: "b".to_string() });
    assert_eq!(tokens[3].token_type, TokenEnum::EOF);
}

#[test]
fn test_positions_are_characters_not_bytes() {
    // the copyright sign takes two bytes but one character position
    let tokens = collect_tokens("a\u{a9}bc");
    assert_eq!(tokens[0].token_type, TokenEnum::IDENT { name: "a".to_string() });
    assert_eq!(tokens[1].token_type, TokenEnum::ILLEGAL);
    assert_eq!(tokens[1].range.start, 1);
    assert_eq!(tokens[2].token_type, TokenEnum::IDENT { name: "bc".to_string() });
    assert_eq!(tokens[2].range.start, 2);
    assert_eq!(tokens[2].range.end, 4);
    assert_eq!(tokens[3].token_type, TokenEnum::EOF);
}

#[test]
fn test_identifier_ranges() {
    let tokens = collect_tokens("  foobar 42 ");
    assert_eq!(tokens[0].token_type, TokenEnum::IDENT { name: "foobar".to_string() });
    assert_eq!(tokens[0].range.start, 2);
    assert_eq!(tokens[0].range.end, 8);
    assert_eq!(tokens[1].token_type, TokenEnum::INT(42));
    assert_eq!(tokens[1].range.start, 9);
    assert_eq!(tokens[1].range.end, 11);
}

#[test]
fn test_int_literals_fit_check() {
    assert!(int_literals_fit_check(""));
    assert!(int_literals_fit_check("let x = 5;"));
    assert!(int_literals_fit_check("4294967295"));
    assert!(int_literals_fit_check("a4294967295"));  // one digit run of ten digits
    assert!(!int_literals_fit_check("4294967296"));
    assert!(!int_literals_fit_check("let x = 99999999999;"));
    assert!(int_literals_fit_check("1 2 3 999999999"));
}

#[test]
fn test_largest_integer_literal() {
    let tokens = collect_tokens("4294967295");
    assert_eq!(tokens[0].token_type, TokenEnum::INT(4294967295));
    assert_eq!(tokens[1].token_type, TokenEnum::EOF);
}
