use monkey_lib::ast::{Expression, Literal, Precedence, Statement, get_precedence};
use monkey_lib::lexer::Lexer;
use monkey_lib::parser::{Diagnostic, Parser};
use monkey_lib::token::TokenEnum;

#[test]
fn test_let_statement() {
    let lexer = Lexer::new(
        "
            let x = 5;
            let y = 10;
            let foobar = 838383;
        ",
    );

    let mut parser = Parser::new(lexer);
    let program = parser.parse_program();

    assert_eq!(program.statements.len(), 3);
}

#[test]
fn test_let_parse_errors() {
    let lexer = Lexer::new(
        "
            let x 5;
            let = 10;
            let 838383;
        ",
    );

    let mut parser = Parser::new(lexer);
    let _ = parser.parse_program();

    // one diagnostic for the missing `=` after `x`, one each for the
    // missing identifiers after the second and third `let`, and one for
    // the semicolon left behind by the third statement, which cannot
    // start an expression
    assert_eq!(parser.diagnostics().len(), 4);
}

#[test]
fn test_return_statement() {
    let lexer = Lexer::new(
        "
            return 5;
            return 10;
            return 993322;
        ",
    );

    let mut parser = Parser::new(lexer);
    let program = parser.parse_program();

    println!("statements {:?}", program.statements);
    assert_eq!(program.statements.len(), 3);
}

#[test]
fn test_let_statement_identifiers() {
    let lexer = Lexer::new("let x = 5; let y = 10; let foobar = 838383;");
    let mut parser = Parser::new(lexer);
    let program = parser.parse_program();

    assert_eq!(parser.diagnostics().len(), 0);
    assert_eq!(program.statements.len(), 3);
    let expected = ["x", "y", "foobar"];
    for (statement, name) in program.statements.iter().zip(expected.iter()) {
        match statement {
            Statement::LetStatement(let_statement) => match &let_statement.expression {
                Expression::Identifier(identifier) => assert_eq!(identifier.name, *name),
                other => panic!("expected an identifier, got {:?}", other),
            },
            other => panic!("expected a let statement, got {:?}", other),
        }
    }
}

#[test]
fn test_return_statement_values() {
    let lexer = Lexer::new("return 5; return 10; return 993322;");
    let mut parser = Parser::new(lexer);
    let program = parser.parse_program();

    assert_eq!(parser.diagnostics().len(), 0);
    assert_eq!(program.statements.len(), 3);
    let expected = [5, 10, 993322];
    for (statement, value) in program.statements.iter().zip(expected.iter()) {
        match statement {
            Statement::ReturnStatement(return_statement) => match &return_statement.expression {
                Expression::Literal(Literal::Integer(integer)) => {
                    assert_eq!(integer.value, *value)
                },
                other => panic!("expected an integer literal, got {:?}", other),
            },
            other => panic!("expected a return statement, got {:?}", other),
        }
    }
}

#[test]
fn test_product_binds_tighter_than_sum() {
    // a + b * c; parses as Infix(+, a, Infix(*, b, c))
    let lexer = Lexer::new("a + b * c;");
    let mut parser = Parser::new(lexer);
    let program = parser.parse_program();

    assert_eq!(parser.diagnostics().len(), 0);
    assert_eq!(program.statements.len(), 1);
    let outer = match &program.statements[0] {
        Statement::Expression(Expression::Infix(infix)) => infix,
        other => panic!("expected an infix expression statement, got {:?}", other),
    };
    assert_eq!(outer.token.token_type, TokenEnum::PLUS);
    match outer.left.as_ref() {
        Expression::Identifier(identifier) => assert_eq!(identifier.name, "a"),
        other => panic!("expected identifier a, got {:?}", other),
    }
    let inner = match outer.right.as_ref() {
        Expression::Infix(infix) => infix,
        other => panic!("expected an inner infix expression, got {:?}", other),
    };
    assert_eq!(inner.token.token_type, TokenEnum::ASTERISK);
    match inner.left.as_ref() {
        Expression::Identifier(identifier) => assert_eq!(identifier.name, "b"),
        other => panic!("expected identifier b, got {:?}", other),
    }
    match inner.right.as_ref() {
        Expression::Identifier(identifier) => assert_eq!(identifier.name, "c"),
        other => panic!("expected identifier c, got {:?}", other),
    }
}

#[test]
fn test_comparisons_are_left_associative() {
    // 5 < 10 > 5; parses as Infix(>, Infix(<, 5, 10), 5)
    let lexer = Lexer::new("5 < 10 > 5;");
    let mut parser = Parser::new(lexer);
    let program = parser.parse_program();

    assert_eq!(parser.diagnostics().len(), 0);
    assert_eq!(program.statements.len(), 1);
    let outer = match &program.statements[0] {
        Statement::Expression(Expression::Infix(infix)) => infix,
        other => panic!("expected an infix expression statement, got {:?}", other),
    };
    assert_eq!(outer.token.token_type, TokenEnum::GT);
    let inner = match outer.left.as_ref() {
        Expression::Infix(infix) => infix,
        other => panic!("expected an inner infix expression, got {:?}", other),
    };
    assert_eq!(inner.token.token_type, TokenEnum::LT);
    match inner.left.as_ref() {
        Expression::Literal(Literal::Integer(integer)) => assert_eq!(integer.value, 5),
        other => panic!("expected integer 5, got {:?}", other),
    }
    match inner.right.as_ref() {
        Expression::Literal(Literal::Integer(integer)) => assert_eq!(integer.value, 10),
        other => panic!("expected integer 10, got {:?}", other),
    }
    match outer.right.as_ref() {
        Expression::Literal(Literal::Integer(integer)) => assert_eq!(integer.value, 5),
        other => panic!("expected integer 5, got {:?}", other),
    }
}

#[test]
fn test_equality_binds_weaker_than_sum() {
    // 5 + 5 == 10; parses as Infix(==, Infix(+, 5, 5), 10)
    let lexer = Lexer::new("5 + 5 == 10;");
    let mut parser = Parser::new(lexer);
    let program = parser.parse_program();

    assert_eq!(parser.diagnostics().len(), 0);
    assert_eq!(program.statements.len(), 1);
    let outer = match &program.statements[0] {
        Statement::Expression(Expression::Infix(infix)) => infix,
        other => panic!("expected an infix expression statement, got {:?}", other),
    };
    assert_eq!(outer.token.token_type, TokenEnum::EQ);
    let inner = match outer.left.as_ref() {
        Expression::Infix(infix) => infix,
        other => panic!("expected an inner infix expression, got {:?}", other),
    };
    assert_eq!(inner.token.token_type, TokenEnum::PLUS);
    match outer.right.as_ref() {
        Expression::Literal(Literal::Integer(integer)) => assert_eq!(integer.value, 10),
        other => panic!("expected integer 10, got {:?}", other),
    }
}

#[test]
fn test_failed_right_operand_keeps_left() {
    // the right operand of `+` cannot start an expression: the infix step
    // fails, the left side is kept, and the failure is recorded
    let lexer = Lexer::new("a + !");
    let mut parser = Parser::new(lexer);
    let program = parser.parse_program();

    assert_eq!(program.statements.len(), 1);
    match &program.statements[0] {
        Statement::Expression(Expression::Identifier(identifier)) => {
            assert_eq!(identifier.name, "a")
        },
        other => panic!("expected the identifier a, got {:?}", other),
    }
    let diagnostics = parser.diagnostics();
    assert_eq!(diagnostics.len(), 1);
    assert!(matches!(diagnostics[0], Diagnostic::NoPrefixParse { .. }));
}

#[test]
fn test_mixed_statement_kinds() {
    let lexer = Lexer::new("let x = 5; return x; x + 1;");
    let mut parser = Parser::new(lexer);
    let program = parser.parse_program();

    assert_eq!(parser.diagnostics().len(), 0);
    assert_eq!(program.statements.len(), 3);
    assert!(matches!(program.statements[0], Statement::LetStatement(_)));
    assert!(matches!(program.statements[1], Statement::ReturnStatement(_)));
    assert!(matches!(program.statements[2], Statement::Expression(_)));
}

#[test]
fn test_let_without_semicolon_terminates() {
    // the statement's skip to the next semicolon stops at the end of the
    // input instead of spinning
    let lexer = Lexer::new("let x = 5");
    let mut parser = Parser::new(lexer);
    let program = parser.parse_program();
    assert_eq!(program.statements.len(), 1);
    assert_eq!(parser.diagnostics().len(), 0);
}

#[test]
fn test_missing_identifier_diagnostic() {
    let lexer = Lexer::new("let = 10;");
    let mut parser = Parser::new(lexer);
    let program = parser.parse_program();
    assert_eq!(program.statements.len(), 1);  // `10;` still parses as an expression statement
    let diagnostics = parser.diagnostics();
    assert_eq!(diagnostics.len(), 1);
    match &diagnostics[0] {
        Diagnostic::UnexpectedToken { expected, actual, position } => {
            assert!(matches!(expected, TokenEnum::IDENT { .. }));
            assert_eq!(*actual, TokenEnum::ASSIGN);
            assert_eq!(*position, 4);
        },
        other => panic!("expected an UnexpectedToken diagnostic, got {:?}", other),
    }
}

#[test]
fn test_no_prefix_parse_diagnostic() {
    let lexer = Lexer::new("+");
    let mut parser = Parser::new(lexer);
    let program = parser.parse_program();
    assert_eq!(program.statements.len(), 0);
    let diagnostics = parser.diagnostics();
    assert_eq!(diagnostics.len(), 1);
    match &diagnostics[0] {
        Diagnostic::NoPrefixParse { token, position } => {
            assert_eq!(*token, TokenEnum::PLUS);
            assert_eq!(*position, 0);
        },
        other => panic!("expected a NoPrefixParse diagnostic, got {:?}", other),
    }
}

#[test]
fn test_diagnostic_messages() {
    let expected_message = Diagnostic::UnexpectedToken {
        expected: TokenEnum::ASSIGN,
        actual: TokenEnum::INT(5),
        position: 6,
    }
    .message();
    assert_eq!(expected_message, "expected next token to be =, got 5 instead.");

    let prefix_message =
        Diagnostic::NoPrefixParse { token: TokenEnum::SEMICOLON, position: 3 }.message();
    assert_eq!(prefix_message, "no prefix parse function for ; found.");
}

#[test]
fn test_precedence_table() {
    assert_eq!(get_precedence(&TokenEnum::EQ), Precedence::EQUALS);
    assert_eq!(get_precedence(&TokenEnum::NEQ), Precedence::EQUALS);
    assert_eq!(get_precedence(&TokenEnum::LT), Precedence::LessGreater);
    assert_eq!(get_precedence(&TokenEnum::GT), Precedence::LessGreater);
    assert_eq!(get_precedence(&TokenEnum::PLUS), Precedence::SUM);
    assert_eq!(get_precedence(&TokenEnum::MINUS), Precedence::SUM);
    assert_eq!(get_precedence(&TokenEnum::ASTERISK), Precedence::PRODUCT);
    assert_eq!(get_precedence(&TokenEnum::SLASH), Precedence::PRODUCT);
    assert_eq!(get_precedence(&TokenEnum::LPAREN), Precedence::CALL);
    assert_eq!(get_precedence(&TokenEnum::SEMICOLON), Precedence::LOWEST);
    assert!(Precedence::LOWEST.binds_less_than(&Precedence::EQUALS));
    assert!(Precedence::SUM.binds_less_than(&Precedence::PRODUCT));
    assert!(!Precedence::PRODUCT.binds_less_than(&Precedence::PRODUCT));
    assert!(!Precedence::CALL.binds_less_than(&Precedence::SUM));
}

#[test]
fn test_expect_peek() {
    let lexer = Lexer::new("x = 5");
    let mut parser = Parser::new(lexer);
    assert!(parser.expect_peek(&TokenEnum::ASSIGN));
    assert_eq!(parser.diagnostics().len(), 0);
    // peek is now INT(5), so expecting a semicolon fails and records it
    assert!(!parser.expect_peek(&TokenEnum::SEMICOLON));
    assert_eq!(parser.diagnostics().len(), 1);
}

#[test]
fn test_current_and_peek_checks() {
    let lexer = Lexer::new("let x");
    let parser = Parser::new(lexer);
    assert!(parser.current_token_is(TokenEnum::LET));
    assert!(!parser.current_token_is(TokenEnum::RETURN));
    assert!(parser.peek_token_is(&TokenEnum::IDENT { name: "x".to_string() }));
    assert!(!parser.peek_token_is(&TokenEnum::IDENT { name: "y".to_string() }));
}

#[test]
fn test_statement_ranges() {
    let lexer = Lexer::new("let x = 5; return 7;");
    let mut parser = Parser::new(lexer);
    let program = parser.parse_program();
    assert_eq!(program.statements.len(), 2);
    match &program.statements[0] {
        Statement::LetStatement(let_statement) => {
            assert_eq!(let_statement.range.start, 0);
            assert_eq!(let_statement.range.end, 10);
        },
        other => panic!("expected a let statement, got {:?}", other),
    }
    match &program.statements[1] {
        Statement::ReturnStatement(return_statement) => {
            assert_eq!(return_statement.range.start, 11);
            assert_eq!(return_statement.range.end, 20);
        },
        other => panic!("expected a return statement, got {:?}", other),
    }
}
