use monkey_lib::token::{char_to_str, lookup_ident, token_kind_eq, TokenEnum, TokenRange};

#[test]
fn test_lookup_ident_keywords() {
    assert_eq!(lookup_ident("fn"), TokenEnum::FUNCTION);
    assert_eq!(lookup_ident("let"), TokenEnum::LET);
    assert_eq!(lookup_ident("true"), TokenEnum::TRUE);
    assert_eq!(lookup_ident("false"), TokenEnum::FALSE);
    assert_eq!(lookup_ident("if"), TokenEnum::IF);
    assert_eq!(lookup_ident("else"), TokenEnum::ELSE);
    assert_eq!(lookup_ident("return"), TokenEnum::RETURN);
    assert_eq!(lookup_ident("foobar"), TokenEnum::IDENT { name: "foobar".to_string() });
    // a prefix or extension of a keyword is an ordinary identifier
    assert_eq!(lookup_ident("le"), TokenEnum::IDENT { name: "le".to_string() });
    assert_eq!(lookup_ident("lets"), TokenEnum::IDENT { name: "lets".to_string() });
}

#[test]
fn test_char_to_str() {
    assert_eq!(char_to_str('a'), "a");
    assert_eq!(char_to_str(';'), ";");
    assert_eq!(char_to_str('\u{a9}'), "\u{a9}");
}

#[test]
fn test_token_kind_eq() {
    let a = TokenEnum::IDENT { name: "five".to_string() };
    let b = TokenEnum::IDENT { name: "five".to_string() };
    let c = TokenEnum::IDENT { name: "ten".to_string() };
    assert!(token_kind_eq(&a, &b));
    assert!(!token_kind_eq(&a, &c));
    assert!(token_kind_eq(&TokenEnum::INT(7), &TokenEnum::INT(7)));
    assert!(!token_kind_eq(&TokenEnum::INT(7), &TokenEnum::INT(8)));
    assert!(!token_kind_eq(&TokenEnum::EQ, &TokenEnum::ASSIGN));
}

#[test]
fn test_token_text() {
    assert_eq!(TokenEnum::ILLEGAL.text(), "ILLEGAL");
    assert_eq!(TokenEnum::EOF.text(), "EOF");
    assert_eq!(TokenEnum::IDENT { name: "add".to_string() }.text(), "add");
    assert_eq!(TokenEnum::INT(0).text(), "0");
    assert_eq!(TokenEnum::INT(10).text(), "10");
    assert_eq!(TokenEnum::INT(838383).text(), "838383");
    assert_eq!(TokenEnum::INT(4294967295).text(), "4294967295");
    assert_eq!(TokenEnum::ASSIGN.text(), "=");
    assert_eq!(TokenEnum::EQ.text(), "==");
    assert_eq!(TokenEnum::NEQ.text(), "!=");
    assert_eq!(TokenEnum::LBRACE.text(), "{");
    assert_eq!(TokenEnum::RBRACE.text(), "}");
    assert_eq!(TokenEnum::FUNCTION.text(), "fn");
    assert_eq!(TokenEnum::RETURN.text(), "return");
}

#[test]
fn test_token_range_equality() {
    assert_eq!(TokenRange { start: 1, end: 3 }, TokenRange { start: 1, end: 3 });
    assert_ne!(TokenRange { start: 1, end: 3 }, TokenRange { start: 1, end: 4 });
}
