//! The token model: token kinds, source ranges, and keyword lookup.
//!
//! Ranges are measured in characters (Unicode scalar values), not bytes,
//! so that a multi-byte character occupies exactly one position. For a
//! multi-character token the `end` offset is exclusive.

use vstd::prelude::*;
use vstd::string::{StrSliceExecFns, StringExecFns};

verus! {

/// A half-open character range `[start, end)` in the source text,
/// as mathematical positions. This is the specification-level view of
/// [`TokenRange`].
pub struct SpanView {
    pub start: int,
    pub end: int,
}

/// The specification-level view of [`TokenEnum`]: the same variants,
/// with the identifier's spelling abstracted to a sequence of characters.
pub enum TokenKindView {
    ILLEGAL,
    EOF,
    IDENT { name: Seq<char> },
    INT(u32),
    ASSIGN,
    PLUS,
    MINUS,
    BANG,
    ASTERISK,
    SLASH,
    LT,
    GT,
    EQ,
    NEQ,
    COMMA,
    SEMICOLON,
    LPAREN,
    RPAREN,
    LBRACE,
    RBRACE,
    FUNCTION,
    LET,
    TRUE,
    FALSE,
    IF,
    ELSE,
    RETURN,
}

/// The specification-level view of a [`Token`]: its kind and its span.
pub struct TokenView {
    pub kind: TokenKindView,
    pub span: SpanView,
}

/// A half-open character range `[start, end)` in the source text.
/// Invariant of every token the lexer emits: `start <= end`.
#[derive(Copy, Clone, Debug, PartialEq, Eq, Structural)]
pub struct TokenRange {
    pub start: usize,
    pub end: usize,
}

impl View for TokenRange {
    type V = SpanView;

    open spec fn view(&self) -> SpanView {
        SpanView { start: self.start as int, end: self.end as int }
    }
}

pub type TokenType = TokenEnum;

/// The closed set of token kinds of the language.
#[derive(PartialEq, Eq, Clone, Debug)]
pub enum TokenEnum {
    ILLEGAL,
    EOF,
    // identifiers + literals
    IDENT { name: String },
    INT(u32),
    // operators
    ASSIGN,
    PLUS,
    MINUS,
    BANG,
    ASTERISK,
    SLASH,
    LT,
    GT,
    EQ,
    NEQ,
    // delimiters
    COMMA,
    SEMICOLON,
    LPAREN,
    RPAREN,
    LBRACE,
    RBRACE,
    // keywords
    FUNCTION,
    LET,
    TRUE,
    FALSE,
    IF,
    ELSE,
    RETURN,
}

impl View for TokenEnum {
    type V = TokenKindView;

    open spec fn view(&self) -> TokenKindView {
        match self {
            TokenEnum::ILLEGAL => TokenKindView::ILLEGAL,
            TokenEnum::EOF => TokenKindView::EOF,
            TokenEnum::IDENT { name } => TokenKindView::IDENT { name: name@ },
            TokenEnum::INT(value) => TokenKindView::INT(*value),
            TokenEnum::ASSIGN => TokenKindView::ASSIGN,
            TokenEnum::PLUS => TokenKindView::PLUS,
            TokenEnum::MINUS => TokenKindView::MINUS,
            TokenEnum::BANG => TokenKindView::BANG,
            TokenEnum::ASTERISK => TokenKindView::ASTERISK,
            TokenEnum::SLASH => TokenKindView::SLASH,
            TokenEnum::LT => TokenKindView::LT,
            TokenEnum::GT => TokenKindView::GT,
            TokenEnum::EQ => TokenKindView::EQ,
            TokenEnum::NEQ => TokenKindView::NEQ,
            TokenEnum::COMMA => TokenKindView::COMMA,
            TokenEnum::SEMICOLON => TokenKindView::SEMICOLON,
            TokenEnum::LPAREN => TokenKindView::LPAREN,
            TokenEnum::RPAREN => TokenKindView::RPAREN,
            TokenEnum::LBRACE => TokenKindView::LBRACE,
            TokenEnum::RBRACE => TokenKindView::RBRACE,
            TokenEnum::FUNCTION => TokenKindView::FUNCTION,
            TokenEnum::LET => TokenKindView::LET,
            TokenEnum::TRUE => TokenKindView::TRUE,
            TokenEnum::FALSE => TokenKindView::FALSE,
            TokenEnum::IF => TokenKindView::IF,
            TokenEnum::ELSE => TokenKindView::ELSE,
            TokenEnum::RETURN => TokenKindView::RETURN,
        }
    }
}

/// A token: its kind together with the source range it was read from.
#[derive(Clone, Debug)]
pub struct Token {
    pub token_type: TokenType,
    pub range: TokenRange,
}

impl View for Token {
    type V = TokenView;

    open spec fn view(&self) -> TokenView {
        TokenView { kind: self.token_type@, span: self.range@ }
    }
}

/// Compares two strings by their character sequences.
fn str_eq(a: &str, b: &str) -> (r: bool)
    ensures
        r == (a@ == b@),
{
    let n = a.unicode_len();
    if n != b.unicode_len() {
        return false;
    }
    let mut i: usize = 0;
    while i < n
        invariant
            n == a@.len(),
            n == b@.len(),
            i <= n,
            forall|k: int| 0 <= k < i ==> a@[k] == b@[k],
        decreases n - i,
    {
        if a.get_char(i) != b.get_char(i) {
            return false;
        }
        i += 1;
    }
    proof {
        assert(a@ =~= b@);
    }
    true
}

/// The keyword table: a fixed mapping from an identifier's spelling to a
/// keyword kind, falling back to `IDENT` for any other spelling.
pub open spec fn keyword_kind(name: Seq<char>) -> TokenKindView {
    if name == "fn"@ {
        TokenKindView::FUNCTION
    } else if name == "let"@ {
        TokenKindView::LET
    } else if name == "true"@ {
        TokenKindView::TRUE
    } else if name == "false"@ {
        TokenKindView::FALSE
    } else if name == "if"@ {
        TokenKindView::IF
    } else if name == "else"@ {
        TokenKindView::ELSE
    } else if name == "return"@ {
        TokenKindView::RETURN
    } else {
        TokenKindView::IDENT { name }
    }
}

/// Resolves an identifier's spelling through the keyword table.
pub fn lookup_ident(ident: &str) -> (t: TokenType)
    ensures
        t@ == keyword_kind(ident@),
{
    if str_eq(ident, "fn") {
        TokenEnum::FUNCTION
    } else if str_eq(ident, "let") {
        TokenEnum::LET
    } else if str_eq(ident, "true") {
        TokenEnum::TRUE
    } else if str_eq(ident, "false") {
        TokenEnum::FALSE
    } else if str_eq(ident, "if") {
        TokenEnum::IF
    } else if str_eq(ident, "else") {
        TokenEnum::ELSE
    } else if str_eq(ident, "return") {
        TokenEnum::RETURN
    } else {
        TokenEnum::IDENT { name: ident.to_owned() }
    }
}

/// Structural equality of token kinds, decided at the level of their views.
pub fn token_kind_eq(a: &TokenEnum, b: &TokenEnum) -> (r: bool)
    ensures
        r == (a@ == b@),
{
    match (a, b) {
        (TokenEnum::ILLEGAL, TokenEnum::ILLEGAL) => true,
        (TokenEnum::EOF, TokenEnum::EOF) => true,
        (TokenEnum::IDENT { name: x }, TokenEnum::IDENT { name: y }) => str_eq(
            x.as_str(),
            y.as_str(),
        ),
        (TokenEnum::INT(x), TokenEnum::INT(y)) => x == y,
        (TokenEnum::ASSIGN, TokenEnum::ASSIGN) => true,
        (TokenEnum::PLUS, TokenEnum::PLUS) => true,
        (TokenEnum::MINUS, TokenEnum::MINUS) => true,
        (TokenEnum::BANG, TokenEnum::BANG) => true,
        (TokenEnum::ASTERISK, TokenEnum::ASTERISK) => true,
        (TokenEnum::SLASH, TokenEnum::SLASH) => true,
        (TokenEnum::LT, TokenEnum::LT) => true,
        (TokenEnum::GT, TokenEnum::GT) => true,
        (TokenEnum::EQ, TokenEnum::EQ) => true,
        (TokenEnum::NEQ, TokenEnum::NEQ) => true,
        (TokenEnum::COMMA, TokenEnum::COMMA) => true,
        (TokenEnum::SEMICOLON, TokenEnum::SEMICOLON) => true,
        (TokenEnum::LPAREN, TokenEnum::LPAREN) => true,
        (TokenEnum::RPAREN, TokenEnum::RPAREN) => true,
        (TokenEnum::LBRACE, TokenEnum::LBRACE) => true,
        (TokenEnum::RBRACE, TokenEnum::RBRACE) => true,
        (TokenEnum::FUNCTION, TokenEnum::FUNCTION) => true,
        (TokenEnum::LET, TokenEnum::LET) => true,
        (TokenEnum::TRUE, TokenEnum::TRUE) => true,
        (TokenEnum::FALSE, TokenEnum::FALSE) => true,
        (TokenEnum::IF, TokenEnum::IF) => true,
        (TokenEnum::ELSE, TokenEnum::ELSE) => true,
        (TokenEnum::RETURN, TokenEnum::RETURN) => true,
        _ => false,
    }
}

/// The character for one decimal digit.
pub open spec fn digit_char(d: int) -> char {
    if d == 0 {
        '0'
    } else if d == 1 {
        '1'
    } else if d == 2 {
        '2'
    } else if d == 3 {
        '3'
    } else if d == 4 {
        '4'
    } else if d == 5 {
        '5'
    } else if d == 6 {
        '6'
    } else if d == 7 {
        '7'
    } else if d == 8 {
        '8'
    } else {
        '9'
    }
}

/// The decimal digits of `v`, most significant first; empty for zero.
pub open spec fn dec_digits(v: int) -> Seq<char>
    decreases v,
{
    if v <= 0 {
        Seq::empty()
    } else {
        dec_digits(v / 10).push(digit_char(v % 10))
    }
}

/// The canonical decimal spelling of `v`: `"0"` for zero, no leading
/// zeros otherwise.
pub open spec fn int_text(v: u32) -> Seq<char> {
    if v == 0 {
        seq!['0']
    } else {
        dec_digits(v as int)
    }
}

/// The display text of a token kind: the spelling it was lexed from, or
/// its name for `ILLEGAL` and `EOF`.
pub open spec fn token_text(kind: TokenKindView) -> Seq<char> {
    match kind {
        TokenKindView::ILLEGAL => "ILLEGAL"@,
        TokenKindView::EOF => "EOF"@,
        TokenKindView::IDENT { name } => name,
        TokenKindView::INT(value) => int_text(value),
        TokenKindView::ASSIGN => "="@,
        TokenKindView::PLUS => "+"@,
        TokenKindView::MINUS => "-"@,
        TokenKindView::BANG => "!"@,
        TokenKindView::ASTERISK => "*"@,
        TokenKindView::SLASH => "/"@,
        TokenKindView::LT => "<"@,
        TokenKindView::GT => ">"@,
        TokenKindView::EQ => "=="@,
        TokenKindView::NEQ => "!="@,
        TokenKindView::COMMA => ","@,
        TokenKindView::SEMICOLON => ";"@,
        TokenKindView::LPAREN => "("@,
        TokenKindView::RPAREN => ")"@,
        TokenKindView::LBRACE => "{"@,
        TokenKindView::RBRACE => "}"@,
        TokenKindView::FUNCTION => "fn"@,
        TokenKindView::LET => "let"@,
        TokenKindView::TRUE => "true"@,
        TokenKindView::FALSE => "false"@,
        TokenKindView::IF => "if"@,
        TokenKindView::ELSE => "else"@,
        TokenKindView::RETURN => "return"@,
    }
}

/// One decimal digit as a string slice.
fn digit_str(d: u32) -> (r: &'static str)
    requires
        d < 10,
    ensures
        r@ == seq![digit_char(d as int)],
{
    let r: &'static str = match d {
        0 => "0",
        1 => "1",
        2 => "2",
        3 => "3",
        4 => "4",
        5 => "5",
        6 => "6",
        7 => "7",
        8 => "8",
        _ => "9",
    };
    proof {
        reveal_strlit("0");
        reveal_strlit("1");
        reveal_strlit("2");
        reveal_strlit("3");
        reveal_strlit("4");
        reveal_strlit("5");
        reveal_strlit("6");
        reveal_strlit("7");
        reveal_strlit("8");
        reveal_strlit("9");
    }
    r
}

/// The decimal digits of `v`, most significant first; the empty string
/// for zero.
fn dec_text(v: u32) -> (s: String)
    ensures
        s@ == dec_digits(v as int),
    decreases v,
{
    if v == 0 {
        String::new()
    } else {
        let mut s = dec_text(v / 10);
        let d = v % 10;
        s.append(digit_str(d));
        proof {
            assert(s@ =~= dec_digits((v / 10) as int).push(digit_char((v % 10) as int)));
        }
        s
    }
}

/// The canonical decimal spelling of `v`.
fn u32_text(v: u32) -> (s: String)
    ensures
        s@ == int_text(v),
{
    if v == 0 {
        let s = String::from_str("0");
        proof {
            reveal_strlit("0");
            assert(s@ =~= seq!['0']);
        }
        s
    } else {
        dec_text(v)
    }
}

impl TokenEnum {
    /// The display text of this token kind.
    pub fn text(&self) -> (s: String)
        ensures
            s@ == token_text(self@),
    {
        match self {
            TokenEnum::ILLEGAL => String::from_str("ILLEGAL"),
            TokenEnum::EOF => String::from_str("EOF"),
            TokenEnum::IDENT { name } => name.clone(),
            TokenEnum::INT(value) => u32_text(*value),
            TokenEnum::ASSIGN => String::from_str("="),
            TokenEnum::PLUS => String::from_str("+"),
            TokenEnum::MINUS => String::from_str("-"),
            TokenEnum::BANG => String::from_str("!"),
            TokenEnum::ASTERISK => String::from_str("*"),
            TokenEnum::SLASH => String::from_str("/"),
            TokenEnum::LT => String::from_str("<"),
            TokenEnum::GT => String::from_str(">"),
            TokenEnum::EQ => String::from_str("=="),
            TokenEnum::NEQ => String::from_str("!="),
            TokenEnum::COMMA => String::from_str(","),
            TokenEnum::SEMICOLON => String::from_str(";"),
            TokenEnum::LPAREN => String::from_str("("),
            TokenEnum::RPAREN => String::from_str(")"),
            TokenEnum::LBRACE => String::from_str("{"),
            TokenEnum::RBRACE => String::from_str("}"),
            TokenEnum::FUNCTION => String::from_str("fn"),
            TokenEnum::LET => String::from_str("let"),
            TokenEnum::TRUE => String::from_str("true"),
            TokenEnum::FALSE => String::from_str("false"),
            TokenEnum::IF => String::from_str("if"),
            TokenEnum::ELSE => String::from_str("else"),
            TokenEnum::RETURN => String::from_str("return"),
        }
    }

    /// An owned copy with the same view.
    pub fn duplicate(&self) -> (t: TokenEnum)
        ensures
            t@ == self@,
    {
        match self {
            TokenEnum::ILLEGAL => TokenEnum::ILLEGAL,
            TokenEnum::EOF => TokenEnum::EOF,
            TokenEnum::IDENT { name } => TokenEnum::IDENT { name: name.clone() },
            TokenEnum::INT(value) => TokenEnum::INT(*value),
            TokenEnum::ASSIGN => TokenEnum::ASSIGN,
            TokenEnum::PLUS => TokenEnum::PLUS,
            TokenEnum::MINUS => TokenEnum::MINUS,
            TokenEnum::BANG => TokenEnum::BANG,
            TokenEnum::ASTERISK => TokenEnum::ASTERISK,
            TokenEnum::SLASH => TokenEnum::SLASH,
            TokenEnum::LT => TokenEnum::LT,
            TokenEnum::GT => TokenEnum::GT,
            TokenEnum::EQ => TokenEnum::EQ,
            TokenEnum::NEQ => TokenEnum::NEQ,
            TokenEnum::COMMA => TokenEnum::COMMA,
            TokenEnum::SEMICOLON => TokenEnum::SEMICOLON,
            TokenEnum::LPAREN => TokenEnum::LPAREN,
            TokenEnum::RPAREN => TokenEnum::RPAREN,
            TokenEnum::LBRACE => TokenEnum::LBRACE,
            TokenEnum::RBRACE => TokenEnum::RBRACE,
            TokenEnum::FUNCTION => TokenEnum::FUNCTION,
            TokenEnum::LET => TokenEnum::LET,
            TokenEnum::TRUE => TokenEnum::TRUE,
            TokenEnum::FALSE => TokenEnum::FALSE,
            TokenEnum::IF => TokenEnum::IF,
            TokenEnum::ELSE => TokenEnum::ELSE,
            TokenEnum::RETURN => TokenEnum::RETURN,
        }
    }
}

impl Token {
    /// An owned copy with the same view.
    pub fn duplicate(&self) -> (t: Token)
        ensures
            t@ == self@,
    {
        Token { token_type: self.token_type.duplicate(), range: self.range }
    }
}

/// A single character as an owned one-character string.
///
/// Relies on `char::to_string` (the `Display` implementation for `char`):
/// the returned string consists of exactly that character.
#[verifier::external_body]
pub fn char_to_str(input: char) -> (s: String)
    ensures
        s@ == seq![input],
{
    input.to_string()
}

} // verus!
