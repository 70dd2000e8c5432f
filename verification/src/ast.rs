//! The abstract syntax tree: statement and expression nodes, and the
//! operator-precedence table.
//!
//! Every composite node exclusively owns its children: the tree has no
//! sharing and no cycles. Each node type has a specification-level view
//! (`ExprView`, `StmtView`) over character sequences and mathematical
//! spans.

use crate::token::{SpanView, Token, TokenEnum, TokenKindView, TokenRange, TokenView};
use vstd::prelude::*;

verus! {

/// The specification-level view of an [`Expression`].
pub enum ExprView {
    IdentExpr { name: Seq<char>, span: SpanView },
    IntExpr { value: u32, span: SpanView },
    PrefixExpr { op: TokenView, operand: Box<ExprView>, span: SpanView },
    InfixExpr { op: TokenView, left: Box<ExprView>, right: Box<ExprView>, span: SpanView },
}

/// The specification-level view of a [`Statement`].
pub enum StmtView {
    LetStmt { expression: ExprView, span: SpanView },
    ReturnStmt { expression: ExprView, span: SpanView },
    ExprStmt { expression: ExprView },
}

/// A wrapper over any node of the tree.
pub enum Node {
    Statement(Statement),
    Expression(Expression),
    Program(Program),
}

/// A statement of the language.
#[derive(Debug)]
pub enum Statement {
    LetStatement(LetStatement),
    ReturnStatement(ReturnStatement),
    Expression(Expression),
}

/// `let <identifier> = ...;` — holds the bound identifier and the range
/// from the `let` keyword to the closing semicolon.
#[derive(Debug)]
pub struct LetStatement {
    pub expression: Expression,
    pub range: TokenRange,
}

/// `return <expression>;` — holds the returned expression and the range
/// from the `return` keyword to the last consumed token.
#[derive(Debug)]
pub struct ReturnStatement {
    pub expression: Expression,
    pub range: TokenRange,
}

/// An expression of the language.
#[derive(Debug)]
pub enum Expression {
    Identifier(Identifier),
    Literal(Literal),
    Prefix(Prefix),
    Infix(Infix),
}

/// A literal expression.
#[derive(Debug)]
pub enum Literal {
    Integer(Integer),
}

/// A prefix operator applied to an operand.
#[derive(Debug)]
pub struct Prefix {
    pub token: Token,
    pub expression: Box<Expression>,
    pub range: TokenRange,
}

/// A binary operator applied to a left and a right sub-expression.
#[derive(Debug)]
pub struct Infix {
    pub token: Token,
    pub left: Box<Expression>,
    pub right: Box<Expression>,
    pub range: TokenRange,
}

/// An unsigned 32-bit integer literal.
#[derive(Debug)]
pub struct Integer {
    pub value: u32,
    pub range: TokenRange,
}

/// A name, with the range it was read from.
#[derive(Debug)]
pub struct Identifier {
    pub name: String,
    pub range: TokenRange,
}

/// An ordered sequence of statements; it owns the whole tree.
#[derive(Debug)]
pub struct Program {
    pub statements: Vec<Statement>,
}

pub open spec fn expr_view(e: Expression) -> ExprView
    decreases e,
{
    match e {
        Expression::Identifier(id) => ExprView::IdentExpr { name: id.name@, span: id.range@ },
        Expression::Literal(Literal::Integer(i)) => ExprView::IntExpr {
            value: i.value,
            span: i.range@,
        },
        Expression::Prefix(p) => ExprView::PrefixExpr {
            op: p.token@,
            operand: Box::new(expr_view(*p.expression)),
            span: p.range@,
        },
        Expression::Infix(i) => ExprView::InfixExpr {
            op: i.token@,
            left: Box::new(expr_view(*i.left)),
            right: Box::new(expr_view(*i.right)),
            span: i.range@,
        },
    }
}

impl View for Expression {
    type V = ExprView;

    open spec fn view(&self) -> ExprView {
        expr_view(*self)
    }
}

pub open spec fn stmt_view(s: Statement) -> StmtView {
    match s {
        Statement::LetStatement(l) => StmtView::LetStmt {
            expression: expr_view(l.expression),
            span: l.range@,
        },
        Statement::ReturnStatement(r) => StmtView::ReturnStmt {
            expression: expr_view(r.expression),
            span: r.range@,
        },
        Statement::Expression(e) => StmtView::ExprStmt { expression: expr_view(e) },
    }
}

impl View for Statement {
    type V = StmtView;

    open spec fn view(&self) -> StmtView {
        stmt_view(*self)
    }
}

impl View for Program {
    type V = Seq<StmtView>;

    open spec fn view(&self) -> Seq<StmtView> {
        self.statements@.map_values(|s: Statement| stmt_view(s))
    }
}

impl Expression {
    /// An owned copy with the same view.
    pub fn duplicate(&self) -> (e: Expression)
        ensures
            e@ == self@,
        decreases *self,
    {
        match self {
            Expression::Identifier(id) => Expression::Identifier(
                Identifier { name: id.name.clone(), range: id.range },
            ),
            Expression::Literal(Literal::Integer(i)) => Expression::Literal(
                Literal::Integer(Integer { value: i.value, range: i.range }),
            ),
            Expression::Prefix(p) => Expression::Prefix(
                Prefix {
                    token: p.token.duplicate(),
                    expression: Box::new(p.expression.duplicate()),
                    range: p.range,
                },
            ),
            Expression::Infix(i) => Expression::Infix(
                Infix {
                    token: i.token.duplicate(),
                    left: Box::new(i.left.duplicate()),
                    right: Box::new(i.right.duplicate()),
                    range: i.range,
                },
            ),
        }
    }
}

/// The totally ordered precedence levels, used only as ordinals for
/// comparison, never carried in nodes.
#[derive(Debug, Copy, Clone, PartialEq, Eq, Structural)]
pub enum Precedence {
    LOWEST,
    EQUALS,
    LessGreater,
    SUM,
    PRODUCT,
    PREFIX,
    CALL,
    INDEX,
}

/// The ordinal of a precedence level.
pub open spec fn precedence_level(p: Precedence) -> int {
    match p {
        Precedence::LOWEST => 0,
        Precedence::EQUALS => 1,
        Precedence::LessGreater => 2,
        Precedence::SUM => 3,
        Precedence::PRODUCT => 4,
        Precedence::PREFIX => 5,
        Precedence::CALL => 6,
        Precedence::INDEX => 7,
    }
}

impl Precedence {
    /// The ordinal of this precedence level.
    pub fn level(&self) -> (v: u8)
        ensures
            v as int == precedence_level(*self),
    {
        match self {
            Precedence::LOWEST => 0,
            Precedence::EQUALS => 1,
            Precedence::LessGreater => 2,
            Precedence::SUM => 3,
            Precedence::PRODUCT => 4,
            Precedence::PREFIX => 5,
            Precedence::CALL => 6,
            Precedence::INDEX => 7,
        }
    }

    /// `self` binds strictly less tightly than `other`.
    pub fn binds_less_than(&self, other: &Precedence) -> (r: bool)
        ensures
            r == (precedence_level(*self) < precedence_level(*other)),
    {
        self.level() < other.level()
    }
}

/// The precedence table: the binding strength an operator token has in
/// infix position. `LPAREN` is reserved at `CALL` strength for
/// call-expression parsing; every non-operator token sits at `LOWEST`.
pub open spec fn token_precedence(kind: TokenKindView) -> Precedence {
    match kind {
        TokenKindView::EQ => Precedence::EQUALS,
        TokenKindView::NEQ => Precedence::EQUALS,
        TokenKindView::LT => Precedence::LessGreater,
        TokenKindView::GT => Precedence::LessGreater,
        TokenKindView::PLUS => Precedence::SUM,
        TokenKindView::MINUS => Precedence::SUM,
        TokenKindView::ASTERISK => Precedence::PRODUCT,
        TokenKindView::SLASH => Precedence::PRODUCT,
        TokenKindView::LPAREN => Precedence::CALL,
        _ => Precedence::LOWEST,
    }
}

/// Looks an operator token up in the precedence table.
pub fn get_precedence(token: &TokenEnum) -> (p: Precedence)
    ensures
        p == token_precedence(token@),
{
    match token {
        TokenEnum::EQ => Precedence::EQUALS,
        TokenEnum::NEQ => Precedence::EQUALS,
        TokenEnum::LT => Precedence::LessGreater,
        TokenEnum::GT => Precedence::LessGreater,
        TokenEnum::PLUS => Precedence::SUM,
        TokenEnum::MINUS => Precedence::SUM,
        TokenEnum::ASTERISK => Precedence::PRODUCT,
        TokenEnum::SLASH => Precedence::PRODUCT,
        TokenEnum::LPAREN => Precedence::CALL,
        _ => Precedence::LOWEST,
    }
}

} // verus!
