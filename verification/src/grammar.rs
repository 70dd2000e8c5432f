//! The grammar, as specification functions over a stream of token views.
//!
//! A stream is the sequence of remaining non-`EOF` tokens, beginning with
//! the token the parser currently stands on; conceptually it continues
//! with an `EOF` token at the end of an input of `n` characters. Each
//! parsing function returns what it parsed, how many tokens it consumed,
//! and the diagnostics it recorded, so the executable parser's contracts
//! can say exactly what it builds from any input.

use crate::ast::{precedence_level, token_precedence, ExprView, Precedence, StmtView};
use crate::token::{SpanView, TokenKindView, TokenView};
use vstd::prelude::*;

verus! {

/// The specification-level view of a [`crate::parser::Diagnostic`].
pub enum DiagnosticView {
    UnexpectedToken { expected: TokenKindView, actual: TokenKindView, position: int },
    NoPrefixParse { token: TokenKindView, position: int },
}

/// The `EOF` token at the end of an input of `n` characters.
pub open spec fn eof_token(n: int) -> TokenView {
    TokenView { kind: TokenKindView::EOF, span: SpanView { start: n, end: n } }
}

/// The token a parser standing on this stream currently sees.
pub open spec fn cur_token(ts: Seq<TokenView>, n: int) -> TokenView {
    if ts.len() > 0 {
        ts[0]
    } else {
        eof_token(n)
    }
}

/// The token one position ahead of the current one.
pub open spec fn peek_token(ts: Seq<TokenView>, n: int) -> TokenView {
    if ts.len() > 1 {
        ts[1]
    } else {
        eof_token(n)
    }
}

/// The stream after consuming `k` tokens (all of them, if fewer remain).
pub open spec fn stream_drop(ts: Seq<TokenView>, k: int) -> Seq<TokenView> {
    if k <= 0 {
        ts
    } else if k >= ts.len() {
        Seq::empty()
    } else {
        ts.skip(k)
    }
}

pub proof fn lemma_stream_drop_twice(ts: Seq<TokenView>, a: int, b: int)
    requires
        a >= 0,
        b >= 0,
    ensures
        stream_drop(stream_drop(ts, a), b) == stream_drop(ts, a + b),
{
    assert(stream_drop(stream_drop(ts, a), b) =~= stream_drop(ts, a + b));
}

/// The tokens that may stand between two expressions in infix position.
pub open spec fn is_infix_operator(kind: TokenKindView) -> bool {
    ||| kind is PLUS
    ||| kind is MINUS
    ||| kind is ASTERISK
    ||| kind is SLASH
    ||| kind is EQ
    ||| kind is NEQ
    ||| kind is LT
    ||| kind is GT
}

/// What parsing an expression yields: the expression and its aggregated
/// span on success, the number of tokens consumed, and the diagnostics
/// recorded.
pub struct ExprOutcome {
    pub result: Option<(ExprView, SpanView)>,
    pub used: nat,
    pub diags: Seq<DiagnosticView>,
}

/// What one infix step yields.
pub struct InfixOutcome {
    pub result: Option<ExprView>,
    pub used: nat,
    pub diags: Seq<DiagnosticView>,
}

/// What parsing a statement yields.
pub struct StmtOutcome {
    pub result: Option<StmtView>,
    pub used: nat,
    pub diags: Seq<DiagnosticView>,
}

/// What parsing a whole program yields.
pub struct ProgramOutcome {
    pub statements: Seq<StmtView>,
    pub diags: Seq<DiagnosticView>,
}

/// The expression the current token can start: an identifier or an
/// integer literal. Any other token cannot start an expression; that is
/// a `NoPrefixParse` diagnostic. Nothing is consumed either way.
pub open spec fn spec_parse_prefix(ts: Seq<TokenView>, n: int) -> (Option<ExprView>, Seq<
    DiagnosticView,
>) {
    let cur = cur_token(ts, n);
    match cur.kind {
        TokenKindView::IDENT { name } => (
            Some(ExprView::IdentExpr { name, span: cur.span }),
            Seq::empty(),
        ),
        TokenKindView::INT(value) => (
            Some(ExprView::IntExpr { value, span: cur.span }),
            Seq::empty(),
        ),
        _ => (
            None,
            seq![DiagnosticView::NoPrefixParse { token: cur.kind, position: cur.span.start }],
        ),
    }
}

/// Precedence climbing: parse the prefix expression the current token
/// starts, then absorb infix operators stronger than `prec` from the
/// left.
pub open spec fn spec_parse_expression(prec: Precedence, ts: Seq<TokenView>, n: int) -> ExprOutcome
    decreases ts.len(), 1int,
{
    let cur = cur_token(ts, n);
    let pfx = spec_parse_prefix(ts, n);
    match pfx.0 {
        None => ExprOutcome { result: None, used: 0, diags: pfx.1 },
        Some(left) => spec_infix_chain(left, cur.span.start, prec, ts, n),
    }
}

/// The climbing loop. While the peeked token is not a semicolon and binds
/// more tightly than `prec`, one infix step runs: consume the operator,
/// parse the right operand at the operator's own precedence (which makes
/// operators of equal strength left-associative), and combine. If the
/// right operand fails to parse, the loop breaks and keeps `left`,
/// spanning to the token then current.
pub open spec fn spec_infix_chain(
    left: ExprView,
    from: int,
    prec: Precedence,
    ts: Seq<TokenView>,
    n: int,
) -> ExprOutcome
    decreases ts.len(), 0int,
{
    let pk = peek_token(ts, n);
    if pk.kind is SEMICOLON || !(precedence_level(prec) < precedence_level(
        token_precedence(pk.kind),
    )) {
        ExprOutcome {
            result: Some((left, SpanView { start: from, end: cur_token(ts, n).span.end })),
            used: 0,
            diags: Seq::empty(),
        }
    } else if is_infix_operator(pk.kind) {
        let sub = spec_parse_expression(token_precedence(pk.kind), stream_drop(ts, 2), n);
        match sub.result {
            None => {
                let after = stream_drop(ts, 2 + sub.used as int);
                ExprOutcome {
                    result: Some(
                        (left, SpanView { start: from, end: cur_token(after, n).span.end }),
                    ),
                    used: (2 + sub.used) as nat,
                    diags: sub.diags,
                }
            },
            Some(rp) => {
                let combined = ExprView::InfixExpr {
                    op: pk,
                    left: Box::new(left),
                    right: Box::new(rp.0),
                    span: SpanView { start: from, end: rp.1.end },
                };
                let rest = spec_infix_chain(combined, from, prec, stream_drop(ts, 2 + sub.used as int), n);
                ExprOutcome {
                    result: rest.result,
                    used: (2 + sub.used + rest.used) as nat,
                    diags: sub.diags + rest.diags,
                }
            },
        }
    } else {
        ExprOutcome {
            result: Some((left, SpanView { start: from, end: cur_token(ts, n).span.end })),
            used: 0,
            diags: Seq::empty(),
        }
    }
}

/// One infix step on its own, as `Parser::parse_infix_expression`
/// performs it: nothing happens unless the peeked token is an infix
/// operator.
pub open spec fn spec_parse_infix(
    left: ExprView,
    from: int,
    ts: Seq<TokenView>,
    n: int,
) -> InfixOutcome {
    let pk = peek_token(ts, n);
    if is_infix_operator(pk.kind) {
        let sub = spec_parse_expression(token_precedence(pk.kind), stream_drop(ts, 2), n);
        match sub.result {
            None => InfixOutcome { result: None, used: (2 + sub.used) as nat, diags: sub.diags },
            Some(rp) => InfixOutcome {
                result: Some(
                    ExprView::InfixExpr {
                        op: pk,
                        left: Box::new(left),
                        right: Box::new(rp.0),
                        span: SpanView { start: from, end: rp.1.end },
                    },
                ),
                used: (2 + sub.used) as nat,
                diags: sub.diags,
            },
        }
    } else {
        InfixOutcome { result: None, used: 0, diags: Seq::empty() }
    }
}

/// While the climbing loop runs, each round is exactly one
/// [`spec_parse_infix`] step.
pub proof fn lemma_infix_chain_step(
    left: ExprView,
    from: int,
    prec: Precedence,
    ts: Seq<TokenView>,
    n: int,
)
    requires
        !(peek_token(ts, n).kind is SEMICOLON),
        precedence_level(prec) < precedence_level(token_precedence(peek_token(ts, n).kind)),
        is_infix_operator(peek_token(ts, n).kind),
    ensures
        ({
            let inf = spec_parse_infix(left, from, ts, n);
            let whole = spec_infix_chain(left, from, prec, ts, n);
            match inf.result {
                None => whole == (ExprOutcome {
                    result: Some(
                        (
                            left,
                            SpanView {
                                start: from,
                                end: cur_token(stream_drop(ts, inf.used as int), n).span.end,
                            },
                        ),
                    ),
                    used: inf.used,
                    diags: inf.diags,
                }),
                Some(combined) => {
                    let rest = spec_infix_chain(
                        combined,
                        from,
                        prec,
                        stream_drop(ts, inf.used as int),
                        n,
                    );
                    whole == (ExprOutcome {
                        result: rest.result,
                        used: (inf.used + rest.used) as nat,
                        diags: inf.diags + rest.diags,
                    })
                },
            }
        }),
{
}

/// An expression statement: the expression itself, then an optional
/// trailing semicolon, consumed if present.
pub open spec fn spec_parse_expression_statement(ts: Seq<TokenView>, n: int) -> StmtOutcome {
    let e = spec_parse_expression(Precedence::LOWEST, ts, n);
    match e.result {
        None => StmtOutcome { result: None, used: e.used, diags: e.diags },
        Some(rp) => {
            let ts1 = stream_drop(ts, e.used as int);
            if peek_token(ts1, n).kind is SEMICOLON {
                StmtOutcome {
                    result: Some(StmtView::ExprStmt { expression: rp.0 }),
                    used: (e.used + 1) as nat,
                    diags: e.diags,
                }
            } else {
                StmtOutcome {
                    result: Some(StmtView::ExprStmt { expression: rp.0 }),
                    used: e.used,
                    diags: e.diags,
                }
            }
        },
    }
}

/// A return statement: `return`, the returned expression, then an
/// optional trailing semicolon. Its span runs from the `return` keyword
/// to the last consumed token.
pub open spec fn spec_parse_return_statement(ts: Seq<TokenView>, n: int) -> StmtOutcome {
    let start = cur_token(ts, n).span.start;
    let ts1 = stream_drop(ts, 1);
    let e = spec_parse_expression(Precedence::LOWEST, ts1, n);
    match e.result {
        None => StmtOutcome { result: None, used: (1 + e.used) as nat, diags: e.diags },
        Some(rp) => {
            let ts2 = stream_drop(ts1, e.used as int);
            if peek_token(ts2, n).kind is SEMICOLON {
                let end = cur_token(stream_drop(ts2, 1), n).span.end;
                StmtOutcome {
                    result: Some(
                        StmtView::ReturnStmt { expression: rp.0, span: SpanView { start, end } },
                    ),
                    used: (2 + e.used) as nat,
                    diags: e.diags,
                }
            } else {
                let end = cur_token(ts2, n).span.end;
                StmtOutcome {
                    result: Some(
                        StmtView::ReturnStmt { expression: rp.0, span: SpanView { start, end } },
                    ),
                    used: (1 + e.used) as nat,
                    diags: e.diags,
                }
            }
        },
    }
}

/// The number of tokens skipped to resynchronize on the next semicolon:
/// advances until the current token is a semicolon or the input ends.
pub open spec fn spec_skip_to_semicolon(ts: Seq<TokenView>, n: int) -> nat
    decreases ts.len(),
{
    let c = cur_token(ts, n);
    if c.kind is SEMICOLON || c.kind is EOF {
        0
    } else {
        (1 + spec_skip_to_semicolon(stream_drop(ts, 1), n)) as nat
    }
}

/// A let statement: `let`, then a required identifier (a diagnostic and a
/// dropped statement if absent), then a required `=` (a diagnostic on
/// failure, but parsing continues regardless), then a skip to the next
/// semicolon — the initializer's tokens are scanned over, not built into
/// a subtree. Its span runs from the `let` keyword to the token the skip
/// stops on.
pub open spec fn spec_parse_let_statement(ts: Seq<TokenView>, n: int) -> StmtOutcome {
    let start = cur_token(ts, n).span.start;
    let ts1 = stream_drop(ts, 1);
    let c1 = cur_token(ts1, n);
    match c1.kind {
        TokenKindView::IDENT { name } => {
            let binding = ExprView::IdentExpr { name, span: c1.span };
            let pk = peek_token(ts1, n);
            if pk.kind is ASSIGN {
                let ts2 = stream_drop(ts1, 1);
                let k = spec_skip_to_semicolon(ts2, n);
                let end = cur_token(stream_drop(ts2, k as int), n).span.end;
                StmtOutcome {
                    result: Some(
                        StmtView::LetStmt { expression: binding, span: SpanView { start, end } },
                    ),
                    used: (2 + k) as nat,
                    diags: Seq::empty(),
                }
            } else {
                let k = spec_skip_to_semicolon(ts1, n);
                let end = cur_token(stream_drop(ts1, k as int), n).span.end;
                StmtOutcome {
                    result: Some(
                        StmtView::LetStmt { expression: binding, span: SpanView { start, end } },
                    ),
                    used: (1 + k) as nat,
                    diags: seq![
                        DiagnosticView::UnexpectedToken {
                            expected: TokenKindView::ASSIGN,
                            actual: pk.kind,
                            position: pk.span.start,
                        },
                    ],
                }
            }
        },
        _ => StmtOutcome {
            result: None,
            used: 1,
            diags: seq![
                DiagnosticView::UnexpectedToken {
                    expected: TokenKindView::IDENT { name: Seq::empty() },
                    actual: c1.kind,
                    position: c1.span.start,
                },
            ],
        },
    }
}

/// Statement dispatch on the current token: `let` and `return` have their
/// own forms; anything else is an expression statement.
pub open spec fn spec_parse_statement(ts: Seq<TokenView>, n: int) -> StmtOutcome {
    match cur_token(ts, n).kind {
        TokenKindView::LET => spec_parse_let_statement(ts, n),
        TokenKindView::RETURN => spec_parse_return_statement(ts, n),
        _ => spec_parse_expression_statement(ts, n),
    }
}

/// A whole program: statements until the current token is `EOF`. After
/// each attempt, successful or not, one more token is consumed, so the
/// loop never stalls on the same token twice.
pub open spec fn spec_parse_program(ts: Seq<TokenView>, n: int) -> ProgramOutcome
    decreases ts.len(),
{
    if cur_token(ts, n).kind is EOF {
        ProgramOutcome { statements: Seq::empty(), diags: Seq::empty() }
    } else {
        let st = spec_parse_statement(ts, n);
        let rest = spec_parse_program(stream_drop(ts, st.used as int + 1), n);
        ProgramOutcome {
            statements: (match st.result {
                Some(s) => seq![s],
                None => Seq::empty(),
            }) + rest.statements,
            diags: st.diags + rest.diags,
        }
    }
}

} // verus!
