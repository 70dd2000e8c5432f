//! The parser: a pull-based state machine over two buffered tokens,
//! `current` and `peek`, refilled from the lexer one token at a time.
//!
//! The parser never aborts on malformed input: it records a
//! [`Diagnostic`] and resynchronizes, and `parse_program` makes forward
//! progress on every iteration, so it terminates on every input.
//!
//! Every method's contract is stated against the grammar's specification
//! functions in [`crate::grammar`], over the parser's abstract state: the
//! stream of remaining tokens, the end position of the input, and the
//! diagnostics recorded so far.

use crate::ast::{
    get_precedence, precedence_level, stmt_view, token_precedence, Expression, Identifier, Infix,
    Integer, LetStatement, Literal, Precedence, Program, ReturnStatement, Statement, StmtView,
};
use crate::grammar::{
    cur_token, eof_token, is_infix_operator, peek_token, spec_infix_chain, spec_parse_expression,
    spec_parse_expression_statement, spec_parse_infix, spec_parse_let_statement,
    spec_parse_prefix, spec_parse_program, spec_parse_return_statement, spec_parse_statement,
    spec_skip_to_semicolon, stream_drop, DiagnosticView,
};
use crate::grammar::{lemma_infix_chain_step, lemma_stream_drop_twice};
use crate::lexer::{int_literals_fit, lemma_scan_progress, scan_token, Lexer};
use crate::token::{token_kind_eq, token_text, Token, TokenEnum, TokenRange, TokenView};
use vstd::prelude::*;
use vstd::string::StringExecFns;

verus! {

/// A recorded, non-fatal description of a malformed construct.
#[derive(Debug)]
pub enum Diagnostic {
    /// An expected token kind was absent: `expected` did not match
    /// `actual`, found at character offset `position`. When the expected
    /// kind is an identifier, the carried name is an empty placeholder.
    UnexpectedToken { expected: TokenEnum, actual: TokenEnum, position: usize },
    /// The token at character offset `position` cannot start an
    /// expression.
    NoPrefixParse { token: TokenEnum, position: usize },
}

impl View for Diagnostic {
    type V = DiagnosticView;

    open spec fn view(&self) -> DiagnosticView {
        match self {
            Diagnostic::UnexpectedToken { expected, actual, position } => {
                DiagnosticView::UnexpectedToken {
                    expected: expected@,
                    actual: actual@,
                    position: *position as int,
                }
            },
            Diagnostic::NoPrefixParse { token, position } => {
                DiagnosticView::NoPrefixParse { token: token@, position: *position as int }
            },
        }
    }
}

/// The views of a sequence of diagnostics.
pub open spec fn diags_view(v: Seq<Diagnostic>) -> Seq<DiagnosticView> {
    v.map_values(|d: Diagnostic| d@)
}

/// The rendered text of a diagnostic.
pub open spec fn message_text(d: DiagnosticView) -> Seq<char> {
    match d {
        DiagnosticView::UnexpectedToken { expected, actual, position } => "expected next token to be "@
            + token_text(expected) + ", got "@ + token_text(actual) + " instead."@,
        DiagnosticView::NoPrefixParse { token, position } => "no prefix parse function for "@
            + token_text(token) + " found."@,
    }
}

impl Diagnostic {
    /// This diagnostic rendered as a message for the caller to show.
    pub fn message(&self) -> (s: String)
        ensures
            s@ == message_text(self@),
    {
        match self {
            Diagnostic::UnexpectedToken { expected, actual, position } => {
                let mut s = String::from_str("expected next token to be ");
                let expected_text = expected.text();
                s.append(expected_text.as_str());
                s.append(", got ");
                let actual_text = actual.text();
                s.append(actual_text.as_str());
                s.append(" instead.");
                s
            },
            Diagnostic::NoPrefixParse { token, position } => {
                let mut s = String::from_str("no prefix parse function for ");
                let token_str = token.text();
                s.append(token_str.as_str());
                s.append(" found.");
                s
            },
        }
    }
}

/// The tokens still to be scanned from position `i` of `s`: every token
/// up to, but not including, the final `EOF`.
pub open spec fn lex_tail(s: Seq<char>, i: int) -> Seq<TokenView>
    decreases s.len() - i
        when 0 <= i <= s.len()
        via lex_tail_decreases
{
    let r = scan_token(s, i);
    if r.token.kind is EOF {
        Seq::empty()
    } else {
        seq![r.token] + lex_tail(s, r.next)
    }
}

#[via_fn]
proof fn lex_tail_decreases(s: Seq<char>, i: int) {
    lemma_scan_progress(s, i);
}

/// No token of `lex_tail` is an `EOF` token.
pub proof fn lemma_lex_tail_no_eof(s: Seq<char>, i: int)
    requires
        0 <= i <= s.len(),
    ensures
        forall|k: int|
            0 <= k < lex_tail(s, i).len() ==> !((#[trigger] lex_tail(s, i)[k]).kind is EOF),
    decreases s.len() - i,
{
    let r = scan_token(s, i);
    lemma_scan_progress(s, i);
    if !(r.token.kind is EOF) {
        lemma_lex_tail_no_eof(s, r.next);
    }
}

/// The parser's abstract state.
pub struct ParserView {
    /// The remaining non-`EOF` tokens, beginning with the current one.
    pub rest: Seq<TokenView>,
    /// The character length of the input: where the `EOF` token sits.
    pub end: int,
    /// The diagnostics recorded so far.
    pub diags: Seq<DiagnosticView>,
}

spec fn spec_rest(cur: TokenView, peek: TokenView, text: Seq<char>, position: int) -> Seq<
    TokenView,
> {
    if cur.kind is EOF {
        Seq::empty()
    } else if peek.kind is EOF {
        seq![cur]
    } else {
        seq![cur, peek] + lex_tail(text, position)
    }
}

/// The parser. It owns its lexer and the two buffered tokens, and grows
/// a list of diagnostics instead of aborting on malformed input.
pub struct Parser<'a> {
    lexer: Lexer<'a>,
    current_token: Token,
    peek_token: Token,
    errors: Vec<Diagnostic>,
}

impl<'a> View for Parser<'a> {
    type V = ParserView;

    closed spec fn view(&self) -> ParserView {
        ParserView {
            rest: spec_rest(
                self.current_token@,
                self.peek_token@,
                self.lexer@.text,
                self.lexer@.position,
            ),
            end: self.lexer@.text.len() as int,
            diags: diags_view(self.errors@),
        }
    }
}

impl<'a> Parser<'a> {
    /// The parser's invariant: the lexer is well formed, the buffered
    /// tokens agree with the stream the lexer will produce, and the
    /// stream holds no `EOF` token.
    pub closed spec fn wf(&self) -> bool {
        &&& self.lexer.wf()
        &&& int_literals_fit(self.lexer@.text)
        &&& (self.current_token@.kind is EOF ==> self.current_token@ == eof_token(self@.end)
            && self.peek_token@.kind is EOF)
        &&& (self.peek_token@.kind is EOF ==> self.peek_token@ == eof_token(self@.end)
            && self.lexer@.position == self.lexer@.text.len())
        &&& cur_token(self@.rest, self@.end) == self.current_token@
        &&& peek_token(self@.rest, self@.end) == self.peek_token@
        &&& forall|k: int| 0 <= k < self@.rest.len() ==> !((#[trigger] self@.rest[k]).kind is EOF)
    }

    /// Builds a parser over a lexer, priming `current` and `peek` with the
    /// lexer's first two tokens. The parser's stream is exactly the token
    /// stream the lexer would produce from its position.
    pub fn new(lexer: Lexer<'a>) -> (parser: Self)
        requires
            lexer.wf(),
            int_literals_fit(lexer@.text),
        ensures
            parser.wf(),
            parser@.rest == lex_tail(lexer@.text, lexer@.position),
            parser@.end == lexer@.text.len(),
            parser@.diags == Seq::<DiagnosticView>::empty(),
    {
        let mut lexer = lexer;
        let ghost s = lexer@.text;
        let ghost p0 = lexer@.position;
        let current_token = lexer.next_token();
        let ghost p1 = lexer@.position;
        let peek_token = lexer.next_token();
        let errors: Vec<Diagnostic> = Vec::new();
        let parser = Parser { lexer, current_token, peek_token, errors };
        proof {
            lemma_scan_progress(s, p0);
            lemma_scan_progress(s, p1);
            lemma_lex_tail_no_eof(s, p0);
            if current_token@.kind is EOF {
                assert(parser@.rest =~= lex_tail(s, p0));
            } else if peek_token@.kind is EOF {
                assert(lex_tail(s, p1) =~= Seq::<TokenView>::empty());
                assert(parser@.rest =~= lex_tail(s, p0));
            } else {
                assert(lex_tail(s, p1) == seq![peek_token@] + lex_tail(
                    s,
                    parser.lexer@.position,
                ));
                assert(lex_tail(s, p0) == seq![current_token@] + lex_tail(s, p1));
                assert(parser@.rest =~= lex_tail(s, p0));
            }
            assert(diags_view(Seq::<Diagnostic>::empty()) =~= Seq::<DiagnosticView>::empty());
        }
        parser
    }

    /// Shifts `peek` into `current` and refills `peek` from the lexer:
    /// the stream loses its first token (and stays empty once empty).
    pub fn next_token(&mut self)
        requires
            old(self).wf(),
        ensures
            final(self).wf(),
            final(self)@.end == old(self)@.end,
            final(self)@.diags == old(self)@.diags,
            final(self)@.rest == stream_drop(old(self)@.rest, 1),
    {
        let ghost s = self.lexer@.text;
        let ghost pos = self.lexer@.position;
        core::mem::swap(&mut self.current_token, &mut self.peek_token);
        let next = self.lexer.next_token();
        self.peek_token = next;
        proof {
            lemma_scan_progress(s, pos);
            lemma_lex_tail_no_eof(s, pos);
            lemma_lex_tail_no_eof(s, self.lexer@.position);
            assert(final(self)@.rest =~= stream_drop(old(self)@.rest, 1));
        }
    }

    /// Whether the current token has the given kind.
    pub fn current_token_is(&self, token_type: TokenEnum) -> (r: bool)
        requires
            self.wf(),
        ensures
            r == (cur_token(self@.rest, self@.end).kind == token_type@),
    {
        token_kind_eq(&self.current_token.token_type, &token_type)
    }

    /// Whether the peeked token has the given kind.
    pub fn peek_token_is(&self, token_type: &TokenEnum) -> (r: bool)
        requires
            self.wf(),
        ensures
            r == (peek_token(self@.rest, self@.end).kind == token_type@),
    {
        token_kind_eq(&self.peek_token.token_type, token_type)
    }

    /// If the peeked token has the expected kind, advances onto it and
    /// reports success; otherwise leaves the stream alone and records an
    /// `UnexpectedToken` diagnostic.
    pub fn expect_peek(&mut self, token_type: &TokenEnum) -> (r: bool)
        requires
            old(self).wf(),
        ensures
            final(self).wf(),
            final(self)@.end == old(self)@.end,
            r == (peek_token(old(self)@.rest, old(self)@.end).kind == token_type@),
            r ==> final(self)@.rest == stream_drop(old(self)@.rest, 1) && final(self)@.diags
                == old(self)@.diags,
            !r ==> final(self)@.rest == old(self)@.rest && final(self)@.diags == old(
                self,
            )@.diags.push(
                DiagnosticView::UnexpectedToken {
                    expected: token_type@,
                    actual: peek_token(old(self)@.rest, old(self)@.end).kind,
                    position: peek_token(old(self)@.rest, old(self)@.end).span.start,
                },
            ),
    {
        if self.peek_token_is(token_type) {
            self.next_token();
            true
        } else {
            let actual = self.peek_token.token_type.duplicate();
            let position = self.peek_token.range.start;
            let diag = Diagnostic::UnexpectedToken {
                expected: token_type.duplicate(),
                actual,
                position,
            };
            self.errors.push(diag);
            proof {
                assert(final(self)@.diags =~= old(self)@.diags.push(
                    DiagnosticView::UnexpectedToken {
                        expected: token_type@,
                        actual: peek_token(old(self)@.rest, old(self)@.end).kind,
                        position: peek_token(old(self)@.rest, old(self)@.end).span.start,
                    },
                ));
            }
            false
        }
    }

    /// Parses the expression the current token can start: an identifier
    /// or an integer literal. Nothing is consumed; any other token
    /// records a `NoPrefixParse` diagnostic and yields nothing.
    pub fn parse_prefix_expression(&mut self) -> (r: Option<Expression>)
        requires
            old(self).wf(),
        ensures
            final(self).wf(),
            final(self)@.end == old(self)@.end,
            final(self)@.rest == old(self)@.rest,
            ({
                let out = spec_parse_prefix(old(self)@.rest, old(self)@.end);
                &&& (match (r, out.0) {
                    (Some(e), Some(v)) => e@ == v,
                    (None, None) => true,
                    _ => false,
                })
                &&& final(self)@.diags == old(self)@.diags + out.1
            }),
    {
        match &self.current_token.token_type {
            TokenEnum::IDENT { name } => {
                let e = Expression::Identifier(
                    Identifier { name: name.clone(), range: self.current_token.range },
                );
                proof {
                    assert(self@.diags =~= old(self)@.diags + spec_parse_prefix(
                        old(self)@.rest,
                        old(self)@.end,
                    ).1);
                }
                Some(e)
            },
            TokenEnum::INT(i) => {
                let e = Expression::Literal(
                    Literal::Integer(Integer { value: *i, range: self.current_token.range }),
                );
                proof {
                    assert(self@.diags =~= old(self)@.diags + spec_parse_prefix(
                        old(self)@.rest,
                        old(self)@.end,
                    ).1);
                }
                Some(e)
            },
            _ => {
                let token = self.current_token.token_type.duplicate();
                let position = self.current_token.range.start;
                self.errors.push(Diagnostic::NoPrefixParse { token, position });
                proof {
                    assert(self@.diags =~= old(self)@.diags + spec_parse_prefix(
                        old(self)@.rest,
                        old(self)@.end,
                    ).1);
                }
                None
            },
        }
    }

    /// Precedence climbing: parses the prefix expression the current
    /// token starts, then absorbs infix operators stronger than
    /// `precedence` from the left, and returns the expression with its
    /// aggregated range.
    pub fn parse_expression(&mut self, precedence: Precedence) -> (r: Option<
        (Expression, TokenRange),
    >)
        requires
            old(self).wf(),
        ensures
            final(self).wf(),
            final(self)@.end == old(self)@.end,
            ({
                let out = spec_parse_expression(precedence, old(self)@.rest, old(self)@.end);
                &&& (match (r, out.result) {
                    (Some(p), Some(v)) => p.0@ == v.0 && p.1@ == v.1,
                    (None, None) => true,
                    _ => false,
                })
                &&& final(self)@.rest == stream_drop(old(self)@.rest, out.used as int)
                &&& final(self)@.diags == old(self)@.diags + out.diags
            }),
        decreases old(self)@.rest.len(), 1int,
    {
        let ghost ts0 = self@.rest;
        let ghost n = self@.end;
        let ghost target = spec_parse_expression(precedence, ts0, n);
        let left_start = self.current_token.range.start;
        let prefix = self.parse_prefix_expression();
        let mut left = match prefix {
            Some(e) => e,
            None => {
                proof {
                    assert(stream_drop(ts0, 0) =~= ts0);
                }
                return None;
            },
        };
        proof {
            assert(old(self)@.diags + spec_parse_prefix(ts0, n).1 =~= old(self)@.diags);
        }
        loop
            invariant
                self.wf(),
                ts0 == old(self)@.rest,
                n == old(self)@.end,
                target == spec_parse_expression(precedence, ts0, n),
                self@.end == n,
                self@.rest.len() <= ts0.len(),
                left_start as int == cur_token(ts0, n).span.start,
                ({
                    let now = spec_infix_chain(
                        left@,
                        left_start as int,
                        precedence,
                        self@.rest,
                        n,
                    );
                    &&& now.result == target.result
                    &&& stream_drop(self@.rest, now.used as int) == stream_drop(
                        ts0,
                        target.used as int,
                    )
                    &&& self@.diags + now.diags == old(self)@.diags + target.diags
                }),
            ensures
                self.wf(),
                self@.end == n,
                ({
                    let pk = peek_token(self@.rest, n);
                    pk.kind is SEMICOLON || !(precedence_level(precedence) < precedence_level(
                        token_precedence(pk.kind),
                    ))
                }),
                ({
                    let now = spec_infix_chain(
                        left@,
                        left_start as int,
                        precedence,
                        self@.rest,
                        n,
                    );
                    &&& now.result == target.result
                    &&& stream_drop(self@.rest, now.used as int) == stream_drop(
                        ts0,
                        target.used as int,
                    )
                    &&& self@.diags + now.diags == old(self)@.diags + target.diags
                }),
            decreases self@.rest.len(),
        {
            if self.peek_token_is(&TokenEnum::SEMICOLON) {
                break ;
            }
            let peek_precedence = get_precedence(&self.peek_token.token_type);
            if !precedence.binds_less_than(&peek_precedence) {
                break ;
            }
            let ghost rest_before = self@.rest;
            let ghost diags_before = self@.diags;
            let ghost old_left = left@;
            let ghost chain_before = spec_infix_chain(
                old_left,
                left_start as int,
                precedence,
                rest_before,
                n,
            );
            let infix = self.parse_infix_expression(&left, left_start);
            proof {
                if is_infix_operator(peek_token(rest_before, n).kind) {
                    lemma_infix_chain_step(
                        old_left,
                        left_start as int,
                        precedence,
                        rest_before,
                        n,
                    );
                }
            }
            match infix {
                Some(new_left) => {
                    proof {
                        let inf = spec_parse_infix(old_left, left_start as int, rest_before, n);
                        let now = spec_infix_chain(
                            new_left@,
                            left_start as int,
                            precedence,
                            self@.rest,
                            n,
                        );
                        lemma_stream_drop_twice(rest_before, inf.used as int, now.used as int);
                        assert(diags_before + inf.diags + now.diags =~= diags_before + (inf.diags
                            + now.diags));
                    }
                    left = new_left;
                },
                None => {
                    let end = self.current_token.range.end;
                    proof {
                        let inf = spec_parse_infix(old_left, left_start as int, rest_before, n);
                        if !is_infix_operator(peek_token(rest_before, n).kind) {
                            assert(stream_drop(rest_before, 0) =~= rest_before);
                            assert(diags_before + Seq::<DiagnosticView>::empty() =~= diags_before);
                        }
                        assert(diags_before + inf.diags == old(self)@.diags + target.diags);
                    }
                    return Some((left, TokenRange { start: left_start, end }));
                },
            }
        }
        let end = self.current_token.range.end;
        proof {
            let now = spec_infix_chain(left@, left_start as int, precedence, self@.rest, n);
            assert(now.used == 0);
            assert(stream_drop(self@.rest, 0) =~= self@.rest);
            assert(self@.diags + Seq::<DiagnosticView>::empty() =~= self@.diags);
        }
        Some((left, TokenRange { start: left_start, end }))
    }

    /// One infix step: if the peeked token is an infix operator, advances
    /// onto it, parses the right operand at the operator's own precedence
    /// (which makes operators of equal strength left-associative), and
    /// combines the two sides under the operator.
    pub fn parse_infix_expression(&mut self, expression: &Expression, from: usize) -> (r: Option<
        Expression,
    >)
        requires
            old(self).wf(),
        ensures
            final(self).wf(),
            final(self)@.end == old(self)@.end,
            ({
                let out = spec_parse_infix(
                    expression@,
                    from as int,
                    old(self)@.rest,
                    old(self)@.end,
                );
                &&& (match (r, out.result) {
                    (Some(e), Some(v)) => e@ == v,
                    (None, None) => true,
                    _ => false,
                })
                &&& final(self)@.rest == stream_drop(old(self)@.rest, out.used as int)
                &&& final(self)@.diags == old(self)@.diags + out.diags
            }),
        decreases old(self)@.rest.len(), 0int,
    {
        let ghost ts0 = self@.rest;
        let ghost n = self@.end;
        let is_op = match &self.peek_token.token_type {
            TokenEnum::PLUS => true,
            TokenEnum::MINUS => true,
            TokenEnum::ASTERISK => true,
            TokenEnum::SLASH => true,
            TokenEnum::EQ => true,
            TokenEnum::NEQ => true,
            TokenEnum::LT => true,
            TokenEnum::GT => true,
            _ => false,
        };
        if !is_op {
            proof {
                assert(stream_drop(ts0, 0) =~= ts0);
                assert(self@.diags + Seq::<DiagnosticView>::empty() =~= self@.diags);
            }
            return None;
        }
        self.next_token();
        let infix_op = self.current_token.duplicate();
        let precedence_value = get_precedence(&self.current_token.token_type);
        proof {
            assert(cur_token(self@.rest, n) == peek_token(ts0, n));
        }
        self.next_token();
        proof {
            lemma_stream_drop_twice(ts0, 1, 1);
        }
        let ghost rest2 = self@.rest;
        let sub = self.parse_expression(precedence_value);
        proof {
            let sub_out = spec_parse_expression(
                token_precedence(peek_token(ts0, n).kind),
                rest2,
                n,
            );
            lemma_stream_drop_twice(ts0, 2, sub_out.used as int);
        }
        match sub {
            Some((right, span)) => {
                Some(
                    Expression::Infix(
                        Infix {
                            token: infix_op,
                            left: Box::new(expression.duplicate()),
                            right: Box::new(right),
                            range: TokenRange { start: from, end: span.end },
                        },
                    ),
                )
            },
            None => None,
        }
    }

    /// A return statement: consumes `return`, parses the returned
    /// expression, and consumes a trailing semicolon if one is present
    /// (it is not mandatory). The statement's range runs from the
    /// `return` keyword to the last consumed token.
    pub fn parse_return_statement(&mut self) -> (r: Option<Statement>)
        requires
            old(self).wf(),
        ensures
            final(self).wf(),
            final(self)@.end == old(self)@.end,
            ({
                let out = spec_parse_return_statement(old(self)@.rest, old(self)@.end);
                &&& (match (r, out.result) {
                    (Some(s), Some(v)) => s@ == v,
                    (None, None) => true,
                    _ => false,
                })
                &&& final(self)@.rest == stream_drop(old(self)@.rest, out.used as int)
                &&& final(self)@.diags == old(self)@.diags + out.diags
            }),
    {
        let ghost ts0 = self@.rest;
        let ghost n = self@.end;
        let start = self.current_token.range.start;
        self.next_token();
        let ghost ts1 = self@.rest;
        let ghost e_out = spec_parse_expression(Precedence::LOWEST, ts1, n);
        let value = match self.parse_expression(Precedence::LOWEST) {
            Some(p) => p.0,
            None => {
                proof {
                    lemma_stream_drop_twice(ts0, 1, e_out.used as int);
                }
                return None;
            },
        };
        proof {
            lemma_stream_drop_twice(ts0, 1, e_out.used as int);
        }
        let ghost ts2 = self@.rest;
        if self.peek_token_is(&TokenEnum::SEMICOLON) {
            self.next_token();
            proof {
                lemma_stream_drop_twice(ts0, 1 + e_out.used as int, 1);
            }
        }
        let end = self.current_token.range.end;
        Some(
            Statement::ReturnStatement(
                ReturnStatement { expression: value, range: TokenRange { start, end } },
            ),
        )
    }

    /// A let statement: consumes `let`, requires an identifier next (a
    /// diagnostic, and the statement is dropped, if absent), requires `=`
    /// next (a diagnostic on failure, but parsing continues regardless),
    /// then advances token by token until a semicolon or the end of the
    /// input is reached: the initializer's tokens are scanned over, not
    /// built into a subtree. The range runs from the `let` keyword to the
    /// token the skip stops on.
    pub fn parse_let_statement(&mut self) -> (r: Option<Statement>)
        requires
            old(self).wf(),
        ensures
            final(self).wf(),
            final(self)@.end == old(self)@.end,
            ({
                let out = spec_parse_let_statement(old(self)@.rest, old(self)@.end);
                &&& (match (r, out.result) {
                    (Some(s), Some(v)) => s@ == v,
                    (None, None) => true,
                    _ => false,
                })
                &&& final(self)@.rest == stream_drop(old(self)@.rest, out.used as int)
                &&& final(self)@.diags == old(self)@.diags + out.diags
            }),
    {
        let ghost ts0 = self@.rest;
        let ghost n = self@.end;
        let start = self.current_token.range.start;
        self.next_token();
        let ghost ts1 = self@.rest;
        let name = match &self.current_token.token_type {
            TokenEnum::IDENT { name } => name.clone(),
            _ => {
                let actual = self.current_token.token_type.duplicate();
                let position = self.current_token.range.start;
                let diag = Diagnostic::UnexpectedToken {
                    expected: TokenEnum::IDENT { name: String::new() },
                    actual,
                    position,
                };
                self.errors.push(diag);
                proof {
                    let out = spec_parse_let_statement(ts0, n);
                    assert(self@.diags =~= old(self)@.diags + out.diags);
                }
                return None;
            },
        };
        let ident_range = self.current_token.range;
        let expression = Expression::Identifier(Identifier { name, range: ident_range });
        let matched = self.expect_peek(&TokenEnum::ASSIGN);
        let ghost ts2 = self@.rest;
        let ghost diags2 = self@.diags;
        let ghost mut walked: int = 0;
        loop
            invariant
                self.wf(),
                self@.end == n,
                self@.diags == diags2,
                0 <= walked,
                self@.rest == stream_drop(ts2, walked),
                walked + spec_skip_to_semicolon(self@.rest, n) == spec_skip_to_semicolon(ts2, n),
            ensures
                self.wf(),
                self@.end == n,
                self@.diags == diags2,
                self@.rest == stream_drop(ts2, spec_skip_to_semicolon(ts2, n) as int),
            decreases self@.rest.len(),
        {
            if self.current_token_is(TokenEnum::SEMICOLON) {
                break ;
            }
            if self.current_token_is(TokenEnum::EOF) {
                break ;
            }
            self.next_token();
            proof {
                walked = walked + 1;
                lemma_stream_drop_twice(ts2, walked - 1, 1);
            }
        }
        let end = self.current_token.range.end;
        proof {
            let out = spec_parse_let_statement(ts0, n);
            if matched {
                lemma_stream_drop_twice(ts0, 1, 1);
                lemma_stream_drop_twice(ts0, 2, spec_skip_to_semicolon(ts2, n) as int);
                assert(self@.diags =~= old(self)@.diags + out.diags);
            } else {
                lemma_stream_drop_twice(ts0, 1, spec_skip_to_semicolon(ts2, n) as int);
                assert(self@.diags =~= old(self)@.diags + out.diags);
            }
        }
        Some(
            Statement::LetStatement(LetStatement { expression, range: TokenRange { start, end } }),
        )
    }

    /// An expression statement: the expression itself, then an optional
    /// trailing semicolon, consumed if present.
    pub fn parse_expression_statement(&mut self) -> (r: Option<Statement>)
        requires
            old(self).wf(),
        ensures
            final(self).wf(),
            final(self)@.end == old(self)@.end,
            ({
                let out = spec_parse_expression_statement(old(self)@.rest, old(self)@.end);
                &&& (match (r, out.result) {
                    (Some(s), Some(v)) => s@ == v,
                    (None, None) => true,
                    _ => false,
                })
                &&& final(self)@.rest == stream_drop(old(self)@.rest, out.used as int)
                &&& final(self)@.diags == old(self)@.diags + out.diags
            }),
    {
        let ghost ts0 = self@.rest;
        let ghost n = self@.end;
        let ghost e_out = spec_parse_expression(Precedence::LOWEST, ts0, n);
        let expression = match self.parse_expression(Precedence::LOWEST) {
            Some(p) => p.0,
            None => {
                return None;
            },
        };
        if self.peek_token_is(&TokenEnum::SEMICOLON) {
            self.next_token();
            proof {
                lemma_stream_drop_twice(ts0, e_out.used as int, 1);
            }
        }
        Some(Statement::Expression(expression))
    }

    /// Statement dispatch on the current token: `let` and `return` have
    /// their own forms; anything else is parsed as an expression
    /// statement.
    pub fn parse_statement(&mut self) -> (r: Option<Statement>)
        requires
            old(self).wf(),
        ensures
            final(self).wf(),
            final(self)@.end == old(self)@.end,
            ({
                let out = spec_parse_statement(old(self)@.rest, old(self)@.end);
                &&& (match (r, out.result) {
                    (Some(s), Some(v)) => s@ == v,
                    (None, None) => true,
                    _ => false,
                })
                &&& final(self)@.rest == stream_drop(old(self)@.rest, out.used as int)
                &&& final(self)@.diags == old(self)@.diags + out.diags
            }),
    {
        match &self.current_token.token_type {
            TokenEnum::LET => self.parse_let_statement(),
            TokenEnum::RETURN => self.parse_return_statement(),
            _ => self.parse_expression_statement(),
        }
    }

    /// Parses statements until the current token is `EOF`. After each
    /// attempt, successful or not, the parser advances at least once, so
    /// the loop terminates on every input. The program holds every
    /// statement that parsed; the diagnostics for the rest are recorded.
    pub fn parse_program(&mut self) -> (program: Program)
        requires
            old(self).wf(),
        ensures
            final(self).wf(),
            final(self)@.end == old(self)@.end,
            ({
                let out = spec_parse_program(old(self)@.rest, old(self)@.end);
                &&& program@ == out.statements
                &&& final(self)@.diags == old(self)@.diags + out.diags
                &&& final(self)@.rest == Seq::<TokenView>::empty()
            }),
    {
        let ghost ts0 = self@.rest;
        let ghost n = self@.end;
        let ghost target = spec_parse_program(ts0, n);
        let mut statements: Vec<Statement> = Vec::new();
        loop
            invariant
                self.wf(),
                ts0 == old(self)@.rest,
                n == old(self)@.end,
                n == self@.end,
                target == spec_parse_program(ts0, n),
                ({
                    let now = spec_parse_program(self@.rest, n);
                    &&& statements@.map_values(|s: Statement| stmt_view(s)) + now.statements
                        == target.statements
                    &&& self@.diags + now.diags == old(self)@.diags + target.diags
                }),
            ensures
                self.wf(),
                self@.end == n,
                cur_token(self@.rest, n).kind is EOF,
                ({
                    let now = spec_parse_program(self@.rest, n);
                    &&& statements@.map_values(|s: Statement| stmt_view(s)) + now.statements
                        == target.statements
                    &&& self@.diags + now.diags == old(self)@.diags + target.diags
                }),
            decreases self@.rest.len(),
        {
            if self.current_token_is(TokenEnum::EOF) {
                break ;
            }
            let ghost rest0 = self@.rest;
            let ghost diags0 = self@.diags;
            let ghost map0 = statements@.map_values(|s: Statement| stmt_view(s));
            let ghost st = spec_parse_statement(rest0, n);
            let statement = self.parse_statement();
            let ghost pushed = statement is Some;
            if let Some(statement) = statement {
                statements.push(statement);
            }
            self.next_token();
            proof {
                lemma_stream_drop_twice(rest0, st.used as int, 1);
                let now = spec_parse_program(self@.rest, n);
                if pushed {
                    assert(statements@.map_values(|s: Statement| stmt_view(s)) =~= map0.push(
                        st.result->Some_0,
                    ));
                    assert(map0.push(st.result->Some_0) + now.statements =~= map0 + (seq![
                        st.result->Some_0,
                    ] + now.statements));
                } else {
                    assert(seq![] + now.statements =~= now.statements);
                    assert(Seq::<StmtView>::empty() + now.statements =~= now.statements);
                }
                assert(diags0 + st.diags + now.diags =~= diags0 + (st.diags + now.diags));
            }
        }
        proof {
            assert(self@.rest =~= Seq::<TokenView>::empty());
            let now = spec_parse_program(self@.rest, n);
            assert(statements@.map_values(|s: Statement| stmt_view(s)) + now.statements
                =~= statements@.map_values(|s: Statement| stmt_view(s)));
            assert(self@.diags + now.diags =~= self@.diags);
        }
        Program { statements }
    }

    /// The diagnostics recorded so far, in the order they were found.
    pub fn diagnostics(&self) -> (diags: &Vec<Diagnostic>)
        ensures
            diags_view(diags@) == self@.diags,
    {
        &self.errors
    }
}

} // verus!
