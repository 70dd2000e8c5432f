//! The lexer: turns the source character sequence into tokens, one call
//! at a time.
//!
//! What `next_token` returns is pinned down by the specification function
//! [`scan_token`], which describes one scanning step on the character
//! sequence: skip whitespace, then recognize a one- or two-character
//! operator, a delimiter, an identifier or keyword, an integer literal,
//! an illegal character, or the end of the input.

use crate::token::{
    keyword_kind, SpanView, Token, TokenEnum, TokenKindView, TokenRange, TokenView,
};
use vstd::prelude::*;
use vstd::string::StrSliceExecFns;

verus! {

/// The characters skipped between tokens.
pub open spec fn is_space_char(c: char) -> bool {
    c == ' ' || c == '\t' || c == '\n' || c == '\r' || c == '\u{b}' || c == '\u{c}'
}

/// The characters an identifier or keyword is made of.
pub open spec fn is_letter_char(c: char) -> bool {
    (('a' as u32) <= (c as u32) && (c as u32) <= ('z' as u32)) || (('A' as u32) <= (c as u32) && (
    c as u32) <= ('Z' as u32))
}

/// The decimal digits.
pub open spec fn is_digit_char(c: char) -> bool {
    ('0' as u32) <= (c as u32) && (c as u32) <= ('9' as u32)
}

fn is_space(c: char) -> (r: bool)
    ensures
        r == is_space_char(c),
{
    c == ' ' || c == '\t' || c == '\n' || c == '\r' || c == '\u{b}' || c == '\u{c}'
}

fn is_letter(c: char) -> (r: bool)
    ensures
        r == is_letter_char(c),
{
    let n = c as u32;
    (('a' as u32) <= n && n <= ('z' as u32)) || (('A' as u32) <= n && n <= ('Z' as u32))
}

fn is_digit(c: char) -> (r: bool)
    ensures
        r == is_digit_char(c),
{
    let n = c as u32;
    ('0' as u32) <= n && n <= ('9' as u32)
}

/// The position of the first non-whitespace character at or after `i`,
/// or the end of the sequence.
pub open spec fn skip_spaces(s: Seq<char>, i: int) -> int
    decreases s.len() - i,
{
    if 0 <= i < s.len() && is_space_char(s[i]) {
        skip_spaces(s, i + 1)
    } else {
        i
    }
}

pub proof fn lemma_skip_spaces(s: Seq<char>, i: int)
    requires
        0 <= i <= s.len(),
    ensures
        i <= skip_spaces(s, i) <= s.len(),
        skip_spaces(s, i) < s.len() ==> !is_space_char(s[skip_spaces(s, i)]),
        forall|k: int| i <= k < skip_spaces(s, i) ==> is_space_char(s[k]),
    decreases s.len() - i,
{
    if i < s.len() && is_space_char(s[i]) {
        lemma_skip_spaces(s, i + 1);
    }
}

/// The end (exclusive) of the maximal run of letters starting at `i`.
pub open spec fn letters_end(s: Seq<char>, i: int) -> int
    decreases s.len() - i,
{
    if 0 <= i < s.len() && is_letter_char(s[i]) {
        letters_end(s, i + 1)
    } else {
        i
    }
}

pub proof fn lemma_letters_end(s: Seq<char>, i: int)
    requires
        0 <= i <= s.len(),
    ensures
        i <= letters_end(s, i) <= s.len(),
        letters_end(s, i) < s.len() ==> !is_letter_char(s[letters_end(s, i)]),
        forall|k: int| i <= k < letters_end(s, i) ==> is_letter_char(s[k]),
    decreases s.len() - i,
{
    if i < s.len() && is_letter_char(s[i]) {
        lemma_letters_end(s, i + 1);
    }
}

/// The end (exclusive) of the maximal run of digits starting at `i`.
pub open spec fn digits_end(s: Seq<char>, i: int) -> int
    decreases s.len() - i,
{
    if 0 <= i < s.len() && is_digit_char(s[i]) {
        digits_end(s, i + 1)
    } else {
        i
    }
}

pub proof fn lemma_digits_end(s: Seq<char>, i: int)
    requires
        0 <= i <= s.len(),
    ensures
        i <= digits_end(s, i) <= s.len(),
        digits_end(s, i) < s.len() ==> !is_digit_char(s[digits_end(s, i)]),
        forall|k: int| i <= k < digits_end(s, i) ==> is_digit_char(s[k]),
    decreases s.len() - i,
{
    if i < s.len() && is_digit_char(s[i]) {
        lemma_digits_end(s, i + 1);
    }
}

/// The numeric value of one decimal digit.
pub open spec fn digit_value(c: char) -> int {
    (c as u32) - ('0' as u32)
}

/// The value of a sequence of decimal digits, most significant first.
pub open spec fn digits_value(s: Seq<char>) -> int
    decreases s.len(),
{
    if s.len() == 0 {
        0
    } else {
        digits_value(s.drop_last()) * 10 + digit_value(s.last())
    }
}

pub proof fn lemma_digits_value_nonneg(s: Seq<char>)
    requires
        forall|k: int| 0 <= k < s.len() ==> is_digit_char(s[k]),
    ensures
        digits_value(s) >= 0,
    decreases s.len(),
{
    if s.len() > 0 {
        lemma_digits_value_nonneg(s.drop_last());
    }
}

/// The value of a prefix of a digit run never exceeds the value of the
/// whole run.
pub proof fn lemma_digits_value_prefix(s: Seq<char>, i: int)
    requires
        forall|k: int| 0 <= k < s.len() ==> is_digit_char(s[k]),
        0 <= i <= s.len(),
    ensures
        0 <= digits_value(s.take(i)) <= digits_value(s),
    decreases s.len() - i,
{
    if i == s.len() {
        assert(s.take(i) =~= s);
        lemma_digits_value_nonneg(s);
    } else {
        lemma_digits_value_prefix(s, i + 1);
        assert(s.take(i + 1).drop_last() =~= s.take(i));
        assert(forall|k: int| 0 <= k < s.take(i).len() ==> is_digit_char(s.take(i)[k]));
        lemma_digits_value_nonneg(s.take(i));
        assert(digits_value(s.take(i + 1)) == digits_value(s.take(i)) * 10 + digit_value(
            s.take(i + 1).last(),
        ));
    }
}

/// Every maximal digit run in `s` has a value below 2^32. Integer
/// literals must fit in an unsigned 32-bit value; an overflowing literal
/// is a fatal error, out of scope for recovery, so the lexing contracts
/// require this of the input. [`int_literals_fit_check`] decides it at
/// run time.
pub open spec fn int_literals_fit(s: Seq<char>) -> bool {
    forall|i: int|
        0 <= i < s.len() && is_digit_char(s[i]) && (i == 0 || !is_digit_char(s[i - 1]))
            ==> digits_value(s.subrange(i, #[trigger] digits_end(s, i))) < 0x1_0000_0000
}

/// Decides at run time whether every integer literal of `input` fits in
/// an unsigned 32-bit value: exactly when [`int_literals_fit`] holds, as
/// the lexing contracts require.
pub fn int_literals_fit_check(input: &str) -> (r: bool)
    ensures
        r == int_literals_fit(input@),
{
    let ghost s = input@;
    let n = input.unicode_len();
    let mut i: usize = 0;
    let mut prev_digit = false;
    while i < n
        invariant
            n == s.len(),
            s == input@,
            i <= n,
            prev_digit == (i > 0 && is_digit_char(s[i - 1])),
            forall|j: int|
                0 <= j < i && is_digit_char(s[j]) && (j == 0 || !is_digit_char(s[j - 1]))
                    ==> digits_value(s.subrange(j, #[trigger] digits_end(s, j))) < 0x1_0000_0000,
        decreases n - i,
    {
        let c = input.get_char(i);
        if is_digit(c) && !prev_digit {
            let ghost start = i as int;
            let ghost e = digits_end(s, start);
            let ghost run = s.subrange(start, e);
            proof {
                lemma_digits_end(s, start);
                assert(forall|k: int| 0 <= k < run.len() ==> is_digit_char(run[k]));
                assert(s.subrange(start, start) =~= Seq::<char>::empty());
            }
            let mut acc: u64 = 0;
            loop
                invariant
                    n == s.len(),
                    s == input@,
                    0 <= start,
                    start == 0 || !is_digit_char(s[start - 1]),
                    is_digit_char(s[start]),
                    start <= i as int <= e,
                    e == digits_end(s, start),
                    e <= n,
                    forall|k: int| start <= k < e ==> is_digit_char(s[k]),
                    e < n ==> !is_digit_char(s[e]),
                    acc <= 0x1_0000_0000,
                    digits_value(s.subrange(start, i as int)) < 0x1_0000_0000 ==> acc as int
                        == digits_value(s.subrange(start, i as int)),
                    digits_value(s.subrange(start, i as int)) >= 0x1_0000_0000 ==> acc
                        == 0x1_0000_0000,
                    forall|j: int|
                        0 <= j < start && is_digit_char(s[j]) && (j == 0 || !is_digit_char(
                            s[j - 1],
                        )) ==> digits_value(s.subrange(j, #[trigger] digits_end(s, j)))
                            < 0x1_0000_0000,
                ensures
                    n == s.len(),
                    s == input@,
                    0 <= start,
                    start == 0 || !is_digit_char(s[start - 1]),
                    i as int == e,
                    e == digits_end(s, start),
                    e <= n,
                    is_digit_char(s[start]),
                    (acc < 0x1_0000_0000) == (digits_value(s.subrange(start, e))
                        < 0x1_0000_0000),
                    forall|j: int|
                        0 <= j < start && is_digit_char(s[j]) && (j == 0 || !is_digit_char(
                            s[j - 1],
                        )) ==> digits_value(s.subrange(j, #[trigger] digits_end(s, j)))
                            < 0x1_0000_0000,
                decreases n - i,
            {
                if i >= n {
                    break ;
                }
                let c2 = input.get_char(i);
                if !is_digit(c2) {
                    break ;
                }
                proof {
                    let p = i as int;
                    assert(p < e);
                    lemma_digits_value_nonneg(s.subrange(start, p));
                    assert(s.subrange(start, p + 1).drop_last() =~= s.subrange(start, p));
                    assert(digits_value(s.subrange(start, p + 1)) == digits_value(
                        s.subrange(start, p),
                    ) * 10 + digit_value(s[p]));
                }
                let d = (c2 as u32) - ('0' as u32);
                acc = if acc >= 0x1_0000_0000 {
                    0x1_0000_0000
                } else {
                    let next = acc * 10 + (d as u64);
                    if next >= 0x1_0000_0000 {
                        0x1_0000_0000
                    } else {
                        next
                    }
                };
                i = i + 1;
            }
            if acc >= 0x1_0000_0000 {
                proof {
                    assert(digits_value(s.subrange(start, digits_end(s, start)))
                        >= 0x1_0000_0000);
                    assert(!int_literals_fit(s));
                }
                return false;
            }
            proof {
                lemma_digits_end(s, start);
                assert(e >= start + 1);
                assert forall|j: int|
                    0 <= j < i && is_digit_char(s[j]) && (j == 0 || !is_digit_char(
                        s[j - 1],
                    )) implies digits_value(s.subrange(j, #[trigger] digits_end(s, j)))
                    < 0x1_0000_0000 by {
                    if j > start {
                        assert(is_digit_char(s[j - 1]));
                    }
                }
            }
            prev_digit = true;
        } else {
            prev_digit = is_digit(c);
            i = i + 1;
        }
    }
    true
}

/// The outcome of one scanning step: the token read and the position the
/// lexer stands at afterwards.
pub struct ScanResult {
    pub token: TokenView,
    pub next: int,
}

pub open spec fn scan_result(kind: TokenKindView, start: int, end: int, next: int) -> ScanResult {
    ScanResult { token: TokenView { kind, span: SpanView { start, end } }, next }
}

/// One scanning step at position `i` of `s`.
///
/// Whitespace is skipped first. `==` and `!=` are single two-character
/// tokens; `=` and `!` alone are `ASSIGN` and `BANG`. A letter starts a
/// maximal letter run, resolved through the keyword table; a digit starts
/// a maximal digit run read as a decimal value. Any other character is an
/// `ILLEGAL` token with a zero-width range, and the position still
/// advances past it. At the end of the input the token is `EOF` with a
/// zero-width range at the end, and the position stays there.
pub open spec fn scan_token(s: Seq<char>, i: int) -> ScanResult {
    let j = skip_spaces(s, i);
    if j >= s.len() {
        scan_result(TokenKindView::EOF, s.len() as int, s.len() as int, s.len() as int)
    } else {
        let c = s[j];
        if c == '=' {
            if j + 1 < s.len() && s[j + 1] == '=' {
                scan_result(TokenKindView::EQ, j, j + 2, j + 2)
            } else {
                scan_result(TokenKindView::ASSIGN, j, j + 1, j + 1)
            }
        } else if c == '!' {
            if j + 1 < s.len() && s[j + 1] == '=' {
                scan_result(TokenKindView::NEQ, j, j + 2, j + 2)
            } else {
                scan_result(TokenKindView::BANG, j, j + 1, j + 1)
            }
        } else if c == ';' {
            scan_result(TokenKindView::SEMICOLON, j, j + 1, j + 1)
        } else if c == '(' {
            scan_result(TokenKindView::LPAREN, j, j + 1, j + 1)
        } else if c == ')' {
            scan_result(TokenKindView::RPAREN, j, j + 1, j + 1)
        } else if c == ',' {
            scan_result(TokenKindView::COMMA, j, j + 1, j + 1)
        } else if c == '+' {
            scan_result(TokenKindView::PLUS, j, j + 1, j + 1)
        } else if c == '{' {
            scan_result(TokenKindView::LBRACE, j, j + 1, j + 1)
        } else if c == '}' {
            scan_result(TokenKindView::RBRACE, j, j + 1, j + 1)
        } else if c == '-' {
            scan_result(TokenKindView::MINUS, j, j + 1, j + 1)
        } else if c == '*' {
            scan_result(TokenKindView::ASTERISK, j, j + 1, j + 1)
        } else if c == '/' {
            scan_result(TokenKindView::SLASH, j, j + 1, j + 1)
        } else if c == '<' {
            scan_result(TokenKindView::LT, j, j + 1, j + 1)
        } else if c == '>' {
            scan_result(TokenKindView::GT, j, j + 1, j + 1)
        } else if is_letter_char(c) {
            let e = letters_end(s, j);
            scan_result(keyword_kind(s.subrange(j, e)), j, e, e)
        } else if is_digit_char(c) {
            let e = digits_end(s, j);
            scan_result(TokenKindView::INT(digits_value(s.subrange(j, e)) as u32), j, e, e)
        } else {
            scan_result(TokenKindView::ILLEGAL, j, j, j + 1)
        }
    }
}

/// The lexer's abstract state: the full character sequence and the
/// position the next scan starts from.
pub struct LexerView {
    pub text: Seq<char>,
    pub position: int,
}

/// The lexer. It owns a borrow of the whole source text and a cursor,
/// measured in characters, that only moves forward.
#[derive(Debug)]
pub struct Lexer<'a> {
    input: &'a str,
    position: usize,
}

impl<'a> View for Lexer<'a> {
    type V = LexerView;

    closed spec fn view(&self) -> LexerView {
        LexerView { text: self.input@, position: self.position as int }
    }
}

impl<'a> Lexer<'a> {
    /// The cursor stays within the text, and never splits a digit run:
    /// whenever it stands on a digit, that digit begins a maximal run.
    pub open spec fn wf(&self) -> bool {
        &&& self@.position <= self@.text.len()
        &&& (0 < self@.position < self@.text.len() ==> !(is_digit_char(
            self@.text[self@.position - 1],
        ) && is_digit_char(self@.text[self@.position])))
    }

    pub fn new(input: &'a str) -> (lexer: Self)
        ensures
            lexer@.text == input@,
            lexer@.position == 0,
            lexer.wf(),
    {
        Lexer { input, position: 0 }
    }

    /// Advances the cursor over the maximal whitespace run it stands on.
    fn skip_whitespace(&mut self)
        requires
            old(self).wf(),
        ensures
            final(self).wf(),
            final(self)@.text == old(self)@.text,
            final(self)@.position == skip_spaces(old(self)@.text, old(self)@.position),
    {
        let n = self.input.unicode_len();
        proof {
            lemma_skip_spaces(self.input@, self.position as int);
        }
        loop
            invariant
                self.wf(),
                n == self@.text.len(),
                self@.text == old(self)@.text,
                old(self)@.position <= self@.position <= n,
                skip_spaces(self@.text, old(self)@.position) == skip_spaces(
                    self@.text,
                    self@.position,
                ),
                forall|k: int|
                    old(self)@.position <= k < self@.position ==> is_space_char(self@.text[k]),
            ensures
                self@.text == old(self)@.text,
                self@.position == skip_spaces(old(self)@.text, old(self)@.position),
                old(self)@.position <= self@.position,
                self@.position > old(self)@.position ==> is_space_char(
                    self@.text[self@.position - 1],
                ),
            decreases n - self.position,
        {
            if self.position >= n {
                break ;
            }
            let c = self.input.get_char(self.position);
            if !is_space(c) {
                break ;
            }
            self.position = self.position + 1;
        }
    }

    /// Reads the maximal letter run the cursor stands on; returns its
    /// spelling and its half-open range.
    fn read_identifier(&mut self) -> (r: (String, usize, usize))
        requires
            old(self).wf(),
            old(self)@.position < old(self)@.text.len(),
            is_letter_char(old(self)@.text[old(self)@.position]),
        ensures
            final(self).wf(),
            final(self)@.text == old(self)@.text,
            r.1 == old(self)@.position,
            r.2 == final(self)@.position,
            final(self)@.position == letters_end(old(self)@.text, old(self)@.position),
            r.0@ == old(self)@.text.subrange(r.1 as int, r.2 as int),
    {
        let pos = self.position;
        let n = self.input.unicode_len();
        proof {
            lemma_letters_end(self.input@, self.position as int);
        }
        loop
            invariant
                n == self@.text.len(),
                self@.text == old(self)@.text,
                pos == old(self)@.position,
                pos <= self@.position <= letters_end(self@.text, pos as int),
                letters_end(self@.text, pos as int) <= n,
                forall|k: int|
                    pos <= k < letters_end(self@.text, pos as int) ==> is_letter_char(
                        self@.text[k],
                    ),
                letters_end(self@.text, pos as int) < n ==> !is_letter_char(
                    self@.text[letters_end(self@.text, pos as int)],
                ),
            ensures
                self@.text == old(self)@.text,
                self@.position == letters_end(self@.text, pos as int),
            decreases n - self.position,
        {
            if self.position >= n {
                break ;
            }
            let c = self.input.get_char(self.position);
            if !is_letter(c) {
                break ;
            }
            self.position = self.position + 1;
        }
        let slice = self.input.substring_char(pos, self.position);
        (slice.to_owned(), pos, self.position)
    }

    /// Reads the maximal digit run the cursor stands on as a decimal
    /// value; returns the value and the run's half-open range.
    fn read_int(&mut self) -> (r: (u32, usize, usize))
        requires
            old(self).wf(),
            int_literals_fit(old(self)@.text),
            old(self)@.position < old(self)@.text.len(),
            is_digit_char(old(self)@.text[old(self)@.position]),
            old(self)@.position == 0 || !is_digit_char(old(self)@.text[old(self)@.position - 1]),
        ensures
            final(self).wf(),
            final(self)@.text == old(self)@.text,
            r.1 == old(self)@.position,
            r.2 == final(self)@.position,
            final(self)@.position == digits_end(old(self)@.text, old(self)@.position),
            r.0 as int == digits_value(
                old(self)@.text.subrange(r.1 as int, r.2 as int),
            ),
    {
        let pos = self.position;
        let ghost s = self@.text;
        let ghost e = digits_end(s, pos as int);
        let ghost run = s.subrange(pos as int, e);
        let n = self.input.unicode_len();
        proof {
            lemma_digits_end(s, pos as int);
            assert(int_literals_fit(s));
            assert(digits_value(s.subrange(pos as int, digits_end(s, pos as int)))
                < 0x1_0000_0000);
            assert(forall|k: int| 0 <= k < run.len() ==> is_digit_char(run[k]));
            assert(s.subrange(pos as int, pos as int) =~= run.take(0));
            lemma_digits_value_prefix(run, 0);
        }
        let mut value: u32 = 0;
        loop
            invariant
                n == s.len(),
                self@.text == s,
                s == old(self)@.text,
                pos == old(self)@.position,
                pos <= self@.position <= e,
                e == digits_end(s, pos as int),
                e <= n,
                run == s.subrange(pos as int, e),
                digits_value(run) < 0x1_0000_0000,
                forall|k: int| pos <= k < e ==> is_digit_char(s[k]),
                e < n ==> !is_digit_char(s[e]),
                forall|k: int| 0 <= k < run.len() ==> is_digit_char(run[k]),
                value as int == digits_value(s.subrange(pos as int, self@.position as int)),
            ensures
                self@.text == s,
                self@.position == e,
                value as int == digits_value(run),
            decreases n - self.position,
        {
            if self.position >= n {
                proof {
                    assert(self@.position == e);
                    assert(s.subrange(pos as int, e) == run);
                }
                break ;
            }
            let c = self.input.get_char(self.position);
            if !is_digit(c) {
                proof {
                    assert(self@.position == e);
                }
                break ;
            }
            proof {
                assert(self@.position < e);
                let p = self@.position as int;
                assert(s.subrange(pos as int, p + 1) =~= run.take(p + 1 - pos));
                assert(s.subrange(pos as int, p) =~= run.take(p - pos));
                lemma_digits_value_prefix(run, p + 1 - pos);
                assert(run.take(p + 1 - pos).drop_last() =~= run.take(p - pos));
                assert(digits_value(run.take(p + 1 - pos)) == digits_value(run.take(p - pos)) * 10
                    + digit_value(s[p]));
            }
            let d = (c as u32) - ('0' as u32);
            value = value * 10 + d;
            self.position = self.position + 1;
        }
        proof {
            lemma_digits_end(s, pos as int);
        }
        (value, pos, self.position)
    }

    /// Reads the next token, as [`scan_token`] describes, and advances
    /// the cursor to the position after it. Once the end of the input is
    /// reached, every further call returns `EOF` again and the cursor
    /// stays put.
    pub fn next_token(&mut self) -> (t: Token)
        requires
            old(self).wf(),
            int_literals_fit(old(self)@.text),
        ensures
            final(self).wf(),
            final(self)@.text == old(self)@.text,
            t@ == scan_token(old(self)@.text, old(self)@.position).token,
            final(self)@.position == scan_token(old(self)@.text, old(self)@.position).next,
    {
        let ghost s = self@.text;
        let ghost start_pos = self@.position;
        self.skip_whitespace();
        proof {
            lemma_skip_spaces(s, start_pos);
        }
        let n = self.input.unicode_len();
        if self.position >= n {
            return Token {
                token_type: TokenEnum::EOF,
                range: TokenRange { start: self.position, end: self.position },
            };
        }
        let c = self.input.get_char(self.position);
        if c == '=' {
            let start = self.position;
            if start + 1 < n && self.input.get_char(start + 1) == '=' {
                self.position = start + 2;
                return Token { token_type: TokenEnum::EQ, range: TokenRange { start, end: start + 2 } };
            } else {
                self.position = start + 1;
                return Token {
                    token_type: TokenEnum::ASSIGN,
                    range: TokenRange { start, end: start + 1 },
                };
            }
        }
        if c == '!' {
            let start = self.position;
            if start + 1 < n && self.input.get_char(start + 1) == '=' {
                self.position = start + 2;
                return Token { token_type: TokenEnum::NEQ, range: TokenRange { start, end: start + 2 } };
            } else {
                self.position = start + 1;
                return Token {
                    token_type: TokenEnum::BANG,
                    range: TokenRange { start, end: start + 1 },
                };
            }
        }
        let single: Option<TokenEnum> = match c {
            ';' => Some(TokenEnum::SEMICOLON),
            '(' => Some(TokenEnum::LPAREN),
            ')' => Some(TokenEnum::RPAREN),
            ',' => Some(TokenEnum::COMMA),
            '+' => Some(TokenEnum::PLUS),
            '{' => Some(TokenEnum::LBRACE),
            '}' => Some(TokenEnum::RBRACE),
            '-' => Some(TokenEnum::MINUS),
            '*' => Some(TokenEnum::ASTERISK),
            '/' => Some(TokenEnum::SLASH),
            '<' => Some(TokenEnum::LT),
            '>' => Some(TokenEnum::GT),
            _ => None,
        };
        if let Some(token_type) = single {
            let start = self.position;
            self.position = start + 1;
            return Token { token_type, range: TokenRange { start, end: start + 1 } };
        }
        if is_letter(c) {
            let (literal, start, end) = self.read_identifier();
            return Token {
                token_type: crate::token::lookup_ident(literal.as_str()),
                range: TokenRange { start, end },
            };
        }
        if is_digit(c) {
            proof {
                if self@.position > start_pos {
                    assert(is_space_char(s[self@.position - 1]));
                }
            }
            let (int_value, start, end) = self.read_int();
            return Token {
                token_type: TokenEnum::INT(int_value),
                range: TokenRange { start, end },
            };
        }
        let start = self.position;
        self.position = start + 1;
        Token { token_type: TokenEnum::ILLEGAL, range: TokenRange { start, end: start } }
    }
}

/// Once a scan yields `EOF`, the position is the end of the input, and
/// every further scan yields the very same `EOF` outcome: the terminal
/// state is idempotent.
pub proof fn lemma_end_of_input_stable(s: Seq<char>, i: int)
    requires
        0 <= i <= s.len(),
        scan_token(s, i).token.kind is EOF,
    ensures
        scan_token(s, i).next == s.len(),
        scan_token(s, scan_token(s, i).next) == scan_token(s, i),
{
    lemma_skip_spaces(s, i);
}

/// Every scanned token satisfies `start <= end`, it begins at or after
/// the position scanned from, and the start of the following token is at
/// or after the start of this one: ranges are monotonically
/// non-decreasing across successive scans.
pub proof fn lemma_ranges_monotonic(s: Seq<char>, i: int)
    requires
        0 <= i <= s.len(),
    ensures
        ({
            let r = scan_token(s, i);
            &&& i <= r.token.span.start <= r.token.span.end <= s.len()
            &&& r.token.span.start <= r.next <= s.len()
            &&& r.token.span.start <= scan_token(s, r.next).token.span.start
        }),
{
    lemma_skip_spaces(s, i);
    let j = skip_spaces(s, i);
    if j < s.len() {
        lemma_letters_end(s, j);
        lemma_digits_end(s, j);
    }
    let r = scan_token(s, i);
    lemma_skip_spaces(s, r.next);
}

/// A scan never stalls: either the position advances strictly, or the
/// scan yielded `EOF` at the end of the input.
pub proof fn lemma_scan_progress(s: Seq<char>, i: int)
    requires
        0 <= i <= s.len(),
    ensures
        scan_token(s, i).next > i || scan_token(s, i).token.kind is EOF,
        i <= scan_token(s, i).next <= s.len(),
        scan_token(s, i).token.kind is EOF ==> scan_token(s, i).next == s.len(),
{
    lemma_skip_spaces(s, i);
    let j = skip_spaces(s, i);
    if j < s.len() {
        lemma_letters_end(s, j);
        lemma_digits_end(s, j);
    }
}

/// `==` and `!=` lex as one two-character token each (`EQ` / `NEQ`), not
/// as two single-character tokens.
pub proof fn lemma_two_char_operators(s: Seq<char>, i: int)
    requires
        0 <= i <= s.len(),
        ({
            let j = skip_spaces(s, i);
            &&& j + 1 < s.len()
            &&& (s[j] == '=' || s[j] == '!')
            &&& s[j + 1] == '='
        }),
    ensures
        ({
            let j = skip_spaces(s, i);
            let r = scan_token(s, i);
            &&& r.token.kind == (if s[j] == '=' {
                TokenKindView::EQ
            } else {
                TokenKindView::NEQ
            })
            &&& r.token.span.start == j
            &&& r.token.span.end == j + 2
            &&& r.next == j + 2
        }),
{
    lemma_skip_spaces(s, i);
}

} // verus!
