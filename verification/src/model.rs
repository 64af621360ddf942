//! The mathematical model of the scan.
//!
//! `scan` maps a source byte sequence to the full sequence of token values
//! and diagnostics that one left-to-right pass produces. `step_at` describes
//! a single dispatch on the character at a position: where the cursor moves,
//! how the line counter changes, and which token or diagnostic (if any) the
//! step emits. The executable scanner is proved equal to this model.

use vstd::prelude::*;

use crate::lox::DiagModel;
use crate::lox::Diagnostic;
use crate::lox::ErrorKind;
use crate::token::Token;
use crate::token::TokenModel;
use crate::token::TokenType;
use crate::token::LiteralModel;

verus! {

/// An ASCII decimal digit.
pub open spec fn digit(c: u8) -> bool {
    ('0' as u8) <= c && c <= ('9' as u8)
}

/// An ASCII letter or underscore: what may begin an identifier.
pub open spec fn alpha(c: u8) -> bool {
    (('a' as u8) <= c && c <= ('z' as u8)) || (('A' as u8) <= c && c <= ('Z' as u8)) || c == ('_' as u8)
}

/// What may continue an identifier.
pub open spec fn alnum(c: u8) -> bool {
    alpha(c) || digit(c)
}

/// Whitespace that is skipped without affecting the line counter.
pub open spec fn blank(c: u8) -> bool {
    c == (' ' as u8) || c == ('\t' as u8) || c == ('\r' as u8)
}

/// The single-character punctuation categories (slash is special-cased
/// because of comments and is not listed here).
pub open spec fn punct_type(c: u8) -> Option<TokenType> {
    if c == ('(' as u8) {
        Some(TokenType::LPAREN)
    } else if c == (')' as u8) {
        Some(TokenType::RPAREN)
    } else if c == ('{' as u8) {
        Some(TokenType::LBRACE)
    } else if c == ('}' as u8) {
        Some(TokenType::RBRACE)
    } else if c == (',' as u8) {
        Some(TokenType::COMMA)
    } else if c == ('.' as u8) {
        Some(TokenType::DOT)
    } else if c == ('-' as u8) {
        Some(TokenType::MINUS)
    } else if c == ('+' as u8) {
        Some(TokenType::PLUS)
    } else if c == (';' as u8) {
        Some(TokenType::SEMICOLON)
    } else if c == ('*' as u8) {
        Some(TokenType::STAR)
    } else {
        None
    }
}

/// The characters that may open a two-character operator.
pub open spec fn op_head(c: u8) -> bool {
    c == ('!' as u8) || c == ('=' as u8) || c == ('<' as u8) || c == ('>' as u8)
}

/// The one-character operator for an operator head not followed by `=`.
pub open spec fn op_single(c: u8) -> TokenType {
    if c == ('!' as u8) {
        TokenType::BANG
    } else if c == ('=' as u8) {
        TokenType::EQ
    } else if c == ('<' as u8) {
        TokenType::LT
    } else {
        TokenType::GT
    }
}

/// The two-character operator for an operator head followed by `=`.
pub open spec fn op_double(c: u8) -> TokenType {
    if c == ('!' as u8) {
        TokenType::BANGEQ
    } else if c == ('=' as u8) {
        TokenType::EQEQ
    } else if c == ('<' as u8) {
        TokenType::LTEQ
    } else {
        TokenType::GTEQ
    }
}

/// The first position at or after `i` that does not hold a digit
/// (`s.len()` if the digits run to the end).
pub open spec fn digit_run_end(s: Seq<u8>, i: int) -> int
    decreases s.len() - i, when i <= s.len()
{
    if 0 <= i < s.len() && digit(s[i]) {
        digit_run_end(s, i + 1)
    } else {
        i
    }
}

/// The first position at or after `i` that does not hold an identifier
/// character (`s.len()` if they run to the end).
pub open spec fn ident_run_end(s: Seq<u8>, i: int) -> int
    decreases s.len() - i, when i <= s.len()
{
    if 0 <= i < s.len() && alnum(s[i]) {
        ident_run_end(s, i + 1)
    } else {
        i
    }
}

/// The first position at or after `i` that holds a newline
/// (`s.len()` if none remains): where a line comment stops.
pub open spec fn line_end(s: Seq<u8>, i: int) -> int
    decreases s.len() - i, when i <= s.len()
{
    if 0 <= i < s.len() && s[i] != ('\n' as u8) {
        line_end(s, i + 1)
    } else {
        i
    }
}

/// The first position at or after `i` that holds a `"`
/// (`s.len()` if none remains): where a string literal closes.
pub open spec fn close_quote(s: Seq<u8>, i: int) -> int
    decreases s.len() - i, when i <= s.len()
{
    if 0 <= i < s.len() && s[i] != ('"' as u8) {
        close_quote(s, i + 1)
    } else {
        i
    }
}

/// How many newlines `s` holds before position `i`.
pub open spec fn newlines_before(s: Seq<u8>, i: int) -> int
    decreases i, when i >= 0
{
    if i <= 0 {
        0
    } else {
        newlines_before(s, i - 1) + if 0 <= i - 1 < s.len() && s[i - 1] == ('\n' as u8) {
            1int
        } else {
            0int
        }
    }
}

/// The exact, case-sensitive table of reserved words.
pub open spec fn keyword_of(s: Seq<u8>) -> Option<TokenType> {
    if s == kw_and() {
        Some(TokenType::AND)
    } else if s == kw_class() {
        Some(TokenType::CLASS)
    } else if s == kw_else() {
        Some(TokenType::ELSE)
    } else if s == kw_false() {
        Some(TokenType::FALSE)
    } else if s == kw_fun() {
        Some(TokenType::FUN)
    } else if s == kw_for() {
        Some(TokenType::FOR)
    } else if s == kw_if() {
        Some(TokenType::IF)
    } else if s == kw_nil() {
        Some(TokenType::NIL)
    } else if s == kw_or() {
        Some(TokenType::OR)
    } else if s == kw_print() {
        Some(TokenType::PRINT)
    } else if s == kw_return() {
        Some(TokenType::RETURN)
    } else if s == kw_super() {
        Some(TokenType::SUPER)
    } else if s == kw_this() {
        Some(TokenType::THIS)
    } else if s == kw_true() {
        Some(TokenType::TRUE)
    } else if s == kw_var() {
        Some(TokenType::VAR)
    } else if s == kw_while() {
        Some(TokenType::WHILE)
    } else {
        None
    }
}

pub open spec fn kw_and() -> Seq<u8> {
    seq![('a' as u8), ('n' as u8), ('d' as u8)]
}

pub open spec fn kw_class() -> Seq<u8> {
    seq![('c' as u8), ('l' as u8), ('a' as u8), ('s' as u8), ('s' as u8)]
}

pub open spec fn kw_else() -> Seq<u8> {
    seq![('e' as u8), ('l' as u8), ('s' as u8), ('e' as u8)]
}

pub open spec fn kw_false() -> Seq<u8> {
    seq![('f' as u8), ('a' as u8), ('l' as u8), ('s' as u8), ('e' as u8)]
}

pub open spec fn kw_fun() -> Seq<u8> {
    seq![('f' as u8), ('u' as u8), ('n' as u8)]
}

pub open spec fn kw_for() -> Seq<u8> {
    seq![('f' as u8), ('o' as u8), ('r' as u8)]
}

pub open spec fn kw_if() -> Seq<u8> {
    seq![('i' as u8), ('f' as u8)]
}

pub open spec fn kw_nil() -> Seq<u8> {
    seq![('n' as u8), ('i' as u8), ('l' as u8)]
}

pub open spec fn kw_or() -> Seq<u8> {
    seq![('o' as u8), ('r' as u8)]
}

pub open spec fn kw_print() -> Seq<u8> {
    seq![('p' as u8), ('r' as u8), ('i' as u8), ('n' as u8), ('t' as u8)]
}

pub open spec fn kw_return() -> Seq<u8> {
    seq![('r' as u8), ('e' as u8), ('t' as u8), ('u' as u8), ('r' as u8), ('n' as u8)]
}

pub open spec fn kw_super() -> Seq<u8> {
    seq![('s' as u8), ('u' as u8), ('p' as u8), ('e' as u8), ('r' as u8)]
}

pub open spec fn kw_this() -> Seq<u8> {
    seq![('t' as u8), ('h' as u8), ('i' as u8), ('s' as u8)]
}

pub open spec fn kw_true() -> Seq<u8> {
    seq![('t' as u8), ('r' as u8), ('u' as u8), ('e' as u8)]
}

pub open spec fn kw_var() -> Seq<u8> {
    seq![('v' as u8), ('a' as u8), ('r' as u8)]
}

pub open spec fn kw_while() -> Seq<u8> {
    seq![('w' as u8), ('h' as u8), ('i' as u8), ('l' as u8), ('e' as u8)]
}

/// The end-of-input marker token: empty lexeme, no payload, the final
/// line reached.
pub open spec fn eof_token(line: int) -> TokenModel {
    TokenModel {
        token_type: TokenType::EOF,
        lexeme: Seq::empty(),
        literal: LiteralModel::Absent,
        line,
    }
}

/// What one dispatch step does: where the cursor and line counter move,
/// and which token or diagnostic (at most one each) it emits.
#[verifier::ext_equal]
pub struct Step {
    pub next: int,
    pub next_line: int,
    pub token: Option<TokenModel>,
    pub diag: Option<DiagModel>,
}

/// A step that consumes `s[pos..next]`, emits nothing, and leaves the
/// line counter alone.
pub open spec fn silent_step(next: int, line: int) -> Step {
    Step { next, next_line: line, token: None, diag: None }
}

/// A step that consumes `s[pos..next]` and emits one token.
pub open spec fn token_step(next: int, line: int, t: TokenModel) -> Step {
    Step { next, next_line: line, token: Some(t), diag: None }
}

/// One dispatch on the character at `pos`, on line `line`.
pub open spec fn step_at(s: Seq<u8>, pos: int, line: int) -> Step
    recommends
        0 <= pos < s.len(),
{
    let c = s[pos];
    if punct_type(c) is Some {
        token_step(
            pos + 1,
            line,
            TokenModel {
                token_type: punct_type(c).unwrap(),
                lexeme: s.subrange(pos, pos + 1),
                literal: LiteralModel::Absent,
                line,
            },
        )
    } else if op_head(c) {
        if pos + 1 < s.len() && s[pos + 1] == ('=' as u8) {
            token_step(
                pos + 2,
                line,
                TokenModel {
                    token_type: op_double(c),
                    lexeme: s.subrange(pos, pos + 2),
                    literal: LiteralModel::Absent,
                    line,
                },
            )
        } else {
            token_step(
                pos + 1,
                line,
                TokenModel {
                    token_type: op_single(c),
                    lexeme: s.subrange(pos, pos + 1),
                    literal: LiteralModel::Absent,
                    line,
                },
            )
        }
    } else if c == ('/' as u8) {
        if pos + 1 < s.len() && s[pos + 1] == ('/' as u8) {
            // A comment: everything through the end of the line is
            // discarded; the newline itself is not consumed.
            silent_step(line_end(s, pos + 2), line)
        } else {
            token_step(
                pos + 1,
                line,
                TokenModel {
                    token_type: TokenType::SLASH,
                    lexeme: s.subrange(pos, pos + 1),
                    literal: LiteralModel::Absent,
                    line,
                },
            )
        }
    } else if c == ('"' as u8) {
        let q = close_quote(s, pos + 1);
        if q < s.len() {
            // A closed string: the token carries the opening quote's line;
            // newlines inside the literal advance the line counter.
            Step {
                next: q + 1,
                next_line: line + newlines_before(s, q) - newlines_before(s, pos + 1),
                token: Some(
                    TokenModel {
                        token_type: TokenType::STRING,
                        lexeme: s.subrange(pos, q + 1),
                        literal: LiteralModel::Text(s.subrange(pos + 1, q)),
                        line,
                    },
                ),
                diag: None,
            }
        } else {
            // Unterminated: one report at the opening quote's line, no
            // token, and the rest of the input is consumed.
            Step {
                next: s.len() as int,
                next_line: line + newlines_before(s, s.len() as int) - newlines_before(
                    s,
                    pos + 1,
                ),
                token: None,
                diag: Some(DiagModel { line, kind: ErrorKind::UnterminatedString }),
            }
        }
    } else if c == ('\n' as u8) {
        Step { next: pos + 1, next_line: line + 1, token: None, diag: None }
    } else if blank(c) {
        silent_step(pos + 1, line)
    } else if digit(c) {
        let d = digit_run_end(s, pos);
        let end = if d < s.len() && s[d] == ('.' as u8) && d + 1 < s.len() && digit(s[d + 1]) {
            digit_run_end(s, d + 1)
        } else {
            d
        };
        token_step(
            end,
            line,
            TokenModel {
                token_type: TokenType::NUM,
                lexeme: s.subrange(pos, end),
                literal: LiteralModel::Number(s.subrange(pos, end)),
                line,
            },
        )
    } else if alpha(c) {
        let end = ident_run_end(s, pos);
        let text = s.subrange(pos, end);
        match keyword_of(text) {
            Some(k) => token_step(
                end,
                line,
                TokenModel { token_type: k, lexeme: text, literal: LiteralModel::Absent, line },
            ),
            None => token_step(
                end,
                line,
                TokenModel {
                    token_type: TokenType::IDENT,
                    lexeme: text,
                    literal: LiteralModel::Text(text),
                    line,
                },
            ),
        }
    } else {
        Step {
            next: pos + 1,
            next_line: line,
            token: None,
            diag: Some(DiagModel { line, kind: ErrorKind::UnexpectedCharacter }),
        }
    }
}

/// The token and diagnostic sequences of a whole scan.
#[verifier::ext_equal]
pub struct ScanOut {
    pub tokens: Seq<TokenModel>,
    pub diags: Seq<DiagModel>,
}

pub open spec fn opt_toks(t: Option<TokenModel>) -> Seq<TokenModel> {
    match t {
        Some(tm) => seq![tm],
        None => Seq::empty(),
    }
}

pub open spec fn opt_diags(d: Option<DiagModel>) -> Seq<DiagModel> {
    match d {
        Some(dm) => seq![dm],
        None => Seq::empty(),
    }
}

/// Everything a scan produces from position `pos` on line `line` to the
/// end of the input, the end-of-input token included.
pub open spec fn scan_from(s: Seq<u8>, pos: int, line: int) -> ScanOut
    decreases s.len() - pos, when 0 <= pos <= s.len() via scan_from_decreases
{
    if !(0 <= pos < s.len()) {
        ScanOut { tokens: seq![eof_token(line)], diags: Seq::empty() }
    } else {
        let st = step_at(s, pos, line);
        let rest = scan_from(s, st.next, st.next_line);
        ScanOut {
            tokens: opt_toks(st.token) + rest.tokens,
            diags: opt_diags(st.diag) + rest.diags,
        }
    }
}

#[via_fn]
proof fn scan_from_decreases(s: Seq<u8>, pos: int, line: int) {
    if 0 <= pos < s.len() {
        lemma_step_bounds(s, pos, line);
    }
}

/// The scan of a whole source text: from its first byte, on line 1.
pub open spec fn scan(s: Seq<u8>) -> ScanOut {
    scan_from(s, 0, 1)
}

/// The token values of a token sequence.
pub open spec fn toks(ts: Seq<Token>) -> Seq<TokenModel> {
    ts.map_values(|t: Token| t@)
}

/// The diagnostic values of a diagnostic sequence.
pub open spec fn diags(ds: Seq<Diagnostic>) -> Seq<DiagModel> {
    ds.map_values(|d: Diagnostic| d@)
}

pub proof fn lemma_toks_push(ts: Seq<Token>, t: Token)
    ensures
        toks(ts.push(t)) == toks(ts).push(t@),
{
    assert(toks(ts.push(t)) =~= toks(ts).push(t@));
}

pub proof fn lemma_diags_push(ds: Seq<Diagnostic>, d: Diagnostic)
    ensures
        diags(ds.push(d)) == diags(ds).push(d@),
{
    assert(diags(ds.push(d)) =~= diags(ds).push(d@));
}

/// Where a digit run ends: past its start, within the input, all digits
/// up to it, and not a digit at it.
pub proof fn lemma_digit_run_end(s: Seq<u8>, i: int)
    requires
        0 <= i <= s.len(),
    ensures
        i <= digit_run_end(s, i) <= s.len(),
        forall|j: int| i <= j < digit_run_end(s, i) ==> digit(s[j]),
        digit_run_end(s, i) == s.len() || !digit(s[digit_run_end(s, i)]),
    decreases s.len() - i,
{
    if i < s.len() && digit(s[i]) {
        lemma_digit_run_end(s, i + 1);
    }
}

pub proof fn lemma_ident_run_end(s: Seq<u8>, i: int)
    requires
        0 <= i <= s.len(),
    ensures
        i <= ident_run_end(s, i) <= s.len(),
        forall|j: int| i <= j < ident_run_end(s, i) ==> alnum(s[j]),
        ident_run_end(s, i) == s.len() || !alnum(s[ident_run_end(s, i)]),
    decreases s.len() - i,
{
    if i < s.len() && alnum(s[i]) {
        lemma_ident_run_end(s, i + 1);
    }
}

pub proof fn lemma_line_end(s: Seq<u8>, i: int)
    requires
        0 <= i <= s.len(),
    ensures
        i <= line_end(s, i) <= s.len(),
        forall|j: int| i <= j < line_end(s, i) ==> s[j] != ('\n' as u8),
        line_end(s, i) == s.len() || s[line_end(s, i)] == ('\n' as u8),
    decreases s.len() - i,
{
    if i < s.len() && s[i] != ('\n' as u8) {
        lemma_line_end(s, i + 1);
    }
}

pub proof fn lemma_close_quote(s: Seq<u8>, i: int)
    requires
        0 <= i <= s.len(),
    ensures
        i <= close_quote(s, i) <= s.len(),
        forall|j: int| i <= j < close_quote(s, i) ==> s[j] != ('"' as u8),
        close_quote(s, i) == s.len() || s[close_quote(s, i)] == ('"' as u8),
    decreases s.len() - i,
{
    if i < s.len() && s[i] != ('"' as u8) {
        lemma_close_quote(s, i + 1);
    }
}

/// The newline count before a position is between 0 and that position.
pub proof fn lemma_newlines_bounds(s: Seq<u8>, i: int)
    requires
        0 <= i,
    ensures
        0 <= newlines_before(s, i) <= i,
    decreases i,
{
    if i > 0 {
        lemma_newlines_bounds(s, i - 1);
    }
}

/// The newline count grows by at most one per position.
pub proof fn lemma_newlines_mono(s: Seq<u8>, a: int, b: int)
    requires
        0 <= a <= b,
    ensures
        newlines_before(s, a) <= newlines_before(s, b),
        newlines_before(s, b) - newlines_before(s, a) <= b - a,
    decreases b - a,
{
    if a < b {
        lemma_newlines_mono(s, a, b - 1);
    }
}

/// A range without newlines does not change the count.
pub proof fn lemma_newlines_constant(s: Seq<u8>, a: int, b: int)
    requires
        0 <= a <= b,
        forall|j: int| a <= j < b ==> !(0 <= j < s.len() && s[j] == ('\n' as u8)),
    ensures
        newlines_before(s, b) == newlines_before(s, a),
    decreases b - a,
{
    if a < b {
        lemma_newlines_constant(s, a, b - 1);
    }
}

/// Every step moves the cursor strictly forward and never past the end.
pub proof fn lemma_step_bounds(s: Seq<u8>, pos: int, line: int)
    requires
        0 <= pos < s.len(),
    ensures
        pos < step_at(s, pos, line).next <= s.len(),
{
    let c = s[pos];
    if punct_type(c) is Some {
    } else if op_head(c) {
    } else if c == ('/' as u8) {
        if pos + 1 < s.len() && s[pos + 1] == ('/' as u8) {
            lemma_line_end(s, pos + 2);
        }
    } else if c == ('"' as u8) {
        lemma_close_quote(s, pos + 1);
    } else if c == ('\n' as u8) {
    } else if blank(c) {
    } else if digit(c) {
        lemma_digit_run_end(s, pos);
        let d = digit_run_end(s, pos);
        if d < s.len() && s[d] == ('.' as u8) && d + 1 < s.len() && digit(s[d + 1]) {
            lemma_digit_run_end(s, d + 1);
        }
    } else if alpha(c) {
        lemma_ident_run_end(s, pos);
    } else {
    }
}

/// Line tracking in one step: the line counter moves up by exactly the
/// number of newlines consumed, and an emitted token carries the line of
/// its first character (for a string, the opening quote's line).
pub proof fn lemma_step_lines(s: Seq<u8>, pos: int, line: int)
    requires
        0 <= pos < s.len(),
    ensures
        step_at(s, pos, line).next_line == line + newlines_before(s, step_at(s, pos, line).next)
            - newlines_before(s, pos),
        step_at(s, pos, line).token matches Some(t) ==> t.line == line,
    decreases s.len() - pos,
{
    let c = s[pos];
    let st = step_at(s, pos, line);
    lemma_step_bounds(s, pos, line);
    if punct_type(c) is Some {
        lemma_newlines_constant(s, pos, st.next);
    } else if op_head(c) {
        lemma_newlines_constant(s, pos, st.next);
    } else if c == ('/' as u8) {
        if pos + 1 < s.len() && s[pos + 1] == ('/' as u8) {
            lemma_line_end(s, pos + 2);
            lemma_newlines_constant(s, pos, st.next);
        } else {
            lemma_newlines_constant(s, pos, st.next);
        }
    } else if c == ('"' as u8) {
        lemma_close_quote(s, pos + 1);
        let q = close_quote(s, pos + 1);
        assert(newlines_before(s, pos + 1) == newlines_before(s, pos));
        if q < s.len() {
            assert(newlines_before(s, q + 1) == newlines_before(s, q));
        }
    } else if c == ('\n' as u8) {
        assert(newlines_before(s, pos + 1) == newlines_before(s, pos) + 1);
    } else if blank(c) {
        lemma_newlines_constant(s, pos, st.next);
    } else if digit(c) {
        lemma_digit_run_end(s, pos);
        let d = digit_run_end(s, pos);
        if d < s.len() && s[d] == ('.' as u8) && d + 1 < s.len() && digit(s[d + 1]) {
            lemma_digit_run_end(s, d + 1);
        }
        assert forall|j: int| pos <= j < st.next implies s[j] != ('\n' as u8) by {}
        lemma_newlines_constant(s, pos, st.next);
    } else if alpha(c) {
        lemma_ident_run_end(s, pos);
        lemma_newlines_constant(s, pos, st.next);
    } else {
        lemma_newlines_constant(s, pos, st.next);
    }
}

} // verus!
