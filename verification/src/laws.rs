//! General properties of the scan, stated and proved once for all inputs.
//!
//! Each law speaks about the model (`step_at`, `scan_from`, `scan`); the
//! scanner's own contracts say that the executable scanner produces exactly
//! what the model describes, so every law carries over to it.

use vstd::prelude::*;

use crate::lox::DiagModel;
use crate::lox::ErrorKind;
use crate::model::blank;
use crate::model::close_quote;
use crate::model::digit;
use crate::model::digit_run_end;
use crate::model::alpha;
use crate::model::eof_token;
use crate::model::ident_run_end;
use crate::model::keyword_of;
use crate::model::kw_and;
use crate::model::kw_class;
use crate::model::kw_else;
use crate::model::kw_false;
use crate::model::kw_for;
use crate::model::kw_fun;
use crate::model::kw_if;
use crate::model::kw_nil;
use crate::model::kw_or;
use crate::model::kw_print;
use crate::model::kw_return;
use crate::model::kw_super;
use crate::model::kw_this;
use crate::model::kw_true;
use crate::model::kw_var;
use crate::model::kw_while;
use crate::model::lemma_close_quote;
use crate::model::lemma_digit_run_end;
use crate::model::lemma_line_end;
use crate::model::lemma_step_bounds;
use crate::model::lemma_step_lines;
use crate::model::line_end;
use crate::model::newlines_before;
use crate::model::op_double;
use crate::model::op_head;
use crate::model::op_single;
use crate::model::opt_toks;
use crate::model::punct_type;
use crate::model::scan;
use crate::model::scan_from;
use crate::model::step_at;
use crate::model::token_step;
use crate::token::LiteralModel;
use crate::token::TokenModel;
use crate::token::TokenType;

verus! {

/// Scanning an empty input yields exactly one token: the end-of-input
/// marker on line 1, with an empty lexeme; and no diagnostics.
pub proof fn lemma_empty_scan()
    ensures
        scan(Seq::<u8>::empty()).tokens == seq![eof_token(1)],
        scan(Seq::<u8>::empty()).diags == Seq::<DiagModel>::empty(),
{
}

/// Every scan ends with exactly one end-of-input token: the token sequence
/// is never empty, its last element is the EOF marker with an empty lexeme
/// and no payload, and — line numbers being 1-based — the marker sits on
/// line 1 plus the number of newlines in the whole input.
pub proof fn lemma_scan_terminator(s: Seq<u8>, pos: int, line: int)
    requires
        0 <= pos <= s.len(),
        line == 1 + newlines_before(s, pos),
    ensures
        scan_from(s, pos, line).tokens.len() >= 1,
        scan_from(s, pos, line).tokens.last() == eof_token(
            1 + newlines_before(s, s.len() as int),
        ),
    decreases s.len() - pos,
{
    if 0 <= pos < s.len() {
        let st = step_at(s, pos, line);
        lemma_step_bounds(s, pos, line);
        lemma_step_lines(s, pos, line);
        lemma_scan_terminator(s, st.next, st.next_line);
    }
}

/// Line numbers start at 1: the end-of-input token of a whole scan sits on
/// line 1 plus the number of newlines consumed, each newline having
/// advanced the counter exactly once (`lemma_step_lines` gives the
/// per-step statement).
pub proof fn lemma_scan_eof_line(s: Seq<u8>)
    ensures
        scan(s).tokens.len() >= 1,
        scan(s).tokens.last() == eof_token(1 + newlines_before(s, s.len() as int)),
{
    lemma_scan_terminator(s, 0, 1);
}

/// For an operator head (`!`, `=`, `<`, `>`): followed by `=` it scans as
/// exactly the combined two-character operator; followed by anything else
/// (or by nothing) it scans as the one-character operator alone, and the
/// following character is left to be scanned as its own lexeme.
pub proof fn lemma_operator_lookahead(s: Seq<u8>, pos: int, line: int)
    requires
        0 <= pos < s.len(),
        op_head(s[pos]),
    ensures
        pos + 1 < s.len() && s[pos + 1] == ('=' as u8) ==> step_at(s, pos, line) == token_step(
            pos + 2,
            line,
            TokenModel {
                token_type: op_double(s[pos]),
                lexeme: s.subrange(pos, pos + 2),
                literal: LiteralModel::Absent,
                line,
            },
        ),
        !(pos + 1 < s.len() && s[pos + 1] == ('=' as u8)) ==> step_at(s, pos, line)
            == token_step(
            pos + 1,
            line,
            TokenModel {
                token_type: op_single(s[pos]),
                lexeme: s.subrange(pos, pos + 1),
                literal: LiteralModel::Absent,
                line,
            },
        ),
        scan_from(s, pos, line).tokens == opt_toks(step_at(s, pos, line).token) + scan_from(
            s,
            step_at(s, pos, line).next,
            line,
        ).tokens,
{
}

/// A well-formed quoted string scans as one STRING token whose payload is
/// the exact inter-quote text, with no escape processing; its lexeme is
/// the quoted text including both delimiters, and it carries the opening
/// quote's line.
pub proof fn lemma_string_literal(s: Seq<u8>, pos: int, line: int)
    requires
        0 <= pos < s.len(),
        s[pos] == ('"' as u8),
        close_quote(s, pos + 1) < s.len(),
    ensures
        ({
            let q = close_quote(s, pos + 1);
            let st = step_at(s, pos, line);
            &&& st.token == Some(
                TokenModel {
                    token_type: TokenType::STRING,
                    lexeme: s.subrange(pos, q + 1),
                    literal: LiteralModel::Text(s.subrange(pos + 1, q)),
                    line,
                },
            )
            &&& st.diag is None
            &&& st.next == q + 1
        }),
{
}

/// An unterminated string triggers exactly one report, at the opening
/// quote's line; no token is emitted for the lexeme, the rest of the input
/// is consumed, and the scan still terminates with the end-of-input token
/// appended.
pub proof fn lemma_unterminated_string(s: Seq<u8>, pos: int, line: int)
    requires
        0 <= pos < s.len(),
        s[pos] == ('"' as u8),
        forall|j: int| pos < j < s.len() ==> s[j] != ('"' as u8),
    ensures
        scan_from(s, pos, line).diags == seq![
            DiagModel { line, kind: ErrorKind::UnterminatedString },
        ],
        scan_from(s, pos, line).tokens == seq![
            eof_token(
                line + newlines_before(s, s.len() as int) - newlines_before(s, pos + 1),
            ),
        ],
{
    lemma_close_quote(s, pos + 1);
    let st = step_at(s, pos, line);
    assert(close_quote(s, pos + 1) == s.len());
    assert(st.diag == Some(DiagModel { line, kind: ErrorKind::UnterminatedString }));
    assert(st.next == s.len());
    let rest = scan_from(s, st.next, st.next_line);
    assert(rest.tokens == seq![eof_token(st.next_line)]);
    assert(rest.diags == Seq::<DiagModel>::empty());
    assert(scan_from(s, pos, line).diags =~= seq![
        DiagModel { line, kind: ErrorKind::UnterminatedString },
    ]);
    assert(scan_from(s, pos, line).tokens =~= seq![eof_token(st.next_line)]);
}

/// A numeric literal scans by maximal munch — a run of digits, optionally
/// one `.` followed by a further run of digits — into one NUM token whose
/// payload is exactly the matched text, equal to its lexeme.
pub proof fn lemma_number_lexeme(s: Seq<u8>, pos: int, line: int)
    requires
        0 <= pos < s.len(),
        digit(s[pos]),
    ensures
        ({
            let d = digit_run_end(s, pos);
            let end = if d < s.len() && s[d] == ('.' as u8) && d + 1 < s.len() && digit(
                s[d + 1],
            ) {
                digit_run_end(s, d + 1)
            } else {
                d
            };
            let st = step_at(s, pos, line);
            &&& st.token == Some(
                TokenModel {
                    token_type: TokenType::NUM,
                    lexeme: s.subrange(pos, end),
                    literal: LiteralModel::Number(s.subrange(pos, end)),
                    line,
                },
            )
            &&& st.diag is None
            &&& st.next == end
        }),
{
}

/// A `.` after a digit run that is not itself followed by a digit is not
/// consumed as part of the number: the NUM token stops at the digit run's
/// end, and the dot is scanned next, as its own DOT token.
pub proof fn lemma_trailing_dot(s: Seq<u8>, pos: int, line: int)
    requires
        0 <= pos < s.len(),
        digit(s[pos]),
        ({
            let d = digit_run_end(s, pos);
            d < s.len() && s[d] == ('.' as u8) && !(d + 1 < s.len() && digit(s[d + 1]))
        }),
    ensures
        ({
            let d = digit_run_end(s, pos);
            let st = step_at(s, pos, line);
            &&& st.next == d
            &&& st.token == Some(
                TokenModel {
                    token_type: TokenType::NUM,
                    lexeme: s.subrange(pos, d),
                    literal: LiteralModel::Number(s.subrange(pos, d)),
                    line,
                },
            )
            &&& step_at(s, d, line).token == Some(
                TokenModel {
                    token_type: TokenType::DOT,
                    lexeme: s.subrange(d, d + 1),
                    literal: LiteralModel::Absent,
                    line,
                },
            )
            &&& step_at(s, d, line).next == d + 1
        }),
{
    lemma_digit_run_end(s, pos);
}

/// Keyword lookup is exact and case-sensitive: the table maps each of the
/// sixteen reserved words to its keyword category, and nothing else to
/// anything.
pub proof fn lemma_keyword_exact(s: Seq<u8>)
    ensures
        keyword_of(kw_and()) == Some(TokenType::AND),
        keyword_of(kw_class()) == Some(TokenType::CLASS),
        keyword_of(kw_else()) == Some(TokenType::ELSE),
        keyword_of(kw_false()) == Some(TokenType::FALSE),
        keyword_of(kw_fun()) == Some(TokenType::FUN),
        keyword_of(kw_for()) == Some(TokenType::FOR),
        keyword_of(kw_if()) == Some(TokenType::IF),
        keyword_of(kw_nil()) == Some(TokenType::NIL),
        keyword_of(kw_or()) == Some(TokenType::OR),
        keyword_of(kw_print()) == Some(TokenType::PRINT),
        keyword_of(kw_return()) == Some(TokenType::RETURN),
        keyword_of(kw_super()) == Some(TokenType::SUPER),
        keyword_of(kw_this()) == Some(TokenType::THIS),
        keyword_of(kw_true()) == Some(TokenType::TRUE),
        keyword_of(kw_var()) == Some(TokenType::VAR),
        keyword_of(kw_while()) == Some(TokenType::WHILE),
        keyword_of(s) is Some <==> (s == kw_and() || s == kw_class() || s == kw_else() || s
            == kw_false() || s == kw_fun() || s == kw_for() || s == kw_if() || s == kw_nil() || s
            == kw_or() || s == kw_print() || s == kw_return() || s == kw_super() || s == kw_this()
            || s == kw_true() || s == kw_var() || s == kw_while()),
{
}

/// An identifier scans by maximal munch into one token: the matched text
/// looked up in the keyword table gives a keyword token with no payload;
/// any other identifier gives an IDENT token whose payload is exactly the
/// matched text.
pub proof fn lemma_identifier_step(s: Seq<u8>, pos: int, line: int)
    requires
        0 <= pos < s.len(),
        alpha(s[pos]),
    ensures
        ({
            let end = ident_run_end(s, pos);
            let text = s.subrange(pos, end);
            let st = step_at(s, pos, line);
            &&& st.next == end
            &&& st.diag is None
            &&& (keyword_of(text) matches Some(k) ==> st.token == Some(
                TokenModel { token_type: k, lexeme: text, literal: LiteralModel::Absent, line },
            ))
            &&& (keyword_of(text) is None ==> st.token == Some(
                TokenModel {
                    token_type: TokenType::IDENT,
                    lexeme: text,
                    literal: LiteralModel::Text(text),
                    line,
                },
            ))
        }),
{
}

/// A `//` pair consumes everything through the end of the line — but not
/// the newline itself — and emits neither a token nor a diagnostic, nor
/// does it move the line counter.
pub proof fn lemma_line_comment(s: Seq<u8>, pos: int, line: int)
    requires
        0 <= pos,
        pos + 1 < s.len(),
        s[pos] == ('/' as u8),
        s[pos + 1] == ('/' as u8),
    ensures
        ({
            let st = step_at(s, pos, line);
            &&& st.token is None
            &&& st.diag is None
            &&& st.next_line == line
            &&& st.next == line_end(s, pos + 2)
            &&& (st.next == s.len() || s[st.next] == ('\n' as u8))
            &&& forall|j: int| pos <= j < st.next ==> s[j] != ('\n' as u8)
        }),
{
    lemma_line_end(s, pos + 2);
}

/// A lone `/` not followed by another `/` scans as a SLASH token.
pub proof fn lemma_lone_slash(s: Seq<u8>, pos: int, line: int)
    requires
        0 <= pos < s.len(),
        s[pos] == ('/' as u8),
        !(pos + 1 < s.len() && s[pos + 1] == ('/' as u8)),
    ensures
        step_at(s, pos, line) == token_step(
            pos + 1,
            line,
            TokenModel {
                token_type: TokenType::SLASH,
                lexeme: s.subrange(pos, pos + 1),
                literal: LiteralModel::Absent,
                line,
            },
        ),
{
}

/// A character that is single-character punctuation or skippable
/// whitespace (newline included).
pub open spec fn punct_or_blank(c: u8) -> bool {
    punct_type(c) is Some || blank(c) || c == ('\n' as u8)
}

/// The category and lexeme of each punctuation character of `s` from
/// `pos` on, in input order.
pub open spec fn punct_shapes(s: Seq<u8>, pos: int) -> Seq<(TokenType, Seq<u8>)>
    decreases s.len() - pos, when pos <= s.len()
{
    if !(0 <= pos < s.len()) {
        Seq::empty()
    } else if punct_type(s[pos]) is Some {
        seq![(punct_type(s[pos]).unwrap(), s.subrange(pos, pos + 1))] + punct_shapes(s, pos + 1)
    } else {
        punct_shapes(s, pos + 1)
    }
}

/// The category and lexeme of each token of a token sequence.
pub open spec fn token_shapes(ts: Seq<TokenModel>) -> Seq<(TokenType, Seq<u8>)> {
    ts.map_values(|t: TokenModel| (t.token_type, t.lexeme))
}

/// On input made only of recognized single-character punctuation and
/// whitespace, the scan yields one token per punctuation character — in
/// input order, each with its own character as lexeme and no payload —
/// then the end-of-input marker, and no diagnostics.
pub proof fn lemma_punctuation_run(s: Seq<u8>, pos: int, line: int)
    requires
        0 <= pos <= s.len(),
        forall|j: int| pos <= j < s.len() ==> punct_or_blank(s[j]),
    ensures
        ({
            let out = scan_from(s, pos, line);
            &&& out.diags == Seq::<DiagModel>::empty()
            &&& out.tokens.len() == punct_shapes(s, pos).len() + 1
            &&& token_shapes(out.tokens.drop_last()) == punct_shapes(s, pos)
            &&& forall|j: int|
                0 <= j < out.tokens.len() - 1 ==> out.tokens[j].literal == LiteralModel::Absent
            &&& out.tokens.last().token_type == TokenType::EOF
        }),
    decreases s.len() - pos,
{
    let out = scan_from(s, pos, line);
    if !(0 <= pos < s.len()) {
        assert(out.tokens.drop_last() =~= Seq::<TokenModel>::empty());
        assert(token_shapes(out.tokens.drop_last()) =~= Seq::<(TokenType, Seq<u8>)>::empty());
    } else {
        let c = s[pos];
        let st = step_at(s, pos, line);
        assert(punct_or_blank(c));
        assert(st.next == pos + 1);
        lemma_punctuation_run(s, pos + 1, st.next_line);
        let rest = scan_from(s, pos + 1, st.next_line);
        assert(out.tokens =~= opt_toks(st.token) + rest.tokens);
        assert(out.diags =~= Seq::<DiagModel>::empty());
        if punct_type(c) is Some {
            let tm = st.token.unwrap();
            assert(out.tokens.drop_last() =~= seq![tm] + rest.tokens.drop_last());
            assert(token_shapes(seq![tm] + rest.tokens.drop_last()) =~= seq![
                (tm.token_type, tm.lexeme),
            ] + token_shapes(rest.tokens.drop_last()));
            assert(token_shapes(out.tokens.drop_last()) =~= punct_shapes(s, pos));
        } else {
            assert(out.tokens =~= rest.tokens);
            assert(punct_shapes(s, pos) == punct_shapes(s, pos + 1));
        }
    }
}

/// Every diagnostic of a scan is tagged with the line the scan had
/// reached: none sits before the line the scan started on.
pub proof fn lemma_diags_at_or_after(s: Seq<u8>, pos: int, line: int)
    requires
        0 <= pos <= s.len(),
    ensures
        forall|i: int|
            0 <= i < scan_from(s, pos, line).diags.len() ==> scan_from(
                s,
                pos,
                line,
            ).diags[i].line >= line,
    decreases s.len() - pos,
{
    if 0 <= pos < s.len() {
        let st = step_at(s, pos, line);
        lemma_step_bounds(s, pos, line);
        lemma_step_lines(s, pos, line);
        crate::model::lemma_newlines_mono(s, pos, st.next);
        lemma_diags_at_or_after(s, st.next, st.next_line);
    }
}

/// Within one scan the sink is invoked in line order: the recorded
/// diagnostics carry non-decreasing line numbers.
pub proof fn lemma_diag_lines_ordered(s: Seq<u8>, pos: int, line: int)
    requires
        0 <= pos <= s.len(),
    ensures
        forall|i: int, j: int|
            0 <= i <= j < scan_from(s, pos, line).diags.len() ==> scan_from(
                s,
                pos,
                line,
            ).diags[i].line <= scan_from(s, pos, line).diags[j].line,
    decreases s.len() - pos,
{
    if 0 <= pos < s.len() {
        let st = step_at(s, pos, line);
        lemma_step_bounds(s, pos, line);
        lemma_step_lines(s, pos, line);
        crate::model::lemma_newlines_mono(s, pos, st.next);
        lemma_diag_lines_ordered(s, st.next, st.next_line);
        lemma_diags_at_or_after(s, st.next, st.next_line);
    }
}

} // verus!
