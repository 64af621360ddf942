//! The executable scanner: a single-use cursor over one source text.
//!
//! Every method is proved against the mathematical model in `model`:
//! `scan_token` performs exactly one `step_at`, and `scan_tokens` produces
//! exactly `scan(input)`.

use vstd::prelude::*;

use crate::lox::Diagnostic;
use crate::lox::ErrorKind;
use crate::lox::Lox;
use crate::model::alnum;
use crate::model::alpha;
use crate::model::close_quote;
use crate::model::diags;
use crate::model::digit;
use crate::model::digit_run_end;
use crate::model::ident_run_end;
use crate::model::keyword_of;
use crate::model::lemma_close_quote;
use crate::model::lemma_diags_push;
use crate::model::lemma_digit_run_end;
use crate::model::lemma_ident_run_end;
use crate::model::lemma_line_end;
use crate::model::lemma_newlines_bounds;
use crate::model::lemma_newlines_mono;
use crate::model::lemma_step_bounds;
use crate::model::lemma_step_lines;
use crate::model::lemma_toks_push;
use crate::model::line_end;
use crate::model::newlines_before;
use crate::model::opt_diags;
use crate::model::opt_toks;
use crate::model::scan;
use crate::model::scan_from;
use crate::model::step_at;
use crate::model::toks;
use crate::token::Literal;
use crate::token::LiteralModel;
use crate::token::Token;
use crate::token::TokenModel;
use crate::token::TokenType;

verus! {

/// Copies `v[a..b]` into a fresh vector.
pub fn copy_range(v: &Vec<u8>, a: usize, b: usize) -> (r: Vec<u8>)
    requires
        a <= b <= v@.len(),
    ensures
        r@ == v@.subrange(a as int, b as int),
{
    let mut r: Vec<u8> = Vec::new();
    let mut i: usize = a;
    while i < b
        invariant
            a <= i <= b <= v@.len(),
            r@ == v@.subrange(a as int, i as int),
        decreases b - i,
    {
        r.push(v[i]);
        i = i + 1;
        proof {
            assert(r@ =~= v@.subrange(a as int, i as int));
        }
    }
    r
}

/// A transient cursor over one source text: byte position markers for the
/// current lexeme and read position, the current line, and the growing
/// output sequence of tokens.
pub struct Scanner {
    pub input: Vec<u8>,
    pub tokens: Vec<Token>,
    pub start: usize,
    pub current: usize,
    pub line: u64,
}

impl Scanner {
    /// The scanner's internal invariant: the markers stay within the
    /// input, and the line counter never exceeds one more than the number
    /// of newlines consumed so far (which keeps it from overflowing).
    pub open spec fn wf(self) -> bool {
        &&& self.start <= self.current <= self.input@.len()
        &&& self.input@.len() < usize::MAX
        &&& 1 <= self.line
        &&& self.line as int <= 1 + newlines_before(self.input@, self.current as int)
    }

    /// A scanner that has not consumed anything yet.
    pub open spec fn fresh(self) -> bool {
        &&& self.start == 0
        &&& self.current == 0
        &&& self.line == 1
        &&& self.tokens@ == Seq::<Token>::empty()
        &&& self.input@.len() < usize::MAX
    }

    /// A fresh scanner over `input`. The length bound keeps the position
    /// and line arithmetic within machine integers.
    pub fn new(input: Vec<u8>) -> (r: Scanner)
        requires
            input@.len() < usize::MAX,
        ensures
            r.fresh(),
            r.input == input,
    {
        Scanner { input, tokens: Vec::new(), start: 0, current: 0, line: 1 }
    }

    /// Whether the read position has reached the end of the input.
    pub fn is_at_end(&self) -> (r: bool)
        ensures
            r == (self.current >= self.input@.len()),
    {
        self.current >= self.input.len()
    }

    /// The byte at the read position, or 0 at end of input; consumes
    /// nothing.
    pub fn peek(&self) -> (r: u8)
        ensures
            r == if self.current < self.input@.len() {
                self.input@[self.current as int]
            } else {
                0u8
            },
    {
        if self.is_at_end() {
            return 0;
        }
        self.input[self.current]
    }

    /// The byte one past the read position, or 0 if none; consumes
    /// nothing.
    pub fn peek_next(&self) -> (r: u8)
        requires
            self.current <= self.input@.len() < usize::MAX,
        ensures
            r == if self.current + 1 < self.input@.len() {
                self.input@[self.current + 1]
            } else {
                0u8
            },
    {
        if self.current + 1 >= self.input.len() {
            return 0;
        }
        self.input[self.current + 1]
    }

    /// Consumes and returns the byte at the read position.
    pub fn advance(&mut self) -> (r: u8)
        requires
            old(self).current < old(self).input@.len() < usize::MAX,
        ensures
            final(self).current == old(self).current + 1,
            r == old(self).input@[old(self).current as int],
            final(self).input@ == old(self).input@,
            final(self).tokens == old(self).tokens,
            final(self).start == old(self).start,
            final(self).line == old(self).line,
    {
        let current = self.current;
        self.current = self.current + 1;
        self.input[current]
    }

    /// Consumes the next byte only if it equals `c`; says whether it did.
    pub fn match_two_char(&mut self, c: u8) -> (r: bool)
        requires
            old(self).current <= old(self).input@.len() < usize::MAX,
        ensures
            r == (old(self).current < old(self).input@.len() && old(self).input@[old(
                self,
            ).current as int] == c),
            final(self).current == old(self).current + if r {
                1int
            } else {
                0int
            },
            final(self).input@ == old(self).input@,
            final(self).tokens == old(self).tokens,
            final(self).start == old(self).start,
            final(self).line == old(self).line,
    {
        if self.is_at_end() {
            return false;
        }
        if self.input[self.current] != c {
            return false;
        }
        self.current = self.current + 1;
        true
    }

    /// Appends a token with no payload whose lexeme is the current
    /// `start..current` range.
    pub fn add_empty_token(&mut self, t: TokenType)
        requires
            old(self).start <= old(self).current <= old(self).input@.len(),
        ensures
            toks(final(self).tokens@) == toks(old(self).tokens@).push(
                TokenModel {
                    token_type: t,
                    lexeme: old(self).input@.subrange(
                        old(self).start as int,
                        old(self).current as int,
                    ),
                    literal: LiteralModel::Absent,
                    line: old(self).line as int,
                },
            ),
            final(self).input@ == old(self).input@,
            final(self).start == old(self).start,
            final(self).current == old(self).current,
            final(self).line == old(self).line,
    {
        let text = copy_range(&self.input, self.start, self.current);
        let tok = Token::new(t, text, self.line);
        proof {
            lemma_toks_push(self.tokens@, tok);
        }
        self.tokens.push(tok);
    }

    /// Appends a token carrying `literal`, with the current
    /// `start..current` range as its lexeme.
    pub fn add_token(&mut self, t: TokenType, literal: Literal)
        requires
            old(self).start <= old(self).current <= old(self).input@.len(),
        ensures
            toks(final(self).tokens@) == toks(old(self).tokens@).push(
                TokenModel {
                    token_type: t,
                    lexeme: old(self).input@.subrange(
                        old(self).start as int,
                        old(self).current as int,
                    ),
                    literal: literal@,
                    line: old(self).line as int,
                },
            ),
            final(self).input@ == old(self).input@,
            final(self).start == old(self).start,
            final(self).current == old(self).current,
            final(self).line == old(self).line,
    {
        let text = copy_range(&self.input, self.start, self.current);
        let tok = Token::new_literal(t, text, literal, self.line);
        proof {
            lemma_toks_push(self.tokens@, tok);
        }
        self.tokens.push(tok);
    }

    /// Consumes the rest of a numeric literal (maximal run of digits,
    /// optionally one `.` followed by a further maximal run of digits)
    /// whose first digit sits at `start`, and appends the NUM token the
    /// model prescribes for it. The matched text is both the lexeme and
    /// the literal payload.
    pub fn number(&mut self)
        requires
            old(self).wf(),
            old(self).start + 1 == old(self).current,
            old(self).start < old(self).input@.len(),
            digit(old(self).input@[old(self).start as int]),
        ensures
            final(self).wf(),
            final(self).input@ == old(self).input@,
            final(self).start == old(self).start,
            final(self).line == old(self).line,
            ({
                let st = step_at(
                    old(self).input@,
                    old(self).start as int,
                    old(self).line as int,
                );
                &&& final(self).current == st.next
                &&& toks(final(self).tokens@) == toks(old(self).tokens@) + opt_toks(st.token)
            }),
    {
        let ghost s = self.input@;
        let ghost pos = self.start as int;
        let ghost toks0 = self.tokens@;
        let ghost line0 = self.line;
        proof {
            lemma_digit_run_end(s, pos);
        }
        while Self::is_digit(self.peek())
            invariant
                self.input@ == s,
                self.start as int == pos,
                self.line == line0,
                self.tokens@ == toks0,
                pos < self.current as int <= s.len() < usize::MAX,
                digit_run_end(s, pos) == digit_run_end(s, self.current as int),
                self.line as int <= 1 + newlines_before(s, self.current as int),
            decreases s.len() - self.current,
        {
            let _ = self.advance();
        }
        proof {
            assert(self.current as int == digit_run_end(s, pos));
        }
        let ghost d = digit_run_end(s, pos);
        if self.peek() == ('.' as u8) && Self::is_digit(self.peek_next()) {
            let _ = self.advance();
            proof {
                lemma_digit_run_end(s, d + 1);
            }
            while Self::is_digit(self.peek())
                invariant
                    self.input@ == s,
                    self.start == old(self).start,
                    self.line == old(self).line,
                    self.tokens@ == toks0,
                    d < self.current as int <= s.len() < usize::MAX,
                    digit_run_end(s, d + 1) == digit_run_end(s, self.current as int),
                    self.line as int <= 1 + newlines_before(s, self.current as int),
                decreases s.len() - self.current,
            {
                let _ = self.advance();
            }
            proof {
                assert(self.current as int == digit_run_end(s, d + 1));
            }
        }
        let text = copy_range(&self.input, self.start, self.current);
        self.add_token(TokenType::NUM, Literal::Number(text));
        proof {
            let st = step_at(s, pos, old(self).line as int);
            assert(self.current as int == st.next);
            assert(toks(self.tokens@) =~= toks(toks0) + opt_toks(st.token));
        }
    }

    /// Consumes the rest of an identifier (maximal run of letters, digits
    /// and underscores) whose first character sits at `start`, looks the
    /// matched text up in the keyword table, and appends the keyword or
    /// IDENT token the model prescribes.
    pub fn ident(&mut self)
        requires
            old(self).wf(),
            old(self).start + 1 == old(self).current,
            old(self).start < old(self).input@.len(),
            alpha(old(self).input@[old(self).start as int]),
        ensures
            final(self).wf(),
            final(self).input@ == old(self).input@,
            final(self).start == old(self).start,
            final(self).line == old(self).line,
            ({
                let st = step_at(
                    old(self).input@,
                    old(self).start as int,
                    old(self).line as int,
                );
                &&& final(self).current == st.next
                &&& toks(final(self).tokens@) == toks(old(self).tokens@) + opt_toks(st.token)
            }),
    {
        let ghost s = self.input@;
        let ghost pos = self.start as int;
        let ghost toks0 = self.tokens@;
        let ghost line0 = self.line;
        proof {
            lemma_ident_run_end(s, pos);
        }
        while Self::is_alphanumeric(self.peek())
            invariant
                self.input@ == s,
                self.start as int == pos,
                self.line == line0,
                self.tokens@ == toks0,
                pos < self.current as int <= s.len() < usize::MAX,
                ident_run_end(s, pos) == ident_run_end(s, self.current as int),
                self.line as int <= 1 + newlines_before(s, self.current as int),
            decreases s.len() - self.current,
        {
            let _ = self.advance();
        }
        proof {
            assert(self.current as int == ident_run_end(s, pos));
        }
        let text = copy_range(&self.input, self.start, self.current);
        let looked_up = Self::keywords(&text);
        match looked_up {
            Some(k) => self.add_empty_token(k),
            None => {
                self.add_token(TokenType::IDENT, Literal::Text(text));
            },
        }
        proof {
            let st = step_at(s, pos, old(self).line as int);
            assert(self.current as int == st.next);
            assert(toks(self.tokens@) =~= toks(toks0) + opt_toks(st.token));
        }
    }

    /// Consumes the rest of a string literal whose opening `"` sits at
    /// `start`. On success the token carries the inter-quote text as its
    /// payload and the opening quote's line; an unterminated literal is
    /// reported to the sink and emits no token. Embedded newlines count
    /// toward the line counter either way.
    pub fn string(&mut self, lox: &mut Lox)
        requires
            old(self).wf(),
            old(self).start + 1 == old(self).current,
            old(self).start < old(self).input@.len(),
            old(self).input@[old(self).start as int] == ('"' as u8),
        ensures
            final(self).wf(),
            final(self).input@ == old(self).input@,
            final(self).start == old(self).start,
            ({
                let st = step_at(
                    old(self).input@,
                    old(self).start as int,
                    old(self).line as int,
                );
                &&& final(self).current == st.next
                &&& final(self).line as int == st.next_line
                &&& toks(final(self).tokens@) == toks(old(self).tokens@) + opt_toks(st.token)
                &&& diags(final(lox).diagnostics@) == diags(old(lox).diagnostics@) + opt_diags(
                    st.diag,
                )
                &&& final(lox).had_error == (old(lox).had_error || st.diag is Some)
            }),
    {
        let ghost s = self.input@;
        let ghost pos = self.start as int;
        let ghost toks0 = self.tokens@;
        let ghost line0 = self.line;
        let opening_line = self.line;
        proof {
            lemma_close_quote(s, pos + 1);
        }
        while !self.is_at_end() && self.peek() != ('"' as u8)
            invariant
                self.input@ == s,
                self.start as int == pos,
                self.tokens@ == toks0,
                pos < self.current as int <= s.len() < usize::MAX,
                close_quote(s, pos + 1) == close_quote(s, self.current as int),
                self.line as int == line0 as int + newlines_before(s, self.current as int)
                    - newlines_before(s, pos + 1),
                self.line as int <= 1 + newlines_before(s, self.current as int),
                1 <= self.line,
            decreases s.len() - self.current,
        {
            if self.peek() == ('\n' as u8) {
                proof {
                    lemma_newlines_bounds(s, self.current as int);
                }
                self.line = self.line + 1;
            }
            let _ = self.advance();
        }
        if self.is_at_end() {
            proof {
                assert(close_quote(s, pos + 1) == s.len());
            }
            lox.error(opening_line, ErrorKind::UnterminatedString);
            proof {
                let st = step_at(s, pos, line0 as int);
                lemma_diags_push(
                    old(lox).diagnostics@,
                    Diagnostic { line: opening_line, kind: ErrorKind::UnterminatedString },
                );
                assert(diags(lox.diagnostics@) =~= diags(old(lox).diagnostics@) + opt_diags(
                    st.diag,
                ));
                assert(toks(self.tokens@) =~= toks(toks0) + opt_toks(st.token));
            }
            return;
        }
        proof {
            assert(close_quote(s, self.current as int) == self.current as int);
        }
        let _ = self.advance();
        let lexeme = copy_range(&self.input, self.start, self.current);
        let literal_text = copy_range(&self.input, self.start + 1, self.current - 1);
        let tok = Token::new_literal(
            TokenType::STRING,
            lexeme,
            Literal::Text(literal_text),
            opening_line,
        );
        proof {
            lemma_toks_push(self.tokens@, tok);
        }
        self.tokens.push(tok);
        proof {
            let st = step_at(s, pos, line0 as int);
            assert(self.current as int == st.next);
            assert(self.line as int == st.next_line);
            assert(toks(self.tokens@) =~= toks(toks0) + opt_toks(st.token));
            assert(diags(lox.diagnostics@) =~= diags(old(lox).diagnostics@) + opt_diags(st.diag));
        }
    }

    /// Dispatches on the next character and performs exactly one step of
    /// the model: the cursor and line counter move as `step_at` says, and
    /// the one token or diagnostic it prescribes (if any) is emitted.
    pub fn scan_token(&mut self, lox: &mut Lox)
        requires
            old(self).wf(),
            old(self).start == old(self).current,
            old(self).current < old(self).input@.len(),
        ensures
            final(self).wf(),
            final(self).input@ == old(self).input@,
            final(self).start == old(self).start,
            ({
                let st = step_at(
                    old(self).input@,
                    old(self).current as int,
                    old(self).line as int,
                );
                &&& final(self).current as int == st.next
                &&& final(self).line as int == st.next_line
                &&& toks(final(self).tokens@) == toks(old(self).tokens@) + opt_toks(st.token)
                &&& diags(final(lox).diagnostics@) == diags(old(lox).diagnostics@) + opt_diags(
                    st.diag,
                )
                &&& final(lox).had_error == (old(lox).had_error || st.diag is Some)
            }),
    {
        let ghost s = self.input@;
        let ghost pos = self.current as int;
        let ghost line0 = self.line;
        let ghost toks0 = self.tokens@;
        let ghost diags0 = lox.diagnostics@;
        proof {
            lemma_step_bounds(s, pos, line0 as int);
            lemma_step_lines(s, pos, line0 as int);
            lemma_newlines_mono(s, pos, step_at(s, pos, line0 as int).next);
            lemma_newlines_bounds(s, pos);
        }
        let c = self.advance();
        if c == ('(' as u8) {
            self.add_empty_token(TokenType::LPAREN);
        } else if c == (')' as u8) {
            self.add_empty_token(TokenType::RPAREN);
        } else if c == ('{' as u8) {
            self.add_empty_token(TokenType::LBRACE);
        } else if c == ('}' as u8) {
            self.add_empty_token(TokenType::RBRACE);
        } else if c == (',' as u8) {
            self.add_empty_token(TokenType::COMMA);
        } else if c == ('.' as u8) {
            self.add_empty_token(TokenType::DOT);
        } else if c == ('-' as u8) {
            self.add_empty_token(TokenType::MINUS);
        } else if c == ('+' as u8) {
            self.add_empty_token(TokenType::PLUS);
        } else if c == (';' as u8) {
            self.add_empty_token(TokenType::SEMICOLON);
        } else if c == ('*' as u8) {
            self.add_empty_token(TokenType::STAR);
        } else if c == ('!' as u8) {
            if self.match_two_char('=' as u8) {
                self.add_empty_token(TokenType::BANGEQ);
            } else {
                self.add_empty_token(TokenType::BANG);
            }
        } else if c == ('=' as u8) {
            if self.match_two_char('=' as u8) {
                self.add_empty_token(TokenType::EQEQ);
            } else {
                self.add_empty_token(TokenType::EQ);
            }
        } else if c == ('<' as u8) {
            if self.match_two_char('=' as u8) {
                self.add_empty_token(TokenType::LTEQ);
            } else {
                self.add_empty_token(TokenType::LT);
            }
        } else if c == ('>' as u8) {
            if self.match_two_char('=' as u8) {
                self.add_empty_token(TokenType::GTEQ);
            } else {
                self.add_empty_token(TokenType::GT);
            }
        } else if c == ('/' as u8) {
            if self.match_two_char('/' as u8) {
                // A comment: discard everything through the end of the
                // line; the newline itself is left for the next step.
                proof {
                    lemma_line_end(s, pos + 2);
                }
                while !self.is_at_end() && self.peek() != ('\n' as u8)
                    invariant
                        self.input@ == s,
                        self.start as int == pos,
                        self.line == line0,
                        self.tokens@ == toks0,
                        pos + 2 <= self.current as int <= s.len() < usize::MAX,
                        line_end(s, pos + 2) == line_end(s, self.current as int),
                        self.line as int <= 1 + newlines_before(s, self.current as int),
                    decreases s.len() - self.current,
                {
                    let _ = self.advance();
                }
                proof {
                    assert(self.current as int == line_end(s, pos + 2));
                }
            } else {
                self.add_empty_token(TokenType::SLASH);
            }
        } else if c == ('"' as u8) {
            self.string(lox);
        } else if c == ('\n' as u8) {
            self.line = self.line + 1;
        } else if c == (' ' as u8) || c == ('\t' as u8) || c == ('\r' as u8) {
        } else if Self::is_digit(c) {
            self.number();
        } else if Self::is_alpha(c) {
            self.ident();
        } else {
            lox.error(self.line, ErrorKind::UnexpectedCharacter);
            proof {
                lemma_diags_push(
                    diags0,
                    Diagnostic { line: line0, kind: ErrorKind::UnexpectedCharacter },
                );
            }
        }
        proof {
            let st = step_at(s, pos, line0 as int);
            assert(toks(self.tokens@) =~= toks(toks0) + opt_toks(st.token));
            assert(diags(lox.diagnostics@) =~= diags(diags0) + opt_diags(st.diag));
        }
    }

    /// Scans the whole input in one pass and returns the full token
    /// sequence, terminated by the end-of-input token at the final line
    /// reached. Every error found on the way is reported to `lox`, in
    /// input order, and scanning always continues to the end.
    pub fn scan_tokens(self, lox: &mut Lox) -> (r: Vec<Token>)
        requires
            self.fresh(),
        ensures
            toks(r@) == scan(self.input@).tokens,
            diags(final(lox).diagnostics@) == diags(old(lox).diagnostics@) + scan(
                self.input@,
            ).diags,
            final(lox).had_error == (old(lox).had_error || scan(self.input@).diags.len() > 0),
    {
        let mut this = self;
        let ghost s = this.input@;
        let ghost diags0 = lox.diagnostics@;
        let ghost had0 = lox.had_error;
        let ghost mut dacc: Seq<crate::lox::DiagModel> = Seq::empty();
        proof {
            assert(toks(this.tokens@) =~= Seq::<TokenModel>::empty());
            assert(scan(s).tokens =~= toks(this.tokens@) + scan_from(
                s,
                this.current as int,
                this.line as int,
            ).tokens);
            assert(scan(s).diags =~= dacc + scan_from(
                s,
                this.current as int,
                this.line as int,
            ).diags);
            assert(diags(lox.diagnostics@) =~= diags(diags0) + dacc);
        }
        while !this.is_at_end()
            invariant
                this.wf(),
                this.input@ == s,
                scan(s).tokens == toks(this.tokens@) + scan_from(
                    s,
                    this.current as int,
                    this.line as int,
                ).tokens,
                scan(s).diags == dacc + scan_from(s, this.current as int, this.line as int).diags,
                diags(lox.diagnostics@) == diags(diags0) + dacc,
                lox.had_error == (had0 || dacc.len() > 0),
            decreases s.len() - this.current,
        {
            this.start = this.current;
            let ghost prev = this;
            this.scan_token(lox);
            proof {
                let st = step_at(s, prev.current as int, prev.line as int);
                lemma_step_bounds(s, prev.current as int, prev.line as int);
                dacc = dacc + opt_diags(st.diag);
                assert(scan(s).tokens =~= toks(this.tokens@) + scan_from(
                    s,
                    this.current as int,
                    this.line as int,
                ).tokens);
                assert(scan(s).diags =~= dacc + scan_from(
                    s,
                    this.current as int,
                    this.line as int,
                ).diags);
                assert(diags(lox.diagnostics@) =~= diags(diags0) + dacc);
            }
        }
        let eof_tok = Token::new(TokenType::EOF, Vec::new(), this.line);
        proof {
            lemma_toks_push(this.tokens@, eof_tok);
        }
        this.tokens.push(eof_tok);
        proof {
            assert(eof_tok@ =~= crate::model::eof_token(this.line as int));
            assert(toks(this.tokens@) =~= scan(s).tokens);
            assert(scan(s).diags =~= dacc);
        }
        this.tokens
    }

    /// Whether `c` is an ASCII decimal digit.
    pub fn is_digit(c: u8) -> (r: bool)
        ensures
            r == digit(c),
    {
        ('0' as u8) <= c && c <= ('9' as u8)
    }

    /// Whether `c` may begin an identifier.
    pub fn is_alpha(c: u8) -> (r: bool)
        ensures
            r == alpha(c),
    {
        (c >= ('a' as u8) && c <= ('z' as u8)) || (c >= ('A' as u8) && c <= ('Z' as u8)) || c == ('_' as u8)
    }

    /// Whether `c` may continue an identifier.
    pub fn is_alphanumeric(c: u8) -> (r: bool)
        ensures
            r == alnum(c),
    {
        Self::is_alpha(c) || Self::is_digit(c)
    }

    /// Looks `text` up in the fixed, case-sensitive table of reserved
    /// words.
    pub fn keywords(text: &Vec<u8>) -> (r: Option<TokenType>)
        ensures
            r == keyword_of(text@),
    {
        let n = text.len();
        if n == 3 && text[0] == ('a' as u8) && text[1] == ('n' as u8) && text[2] == ('d' as u8) {
            proof {
                assert(text@ =~= crate::model::kw_and());
            }
            Some(TokenType::AND)
        } else if n == 5 && text[0] == ('c' as u8) && text[1] == ('l' as u8) && text[2] == ('a' as u8) && text[3]
            == ('s' as u8) && text[4] == ('s' as u8) {
            proof {
                assert(text@ =~= crate::model::kw_class());
            }
            Some(TokenType::CLASS)
        } else if n == 4 && text[0] == ('e' as u8) && text[1] == ('l' as u8) && text[2] == ('s' as u8) && text[3]
            == ('e' as u8) {
            proof {
                assert(text@ =~= crate::model::kw_else());
            }
            Some(TokenType::ELSE)
        } else if n == 5 && text[0] == ('f' as u8) && text[1] == ('a' as u8) && text[2] == ('l' as u8) && text[3]
            == ('s' as u8) && text[4] == ('e' as u8) {
            proof {
                assert(text@ =~= crate::model::kw_false());
            }
            Some(TokenType::FALSE)
        } else if n == 3 && text[0] == ('f' as u8) && text[1] == ('u' as u8) && text[2] == ('n' as u8) {
            proof {
                assert(text@ =~= crate::model::kw_fun());
            }
            Some(TokenType::FUN)
        } else if n == 3 && text[0] == ('f' as u8) && text[1] == ('o' as u8) && text[2] == ('r' as u8) {
            proof {
                assert(text@ =~= crate::model::kw_for());
            }
            Some(TokenType::FOR)
        } else if n == 2 && text[0] == ('i' as u8) && text[1] == ('f' as u8) {
            proof {
                assert(text@ =~= crate::model::kw_if());
            }
            Some(TokenType::IF)
        } else if n == 3 && text[0] == ('n' as u8) && text[1] == ('i' as u8) && text[2] == ('l' as u8) {
            proof {
                assert(text@ =~= crate::model::kw_nil());
            }
            Some(TokenType::NIL)
        } else if n == 2 && text[0] == ('o' as u8) && text[1] == ('r' as u8) {
            proof {
                assert(text@ =~= crate::model::kw_or());
            }
            Some(TokenType::OR)
        } else if n == 5 && text[0] == ('p' as u8) && text[1] == ('r' as u8) && text[2] == ('i' as u8) && text[3]
            == ('n' as u8) && text[4] == ('t' as u8) {
            proof {
                assert(text@ =~= crate::model::kw_print());
            }
            Some(TokenType::PRINT)
        } else if n == 6 && text[0] == ('r' as u8) && text[1] == ('e' as u8) && text[2] == ('t' as u8) && text[3]
            == ('u' as u8) && text[4] == ('r' as u8) && text[5] == ('n' as u8) {
            proof {
                assert(text@ =~= crate::model::kw_return());
            }
            Some(TokenType::RETURN)
        } else if n == 5 && text[0] == ('s' as u8) && text[1] == ('u' as u8) && text[2] == ('p' as u8) && text[3]
            == ('e' as u8) && text[4] == ('r' as u8) {
            proof {
                assert(text@ =~= crate::model::kw_super());
            }
            Some(TokenType::SUPER)
        } else if n == 4 && text[0] == ('t' as u8) && text[1] == ('h' as u8) && text[2] == ('i' as u8) && text[3]
            == ('s' as u8) {
            proof {
                assert(text@ =~= crate::model::kw_this());
            }
            Some(TokenType::THIS)
        } else if n == 4 && text[0] == ('t' as u8) && text[1] == ('r' as u8) && text[2] == ('u' as u8) && text[3]
            == ('e' as u8) {
            proof {
                assert(text@ =~= crate::model::kw_true());
            }
            Some(TokenType::TRUE)
        } else if n == 3 && text[0] == ('v' as u8) && text[1] == ('a' as u8) && text[2] == ('r' as u8) {
            proof {
                assert(text@ =~= crate::model::kw_var());
            }
            Some(TokenType::VAR)
        } else if n == 5 && text[0] == ('w' as u8) && text[1] == ('h' as u8) && text[2] == ('i' as u8) && text[3]
            == ('l' as u8) && text[4] == ('e' as u8) {
            proof {
                assert(text@ =~= crate::model::kw_while());
            }
            Some(TokenType::WHILE)
        } else {
            None
        }
    }
}

} // verus!

