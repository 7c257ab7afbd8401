//! The scanner: one forward pass over a source string that produces the token
//! sequence and the diagnostics of the model in [`crate::model`].

use crate::model::{
    digits_end, eof_token, find_char, ident_end, is_alpha_char, is_digit_char,
    is_ident_char, keyword_type, lemma_find_char_bounds, lemma_line_at_step,
    lemma_newline_count_bounds, lemma_step_bounds, line_at, number_end, peek_char, scan_from,
    scan_spec, step, tok_at,
};
use crate::token::{ScanError, SpecToken, Token, TokenType};
use vstd::prelude::*;
use vstd::string::StrSliceExecFns;

verus! {

/// The scanner's state: the source text, the cursor, the line counter, and
/// the tokens and diagnostics accumulated so far.
///
/// A scanner is made for one source string and is single-use: one call of
/// [`Scanner::scan_tokens`] runs the source to completion and hands the
/// accumulated output back.
pub struct Scanner {
    source: String,
    /// The length of `source` in characters, kept beside it.
    n: usize,
    /// Index of the first character of the lexeme being scanned.
    start: usize,
    /// Index of the next unconsumed character.
    current: usize,
    /// 1-based line of the next unconsumed character.
    line: usize,
    tokens: Vec<Token>,
    errors: Vec<ScanError>,
}

impl Scanner {
    /// The source text under scan.
    pub closed spec fn src(self) -> Seq<char> {
        self.source@
    }

    /// The cursor: how many characters have been consumed.
    pub closed spec fn pos(self) -> int {
        self.current as int
    }

    /// The tokens accumulated so far.
    pub closed spec fn toks(self) -> Seq<SpecToken> {
        self.tokens.deep_view()
    }

    /// The diagnostics accumulated so far.
    pub closed spec fn errs(self) -> Seq<ScanError> {
        self.errors@
    }

    spec fn inv_base(self) -> bool {
        &&& self.source@.len() < usize::MAX
        &&& self.n as int == self.source@.len()
        &&& self.current <= self.n
    }

    /// The scanner's invariant: the cached length and the line counter agree
    /// with the source text and the cursor.
    pub closed spec fn wf(self) -> bool {
        &&& self.inv_base()
        &&& self.line as int == line_at(self.source@, self.current as int)
    }

    /// A scanner that has not consumed anything nor emitted anything yet.
    pub closed spec fn fresh(self) -> bool {
        &&& self.current == 0
        &&& self.start == 0
        &&& self.tokens@.len() == 0
        &&& self.errors@.len() == 0
    }

    /// Builds a scanner over a copy of `source`, with the cursor at the first
    /// character and the line counter at 1.
    ///
    /// The length bound is a machine limit: the line counter, a `usize`, can
    /// reach one past the number of characters.
    pub fn new(source: &String) -> (sc: Scanner)
        requires
            source@.len() < usize::MAX,
        ensures
            sc.wf(),
            sc.fresh(),
            sc.src() == source@,
    {
        let n = source.as_str().unicode_len();
        Scanner {
            source: source.clone(),
            n,
            start: 0,
            current: 0,
            line: 1,
            tokens: Vec::new(),
            errors: Vec::new(),
        }
    }

    fn is_at_end(&self) -> (b: bool)
        requires
            self.inv_base(),
        ensures
            b == (self.current as int >= self.source@.len()),
    {
        self.current >= self.n
    }

    /// The next unconsumed character, without consuming it.
    fn peek(&self) -> (c: char)
        requires
            self.inv_base(),
        ensures
            c == peek_char(self.source@, self.current as int),
    {
        if self.current < self.n {
            self.source.as_str().get_char(self.current)
        } else {
            '\0'
        }
    }

    /// The character after the next one, without consuming anything.
    fn peek_next(&self) -> (c: char)
        requires
            self.inv_base(),
        ensures
            c == peek_char(self.source@, self.current as int + 1),
    {
        if self.current < self.n && self.current + 1 < self.n {
            self.source.as_str().get_char(self.current + 1)
        } else {
            '\0'
        }
    }

    /// Consumes and returns the next character.
    fn advance(&mut self) -> (c: char)
        requires
            old(self).inv_base(),
            old(self).current < old(self).n,
        ensures
            final(self).inv_base(),
            Self::cursor_only(*old(self), *final(self)),
            final(self).current as int == old(self).current as int + 1,
            c == old(self).source@[old(self).current as int],
    {
        let c = self.source.as_str().get_char(self.current);
        self.current = self.current + 1;
        c
    }

    /// Consumes the next character exactly when it equals `expected`.
    fn match_char(&mut self, expected: char) -> (b: bool)
        requires
            old(self).inv_base(),
        ensures
            final(self).inv_base(),
            Self::cursor_only(*old(self), *final(self)),
            b == (old(self).current < old(self).n && old(self).source@[old(self).current as int]
                == expected),
            final(self).current as int == old(self).current as int + if b {
                1int
            } else {
                0int
            },
    {
        if self.current < self.n {
            let c = self.source.as_str().get_char(self.current);
            if c == expected {
                self.current = self.current + 1;
                return true;
            }
        }
        false
    }

    /// Only the cursor differs between `pre` and `post`.
    spec fn cursor_only(pre: Scanner, post: Scanner) -> bool {
        &&& post.source == pre.source
        &&& post.n == pre.n
        &&& post.start == pre.start
        &&& post.line == pre.line
        &&& post.tokens == pre.tokens
        &&& post.errors == pre.errors
    }

    /// Appends the token spanning `start..current`, standing on `line`.
    fn add_token(&mut self, token_type: TokenType, literal: Option<String>, line: usize)
        requires
            old(self).inv_base(),
            old(self).start <= old(self).current,
        ensures
            final(self).inv_base(),
            final(self).source == old(self).source,
            final(self).n == old(self).n,
            final(self).start == old(self).start,
            final(self).current == old(self).current,
            final(self).line == old(self).line,
            final(self).errors == old(self).errors,
            final(self).tokens.deep_view() == old(self).tokens.deep_view() + seq![
                SpecToken {
                    token_type,
                    lexeme: old(self).source@.subrange(
                        old(self).start as int,
                        old(self).current as int,
                    ),
                    literal: literal.deep_view(),
                    line: line as int,
                }
            ],
    {
        let text = self.source.as_str().substring_char(self.start, self.current);
        let t = Token::new(token_type, text, literal, line);
        self.tokens.push(t);
        proof {
            assert(self.tokens.deep_view() =~= old(self).tokens.deep_view() + seq![
                SpecToken {
                    token_type,
                    lexeme: old(self).source@.subrange(
                        old(self).start as int,
                        old(self).current as int,
                    ),
                    literal: literal.deep_view(),
                    line: line as int,
                }
            ]);
        }
    }

    fn is_digit(c: char) -> (b: bool)
        ensures
            b == is_digit_char(c),
    {
        '0' <= c && c <= '9'
    }

    fn is_alpha(c: char) -> (b: bool)
        ensures
            b == is_alpha_char(c),
    {
        ('a' <= c && c <= 'z') || ('A' <= c && c <= 'Z') || c == '_'
    }

    fn is_identifier_char(c: char) -> (b: bool)
        ensures
            b == is_ident_char(c),
    {
        ('a' <= c && c <= 'z') || ('A' <= c && c <= 'Z') || c == '_' || ('0' <= c && c <= '9')
    }

    /// Scans the rest of a number literal, whose first digit, at `start`,
    /// has just been consumed: the maximal digit run, and a fractional part
    /// only when a digit directly follows the dot.
    #[verifier::loop_isolation(false)]
    fn number(&mut self)
        requires
            old(self).inv_base(),
            old(self).current as int == old(self).start as int + 1,
            (old(self).start as int) < old(self).source@.len(),
            is_digit_char(old(self).source@[old(self).start as int]),
            old(self).line as int == line_at(old(self).source@, old(self).current as int),
        ensures
            final(self).inv_base(),
            final(self).source == old(self).source,
            final(self).n == old(self).n,
            final(self).errors == old(self).errors,
            final(self).current as int == number_end(
                old(self).source@,
                old(self).start as int,
            ),
            final(self).line as int == line_at(old(self).source@, final(self).current as int),
            final(self).tokens.deep_view() == old(self).tokens.deep_view() + seq![
                tok_at(
                    old(self).source@,
                    old(self).start as int,
                    number_end(old(self).source@, old(self).start as int),
                    TokenType::Number,
                    Some(
                        old(self).source@.subrange(
                            old(self).start as int,
                            number_end(old(self).source@, old(self).start as int),
                        ),
                    ),
                )
            ],
    {
        let ghost s = self.source@;
        let ghost i = self.start as int;
        let ghost pre = *self;
        proof {
            lemma_line_at_step(s, i);
        }
        while Self::is_digit(self.peek())
            invariant
                self.inv_base(),
                self.source == pre.source,
                self.n == pre.n,
                self.start == pre.start,
                self.line == pre.line,
                self.tokens == pre.tokens,
                self.errors == pre.errors,
                i + 1 <= self.current as int,
                digits_end(s, self.current as int) == digits_end(s, i),
                self.line as int == line_at(s, self.current as int),
            decreases self.n - self.current,
        {
            proof {
                lemma_line_at_step(s, self.current as int);
            }
            self.advance();
        }
        let ghost whole = digits_end(s, i);
        proof {
            assert(self.current as int == whole);
        }
        if self.peek() == '.' && Self::is_digit(self.peek_next()) {
            proof {
                lemma_line_at_step(s, self.current as int);
            }
            self.advance();
            while Self::is_digit(self.peek())
                invariant
                    self.inv_base(),
                    self.source == pre.source,
                    self.n == pre.n,
                    self.start == pre.start,
                    self.line == pre.line,
                    self.tokens == pre.tokens,
                    self.errors == pre.errors,
                    whole + 1 <= self.current as int,
                    digits_end(s, self.current as int) == digits_end(s, whole + 1),
                    self.line as int == line_at(s, self.current as int),
                decreases self.n - self.current,
            {
                proof {
                    lemma_line_at_step(s, self.current as int);
                }
                self.advance();
            }
        }
        proof {
            assert(self.current as int == number_end(s, i));
        }
        let text = self.source.as_str().substring_char(self.start, self.current);
        let owned = text.to_owned();
        let line = self.line;
        self.add_token(TokenType::Number, Some(owned), line);
    }

    /// Scans the rest of an identifier or keyword, whose first character, at
    /// `start`, has just been consumed: the maximal run of letters, digits
    /// and underscores, classified against the keyword table.
    #[verifier::loop_isolation(false)]
    fn identifier(&mut self)
        requires
            old(self).inv_base(),
            old(self).current as int == old(self).start as int + 1,
            (old(self).start as int) < old(self).source@.len(),
            is_alpha_char(old(self).source@[old(self).start as int]),
            old(self).line as int == line_at(old(self).source@, old(self).current as int),
        ensures
            final(self).inv_base(),
            final(self).source == old(self).source,
            final(self).n == old(self).n,
            final(self).errors == old(self).errors,
            final(self).current as int == ident_end(old(self).source@, old(self).start as int),
            final(self).line as int == line_at(old(self).source@, final(self).current as int),
            final(self).tokens.deep_view() == old(self).tokens.deep_view() + seq![
                tok_at(
                    old(self).source@,
                    old(self).start as int,
                    ident_end(old(self).source@, old(self).start as int),
                    keyword_type(
                        old(self).source@.subrange(
                            old(self).start as int,
                            ident_end(old(self).source@, old(self).start as int),
                        ),
                    ),
                    None,
                )
            ],
    {
        let ghost s = self.source@;
        let ghost i = self.start as int;
        let ghost pre = *self;
        proof {
            lemma_line_at_step(s, i);
        }
        while Self::is_identifier_char(self.peek())
            invariant
                self.inv_base(),
                self.source == pre.source,
                self.n == pre.n,
                self.start == pre.start,
                self.line == pre.line,
                self.tokens == pre.tokens,
                self.errors == pre.errors,
                i + 1 <= self.current as int,
                ident_end(s, self.current as int) == ident_end(s, i),
                self.line as int == line_at(s, self.current as int),
            decreases self.n - self.current,
        {
            proof {
                lemma_line_at_step(s, self.current as int);
            }
            self.advance();
        }
        proof {
            assert(self.current as int == ident_end(s, i));
        }
        let id = self.source.as_str().substring_char(self.start, self.current);
        let token_type = Self::identifier_tokentype(id);
        let line = self.line;
        self.add_token(token_type, None, line);
    }

    /// Scans the rest of a string literal, whose opening quote, at `start`,
    /// has just been consumed: to the closing quote, counting embedded
    /// newlines, or to end-of-source, recording an unterminated-string
    /// diagnostic on the line the literal began.
    #[verifier::loop_isolation(false)]
    fn string(&mut self)
        requires
            old(self).inv_base(),
            old(self).current as int == old(self).start as int + 1,
            (old(self).start as int) < old(self).source@.len(),
            old(self).source@[old(self).start as int] == '"',
            old(self).line as int == line_at(old(self).source@, old(self).current as int),
        ensures
            final(self).inv_base(),
            final(self).source == old(self).source,
            final(self).n == old(self).n,
            final(self).current as int == step(old(self).source@, old(self).start as int).next,
            final(self).line as int == line_at(old(self).source@, final(self).current as int),
            final(self).tokens.deep_view() == old(self).tokens.deep_view() + step(
                old(self).source@,
                old(self).start as int,
            ).toks,
            final(self).errors@ == old(self).errors@ + step(
                old(self).source@,
                old(self).start as int,
            ).errs,
    {
        let ghost s = self.source@;
        let ghost i = self.start as int;
        let ghost q = find_char(s, i + 1, '"');
        let ghost pre = *self;
        let start_line = self.line;
        proof {
            lemma_line_at_step(s, i);
            lemma_find_char_bounds(s, i + 1, '"');
        }
        while !self.is_at_end() && self.peek() != '"'
            invariant
                self.inv_base(),
                self.source == pre.source,
                self.n == pre.n,
                self.start == pre.start,
                self.tokens == pre.tokens,
                self.errors == pre.errors,
                i + 1 <= self.current as int,
                find_char(s, self.current as int, '"') == q,
                self.line as int == line_at(s, self.current as int),
                start_line as int == line_at(s, i),
            decreases self.n - self.current,
        {
            if self.peek() == '\n' {
                proof {
                    lemma_newline_count_bounds(s, self.current as int);
                }
                self.line = self.line + 1;
            }
            proof {
                lemma_line_at_step(s, self.current as int);
            }
            self.advance();
        }
        if self.is_at_end() {
            proof {
                assert(q == s.len());
            }
            self.errors.push(ScanError::UnterminatedString { line: start_line });
            proof {
                assert(self.errors@ =~= old(self).errors@ + step(s, i).errs);
                assert(self.tokens.deep_view() =~= old(self).tokens.deep_view() + step(
                    s,
                    i,
                ).toks);
            }
            return ;
        }
        proof {
            assert(self.current as int == q);
            lemma_line_at_step(s, self.current as int);
        }
        self.advance();
        let text = self.source.as_str().substring_char(self.start, self.current);
        let lit = self.source.as_str().substring_char(self.start + 1, self.current - 1);
        let owned = lit.to_owned();
        let t = Token::new(TokenType::String, text, Some(owned), start_line);
        self.tokens.push(t);
        proof {
            assert(self.tokens.deep_view() =~= old(self).tokens.deep_view() + step(s, i).toks);
            assert(self.errors@ =~= old(self).errors@ + step(s, i).errs);
        }
    }

    /// One dispatch on the next character: consumes one lexeme (or one
    /// skipped character, or one comment) and emits what the model's `step`
    /// says it emits.
    #[verifier::loop_isolation(false)]
    fn scan_token(&mut self)
        requires
            old(self).inv_base(),
            old(self).start == old(self).current,
            (old(self).current as int) < old(self).source@.len(),
            old(self).line as int == line_at(old(self).source@, old(self).current as int),
        ensures
            final(self).inv_base(),
            final(self).source == old(self).source,
            final(self).n == old(self).n,
            final(self).current as int == step(old(self).source@, old(self).current as int).next,
            final(self).line as int == line_at(old(self).source@, final(self).current as int),
            final(self).tokens.deep_view() == old(self).tokens.deep_view() + step(
                old(self).source@,
                old(self).current as int,
            ).toks,
            final(self).errors@ == old(self).errors@ + step(
                old(self).source@,
                old(self).current as int,
            ).errs,
    {
        let ghost s = self.source@;
        let ghost i = self.current as int;
        proof {
            lemma_line_at_step(s, i);
        }
        let c = self.advance();
        let line = self.line;
        if c == '(' {
            self.add_token(TokenType::LeftParen, None, line);
        } else if c == ')' {
            self.add_token(TokenType::RightParen, None, line);
        } else if c == '{' {
            self.add_token(TokenType::LeftBrace, None, line);
        } else if c == '}' {
            self.add_token(TokenType::RightBrace, None, line);
        } else if c == ',' {
            self.add_token(TokenType::Comma, None, line);
        } else if c == '.' {
            self.add_token(TokenType::Dot, None, line);
        } else if c == '-' {
            self.add_token(TokenType::Minus, None, line);
        } else if c == '+' {
            self.add_token(TokenType::Plus, None, line);
        } else if c == ';' {
            self.add_token(TokenType::Semicolon, None, line);
        } else if c == '*' {
            self.add_token(TokenType::Star, None, line);
        } else if c == '!' {
            if self.match_char('=') {
                proof {
                    lemma_line_at_step(s, i + 1);
                }
                self.add_token(TokenType::BangEqual, None, line);
            } else {
                self.add_token(TokenType::Bang, None, line);
            }
        } else if c == '=' {
            if self.match_char('=') {
                proof {
                    lemma_line_at_step(s, i + 1);
                }
                self.add_token(TokenType::EqualEqual, None, line);
            } else {
                self.add_token(TokenType::Equal, None, line);
            }
        } else if c == '<' {
            if self.match_char('=') {
                proof {
                    lemma_line_at_step(s, i + 1);
                }
                self.add_token(TokenType::LessEqual, None, line);
            } else {
                self.add_token(TokenType::Less, None, line);
            }
        } else if c == '>' {
            if self.match_char('=') {
                proof {
                    lemma_line_at_step(s, i + 1);
                }
                self.add_token(TokenType::GreaterEqual, None, line);
            } else {
                self.add_token(TokenType::Greater, None, line);
            }
        } else if c == '/' {
            if self.match_char('/') {
                proof {
                    lemma_line_at_step(s, i + 1);
                }
                let ghost j0 = self.current as int;
                while !self.is_at_end() && self.peek() != '\n'
                    invariant
                        self.inv_base(),
                        self.source@ == s,
                        j0 <= self.current as int,
                        find_char(s, self.current as int, '\n') == find_char(s, j0, '\n'),
                        self.line as int == line_at(s, self.current as int),
                        Self::cursor_only(*old(self), *self),
                    decreases self.n - self.current,
                {
                    proof {
                        lemma_line_at_step(s, self.current as int);
                    }
                    self.advance();
                }
                proof {
                    assert(self.current as int == find_char(s, j0, '\n'));
                    assert(self.tokens.deep_view() =~= old(self).tokens.deep_view() + step(
                        s,
                        i,
                    ).toks);
                    assert(self.errors@ =~= old(self).errors@ + step(s, i).errs);
                }
            } else {
                self.add_token(TokenType::Slash, None, line);
            }
        } else if c == ' ' || c == '\r' || c == '\t' {
            proof {
                assert(self.tokens.deep_view() =~= old(self).tokens.deep_view() + step(
                    s,
                    i,
                ).toks);
                assert(self.errors@ =~= old(self).errors@ + step(s, i).errs);
            }
        } else if c == '\n' {
            proof {
                lemma_newline_count_bounds(s, i);
            }
            self.line = self.line + 1;
            proof {
                assert(self.tokens.deep_view() =~= old(self).tokens.deep_view() + step(
                    s,
                    i,
                ).toks);
                assert(self.errors@ =~= old(self).errors@ + step(s, i).errs);
            }
        } else if c == '"' {
            self.string();
        } else if Self::is_digit(c) {
            self.number();
        } else if Self::is_alpha(c) {
            self.identifier();
        } else {
            self.errors.push(ScanError::UnexpectedCharacter { line });
            proof {
                assert(self.tokens.deep_view() =~= old(self).tokens.deep_view() + step(
                    s,
                    i,
                ).toks);
                assert(self.errors@ =~= old(self).errors@ + step(s, i).errs);
            }
        }
    }

    /// Runs the source to completion: one token per lexeme, in source order,
    /// with one final `EOF` token, beside the diagnostics the pass recorded.
    ///
    /// The pair returned is exactly what the model says the source scans to:
    /// its first component the tokens, its second the diagnostics.
    #[verifier::loop_isolation(false)]
    pub fn scan_tokens(&mut self) -> (r: (Vec<Token>, Vec<ScanError>))
        requires
            old(self).wf(),
            old(self).fresh(),
        ensures
            final(self).wf(),
            r.0.deep_view() == scan_spec(old(self).src()).toks,
            r.1@ == scan_spec(old(self).src()).errs,
    {
        let ghost s = self.source@;
        proof {
            assert(scan_from(s, 0).toks =~= self.tokens.deep_view() + scan_from(s, 0).toks);
            assert(scan_from(s, 0).errs =~= self.errors@ + scan_from(s, 0).errs);
        }
        while !self.is_at_end()
            invariant
                self.inv_base(),
                self.source@ == s,
                self.line as int == line_at(s, self.current as int),
                scan_from(s, 0).toks == self.tokens.deep_view() + scan_from(
                    s,
                    self.current as int,
                ).toks,
                scan_from(s, 0).errs == self.errors@ + scan_from(s, self.current as int).errs,
            decreases self.n - self.current,
        {
            self.start = self.current;
            let ghost i = self.current as int;
            let ghost pre_toks = self.tokens.deep_view();
            let ghost pre_errs = self.errors@;
            self.scan_token();
            proof {
                lemma_step_bounds(s, i);
                assert(scan_from(s, i).toks == step(s, i).toks + scan_from(
                    s,
                    step(s, i).next,
                ).toks);
                assert(scan_from(s, i).errs == step(s, i).errs + scan_from(
                    s,
                    step(s, i).next,
                ).errs);
                assert(pre_toks + scan_from(s, i).toks =~= (pre_toks + step(s, i).toks)
                    + scan_from(s, step(s, i).next).toks);
                assert(pre_errs + scan_from(s, i).errs =~= (pre_errs + step(s, i).errs)
                    + scan_from(s, step(s, i).next).errs);
            }
        }
        self.start = self.current;
        let ghost end = self.current as int;
        let line = self.line;
        self.add_token(TokenType::EOF, None, line);
        proof {
            assert(s.subrange(end, end) =~= Seq::<char>::empty());
            assert(scan_from(s, end).toks == seq![eof_token(s, end)]);
            assert(self.tokens.deep_view() =~= scan_from(s, 0).toks);
            assert(self.errors@ =~= scan_from(s, 0).errs);
        }
        let mut out_tokens: Vec<Token> = Vec::new();
        let mut out_errors: Vec<ScanError> = Vec::new();
        core::mem::swap(&mut out_tokens, &mut self.tokens);
        core::mem::swap(&mut out_errors, &mut self.errors);
        (out_tokens, out_errors)
    }

    /// The kind of an identifier-shaped lexeme: its keyword, or `Identifier`.
    fn identifier_tokentype(id: &str) -> (t: TokenType)
        ensures
            t == keyword_type(id@),
    {
        if str_eq(id, "and") {
            TokenType::And
        } else if str_eq(id, "class") {
            TokenType::Class
        } else if str_eq(id, "else") {
            TokenType::Else
        } else if str_eq(id, "false") {
            TokenType::False
        } else if str_eq(id, "for") {
            TokenType::For
        } else if str_eq(id, "fun") {
            TokenType::Fun
        } else if str_eq(id, "if") {
            TokenType::If
        } else if str_eq(id, "nil") {
            TokenType::Nil
        } else if str_eq(id, "or") {
            TokenType::Or
        } else if str_eq(id, "print") {
            TokenType::Print
        } else if str_eq(id, "return") {
            TokenType::Return
        } else if str_eq(id, "super") {
            TokenType::Super
        } else if str_eq(id, "this") {
            TokenType::This
        } else if str_eq(id, "true") {
            TokenType::True
        } else if str_eq(id, "var") {
            TokenType::Var
        } else if str_eq(id, "while") {
            TokenType::While
        } else {
            TokenType::Identifier
        }
    }
}

/// Character-for-character equality of two string slices.
fn str_eq(a: &str, b: &str) -> (r: bool)
    ensures
        r == (a@ == b@),
{
    let na = a.unicode_len();
    let nb = b.unicode_len();
    if na != nb {
        return false;
    }
    let mut k: usize = 0;
    while k < na
        invariant
            na as int == a@.len(),
            na as int == b@.len(),
            k <= na,
            forall|j: int| 0 <= j < k as int ==> #[trigger] a@[j] == b@[j],
        decreases na - k,
    {
        if a.get_char(k) != b.get_char(k) {
            return false;
        }
        k = k + 1;
    }
    proof {
        assert(a@ =~= b@);
    }
    true
}

} // verus!
