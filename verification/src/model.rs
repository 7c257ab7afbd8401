//! The mathematical model of the scan: a recursive specification that maps a
//! source text, as a sequence of characters, to the token sequence and the
//! diagnostics that one full left-to-right pass produces.

use crate::token::{ScanError, SpecToken, TokenType};
use vstd::prelude::*;

verus! {

// ---------------------------------------------------------------------------
// Character classes
// ---------------------------------------------------------------------------
/// An ASCII decimal digit.
pub open spec fn is_digit_char(c: char) -> bool {
    '0' <= c && c <= '9'
}

/// A character that may start an identifier: an ASCII letter or underscore.
pub open spec fn is_alpha_char(c: char) -> bool {
    ('a' <= c && c <= 'z') || ('A' <= c && c <= 'Z') || c == '_'
}

/// A character that may continue an identifier.
pub open spec fn is_ident_char(c: char) -> bool {
    is_alpha_char(c) || is_digit_char(c)
}

/// Whitespace that is skipped without effect: space, carriage return, tab.
/// The newline is handled apart, since it advances the line counter.
pub open spec fn is_blank_char(c: char) -> bool {
    c == ' ' || c == '\r' || c == '\t'
}

// ---------------------------------------------------------------------------
// Lines
// ---------------------------------------------------------------------------
/// How many newline characters stand strictly before index `i` of `s`.
pub open spec fn newline_count(s: Seq<char>, i: int) -> int
    decreases i,
{
    if i <= 0 {
        0
    } else if 0 <= i - 1 < s.len() && s[i - 1] == '\n' {
        newline_count(s, i - 1) + 1
    } else {
        newline_count(s, i - 1)
    }
}

/// The 1-based line number on which index `i` of `s` stands.
pub open spec fn line_at(s: Seq<char>, i: int) -> int {
    1 + newline_count(s, i)
}

pub proof fn lemma_newline_count_bounds(s: Seq<char>, i: int)
    requires
        0 <= i,
    ensures
        0 <= newline_count(s, i) <= i,
    decreases i,
{
    if i > 0 {
        lemma_newline_count_bounds(s, i - 1);
    }
}

pub proof fn lemma_newline_count_mono(s: Seq<char>, i: int, j: int)
    requires
        i <= j,
    ensures
        newline_count(s, i) <= newline_count(s, j),
    decreases j - i,
{
    if i < j {
        lemma_newline_count_mono(s, i, j - 1);
    }
}

/// Stepping one character forward crosses one line exactly when that
/// character is a newline.
pub proof fn lemma_line_at_step(s: Seq<char>, i: int)
    requires
        0 <= i < s.len(),
    ensures
        line_at(s, i + 1) == line_at(s, i) + if s[i] == '\n' {
            1int
        } else {
            0int
        },
{
}

/// The character at index `i` of `s`, or the NUL sentinel past the end: what
/// one-character lookahead sees.
pub open spec fn peek_char(s: Seq<char>, i: int) -> char {
    if 0 <= i < s.len() {
        s[i]
    } else {
        '\0'
    }
}

// ---------------------------------------------------------------------------
// Lexeme boundaries
// ---------------------------------------------------------------------------
/// The first index at or after `i` whose character is not a digit, or the end
/// of `s`.
pub open spec fn digits_end(s: Seq<char>, i: int) -> int
    decreases s.len() - i,
{
    if 0 <= i < s.len() && is_digit_char(s[i]) {
        digits_end(s, i + 1)
    } else {
        i
    }
}

/// The first index at or after `i` whose character is not an identifier
/// character, or the end of `s`.
pub open spec fn ident_end(s: Seq<char>, i: int) -> int
    decreases s.len() - i,
{
    if 0 <= i < s.len() && is_ident_char(s[i]) {
        ident_end(s, i + 1)
    } else {
        i
    }
}

/// The first index at or after `i` holding character `c`, or the length of
/// `s` when no such index exists.
pub open spec fn find_char(s: Seq<char>, i: int, c: char) -> int
    decreases s.len() - i,
{
    if !(0 <= i < s.len()) {
        s.len() as int
    } else if s[i] == c {
        i
    } else {
        find_char(s, i + 1, c)
    }
}

pub proof fn lemma_digits_end_bounds(s: Seq<char>, i: int)
    requires
        0 <= i <= s.len(),
    ensures
        i <= digits_end(s, i) <= s.len(),
    decreases s.len() - i,
{
    if i < s.len() && is_digit_char(s[i]) {
        lemma_digits_end_bounds(s, i + 1);
    }
}

pub proof fn lemma_ident_end_bounds(s: Seq<char>, i: int)
    requires
        0 <= i <= s.len(),
    ensures
        i <= ident_end(s, i) <= s.len(),
    decreases s.len() - i,
{
    if i < s.len() && is_ident_char(s[i]) {
        lemma_ident_end_bounds(s, i + 1);
    }
}

pub proof fn lemma_find_char_bounds(s: Seq<char>, i: int, c: char)
    requires
        0 <= i <= s.len(),
    ensures
        i <= find_char(s, i, c) <= s.len(),
    decreases s.len() - i,
{
    if i < s.len() && s[i] != c {
        lemma_find_char_bounds(s, i + 1, c);
    }
}

/// The end of a number lexeme whose digits start at `i`: the maximal run of
/// digits, and past it one `.` with a fractional run only when a digit
/// directly follows the dot.
pub open spec fn number_end(s: Seq<char>, i: int) -> int {
    let whole = digits_end(s, i);
    if whole < s.len() && s[whole] == '.' && whole + 1 < s.len() && is_digit_char(
        s[whole + 1],
    ) {
        digits_end(s, whole + 1)
    } else {
        whole
    }
}

// ---------------------------------------------------------------------------
// Keywords
// ---------------------------------------------------------------------------
/// The kind of an identifier-shaped lexeme: the matching reserved word, or
/// `Identifier` when the text, compared exactly and case-sensitively, is none
/// of them.
pub open spec fn keyword_type(id: Seq<char>) -> TokenType {
    if id == "and"@ {
        TokenType::And
    } else if id == "class"@ {
        TokenType::Class
    } else if id == "else"@ {
        TokenType::Else
    } else if id == "false"@ {
        TokenType::False
    } else if id == "for"@ {
        TokenType::For
    } else if id == "fun"@ {
        TokenType::Fun
    } else if id == "if"@ {
        TokenType::If
    } else if id == "nil"@ {
        TokenType::Nil
    } else if id == "or"@ {
        TokenType::Or
    } else if id == "print"@ {
        TokenType::Print
    } else if id == "return"@ {
        TokenType::Return
    } else if id == "super"@ {
        TokenType::Super
    } else if id == "this"@ {
        TokenType::This
    } else if id == "true"@ {
        TokenType::True
    } else if id == "var"@ {
        TokenType::Var
    } else if id == "while"@ {
        TokenType::While
    } else {
        TokenType::Identifier
    }
}

// ---------------------------------------------------------------------------
// One dispatch step
// ---------------------------------------------------------------------------
/// What one dispatch on the character at `i` produces: the index of the next
/// unconsumed character, the token it emits (none or one), and the diagnostic
/// it records (none or one).
pub struct Step {
    pub next: int,
    pub toks: Seq<SpecToken>,
    pub errs: Seq<ScanError>,
}

/// The token spanning `s[lo..hi]`, standing on the line of its first
/// character.
pub open spec fn tok_at(
    s: Seq<char>,
    lo: int,
    hi: int,
    token_type: TokenType,
    literal: Option<Seq<char>>,
) -> SpecToken {
    SpecToken { token_type, lexeme: s.subrange(lo, hi), literal, line: line_at(s, lo) }
}

/// A step emitting the one-character token at `i`.
pub open spec fn single_step(s: Seq<char>, i: int, token_type: TokenType) -> Step {
    Step { next: i + 1, toks: seq![tok_at(s, i, i + 1, token_type, None)], errs: seq![] }
}

/// A step with one-character lookahead: when `=` directly follows, the
/// two-character token `two`, else the one-character token `one`.
pub open spec fn operator_step(s: Seq<char>, i: int, two: TokenType, one: TokenType) -> Step {
    if i + 1 < s.len() && s[i + 1] == '=' {
        Step { next: i + 2, toks: seq![tok_at(s, i, i + 2, two, None)], errs: seq![] }
    } else {
        single_step(s, i, one)
    }
}

/// A step consuming `s[i..next]` without emitting anything.
pub open spec fn skip_step(next: int) -> Step {
    Step { next, toks: seq![], errs: seq![] }
}

/// One dispatch on the character at `i` (meaningful for `0 <= i < s.len()`),
/// by the priority order of the lexical grammar.
pub open spec fn step(s: Seq<char>, i: int) -> Step
    recommends
        0 <= i < s.len(),
{
    let c = s[i];
    if c == '(' {
        single_step(s, i, TokenType::LeftParen)
    } else if c == ')' {
        single_step(s, i, TokenType::RightParen)
    } else if c == '{' {
        single_step(s, i, TokenType::LeftBrace)
    } else if c == '}' {
        single_step(s, i, TokenType::RightBrace)
    } else if c == ',' {
        single_step(s, i, TokenType::Comma)
    } else if c == '.' {
        single_step(s, i, TokenType::Dot)
    } else if c == '-' {
        single_step(s, i, TokenType::Minus)
    } else if c == '+' {
        single_step(s, i, TokenType::Plus)
    } else if c == ';' {
        single_step(s, i, TokenType::Semicolon)
    } else if c == '*' {
        single_step(s, i, TokenType::Star)
    } else if c == '!' {
        operator_step(s, i, TokenType::BangEqual, TokenType::Bang)
    } else if c == '=' {
        operator_step(s, i, TokenType::EqualEqual, TokenType::Equal)
    } else if c == '<' {
        operator_step(s, i, TokenType::LessEqual, TokenType::Less)
    } else if c == '>' {
        operator_step(s, i, TokenType::GreaterEqual, TokenType::Greater)
    } else if c == '/' {
        if i + 1 < s.len() && s[i + 1] == '/' {
            // A comment runs to the end of the line; the newline itself is
            // left for the next dispatch.
            skip_step(find_char(s, i + 2, '\n'))
        } else {
            single_step(s, i, TokenType::Slash)
        }
    } else if is_blank_char(c) || c == '\n' {
        skip_step(i + 1)
    } else if c == '"' {
        let close = find_char(s, i + 1, '"');
        if close == s.len() {
            // Unterminated string: no token, one diagnostic on the line the
            // literal began, and the rest of the source is consumed (there is
            // none, since end-of-source was reached).
            Step {
                next: s.len() as int,
                toks: seq![],
                errs: seq![ScanError::UnterminatedString { line: line_at(s, i) as usize }],
            }
        } else {
            Step {
                next: close + 1,
                toks: seq![
                    tok_at(s, i, close + 1, TokenType::String, Some(s.subrange(i + 1, close)))
                ],
                errs: seq![],
            }
        }
    } else if is_digit_char(c) {
        let stop = number_end(s, i);
        Step {
            next: stop,
            toks: seq![tok_at(s, i, stop, TokenType::Number, Some(s.subrange(i, stop)))],
            errs: seq![],
        }
    } else if is_alpha_char(c) {
        let stop = ident_end(s, i);
        Step {
            next: stop,
            toks: seq![tok_at(s, i, stop, keyword_type(s.subrange(i, stop)), None)],
            errs: seq![],
        }
    } else {
        Step {
            next: i + 1,
            toks: seq![],
            errs: seq![ScanError::UnexpectedCharacter { line: line_at(s, i) as usize }],
        }
    }
}

/// Every dispatch consumes at least one character and never runs past the end
/// of the source.
pub proof fn lemma_step_bounds(s: Seq<char>, i: int)
    requires
        0 <= i < s.len(),
    ensures
        i < step(s, i).next <= s.len(),
{
    let c = s[i];
    if c == '/' && i + 1 < s.len() && s[i + 1] == '/' {
        lemma_find_char_bounds(s, i + 2, '\n');
    } else if c == '"' {
        lemma_find_char_bounds(s, i + 1, '"');
    } else if is_digit_char(c) {
        lemma_digits_end_bounds(s, i + 1);
        if digits_end(s, i) < s.len() && s[digits_end(s, i)] == '.' && digits_end(s, i) + 1
            < s.len() && is_digit_char(s[digits_end(s, i) + 1]) {
            lemma_digits_end_bounds(s, digits_end(s, i) + 1);
        }
    } else if is_alpha_char(c) {
        lemma_ident_end_bounds(s, i + 1);
    }
}

// ---------------------------------------------------------------------------
// The full pass
// ---------------------------------------------------------------------------
/// What a full pass produces: the token sequence and the diagnostics, each in
/// source order.
pub struct ScanOut {
    pub toks: Seq<SpecToken>,
    pub errs: Seq<ScanError>,
}

/// The end marker appended once the cursor stands at `i`: an empty lexeme on
/// the final line reached.
pub open spec fn eof_token(s: Seq<char>, i: int) -> SpecToken {
    SpecToken {
        token_type: TokenType::EOF,
        lexeme: Seq::<char>::empty(),
        literal: None,
        line: line_at(s, i),
    }
}

/// The scan of `s` from position `i` on: dispatch step by step until the end
/// of the source, then one `EOF` token.
pub open spec fn scan_from(s: Seq<char>, i: int) -> ScanOut
    decreases s.len() - i
    via scan_from_decreases
{
    if !(0 <= i < s.len()) {
        ScanOut { toks: seq![eof_token(s, i)], errs: seq![] }
    } else {
        let st = step(s, i);
        let rest = scan_from(s, st.next);
        ScanOut { toks: st.toks + rest.toks, errs: st.errs + rest.errs }
    }
}

#[via_fn]
proof fn scan_from_decreases(s: Seq<char>, i: int) {
    if 0 <= i < s.len() {
        lemma_step_bounds(s, i);
    }
}

/// The scan of the whole source `s`.
pub open spec fn scan_spec(s: Seq<char>) -> ScanOut {
    scan_from(s, 0)
}

} // verus!
