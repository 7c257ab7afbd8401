//! The token data model: token kinds, tokens, and lexical diagnostics.

use vstd::prelude::*;

verus! {

/// The closed set of token kinds the scanner can emit.
#[allow(non_camel_case_types)]
#[derive(Clone, Copy, Debug, PartialEq, Eq, Structural)]
pub enum TokenType {
    // Single-character tokens
    LeftParen,
    RightParen,
    LeftBrace,
    RightBrace,
    Comma,
    Dot,
    Minus,
    Plus,
    Semicolon,
    Slash,
    Star,
    // One or two character tokens
    Bang,
    BangEqual,
    Equal,
    EqualEqual,
    Greater,
    GreaterEqual,
    Less,
    LessEqual,
    // Literals
    Identifier,
    String,
    Number,
    // Keywords
    And,
    Class,
    Else,
    False,
    Fun,
    For,
    If,
    Nil,
    Or,
    Print,
    Return,
    Super,
    This,
    True,
    Var,
    While,
    // End marker, emitted exactly once as the final token of every scan
    EOF,
}

/// A lexical diagnostic.  Both kinds are non-fatal: the scan continues past
/// them, and they are handed to the caller beside the token sequence.
#[derive(Clone, Copy, Debug, PartialEq, Eq, Structural)]
pub enum ScanError {
    /// A character outside every recognized lexeme class, with the line it
    /// stood on.
    UnexpectedCharacter { line: usize },
    /// A string literal that reached end-of-source before its closing quote,
    /// with the line the literal began on.
    UnterminatedString { line: usize },
}

/// The mathematical value of a [`Token`]: the same four components, with the
/// text fields as character sequences.
pub struct SpecToken {
    pub token_type: TokenType,
    pub lexeme: Seq<char>,
    pub literal: Option<Seq<char>>,
    pub line: int,
}

/// One classified lexeme.
///
/// `lexeme` is an owned copy of the exact source substring that produced the
/// token (empty for `EOF`).  `literal` is present only for `String` tokens
/// (the content strictly between the quotes) and `Number` tokens (the matched
/// text; decoding to a numeric value is the consumer's job).  `line` is the
/// 1-based source line on which the token started.
#[derive(Clone, Debug, PartialEq, Eq)]
pub struct Token {
    pub token_type: TokenType,
    pub lexeme: String,
    pub literal: Option<String>,
    pub line: usize,
}

impl View for Token {
    type V = SpecToken;

    open spec fn view(&self) -> SpecToken {
        SpecToken {
            token_type: self.token_type,
            lexeme: self.lexeme@,
            literal: self.literal.deep_view(),
            line: self.line as int,
        }
    }
}

impl DeepView for Token {
    type V = SpecToken;

    open spec fn deep_view(&self) -> SpecToken {
        self.view()
    }
}

impl Token {
    /// Builds a token from its four components, copying the lexeme text.
    pub fn new(token_type: TokenType, lexeme: &str, literal: Option<String>, line: usize) -> (t:
        Token)
        ensures
            t@ == (SpecToken {
                token_type,
                lexeme: lexeme@,
                literal: literal.deep_view(),
                line: line as int,
            }),
    {
        Token { token_type, lexeme: lexeme.to_owned(), literal, line }
    }
}

} // verus!
