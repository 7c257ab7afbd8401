use lox_scanner::scanner::Scanner;
use lox_scanner::token::{ScanError, Token, TokenType};

fn scan(src: &str) -> (Vec<Token>, Vec<ScanError>) {
    let source = String::from(src);
    let mut scanner = Scanner::new(&source);
    scanner.scan_tokens()
}

fn types(tokens: &[Token]) -> Vec<TokenType> {
    tokens.iter().map(|t| t.token_type).collect()
}

fn lexemes(tokens: &[Token]) -> Vec<String> {
    tokens.iter().map(|t| t.lexeme.clone()).collect()
}

#[test]
fn empty_source_scans_to_eof() {
    let (tokens, errors) = scan("");
    assert_eq!(tokens.len(), 1);
    assert_eq!(tokens[0].token_type, TokenType::EOF);
    assert_eq!(tokens[0].lexeme, "");
    assert_eq!(tokens[0].literal, None);
    assert_eq!(tokens[0].line, 1);
    assert_eq!(errors.len(), 0);
}

#[test]
fn parens_and_braces() {
    let (tokens, errors) = scan("(( )){}");
    assert_eq!(
        types(&tokens),
        vec![
            TokenType::LeftParen,
            TokenType::LeftParen,
            TokenType::RightParen,
            TokenType::RightParen,
            TokenType::LeftBrace,
            TokenType::RightBrace,
            TokenType::EOF,
        ]
    );
    assert_eq!(lexemes(&tokens), vec!["(", "(", ")", ")", "{", "}", ""]);
    assert_eq!(errors.len(), 0);
}

#[test]
fn operators_one_and_two_chars() {
    let (tokens, errors) = scan("!= == <= >= ! = < >");
    assert_eq!(
        types(&tokens),
        vec![
            TokenType::BangEqual,
            TokenType::EqualEqual,
            TokenType::LessEqual,
            TokenType::GreaterEqual,
            TokenType::Bang,
            TokenType::Equal,
            TokenType::Less,
            TokenType::Greater,
            TokenType::EOF,
        ]
    );
    assert_eq!(
        lexemes(&tokens),
        vec!["!=", "==", "<=", ">=", "!", "=", "<", ">", ""]
    );
    assert_eq!(errors.len(), 0);
}

#[test]
fn string_literal_hello() {
    let (tokens, errors) = scan("\"hello\"");
    assert_eq!(tokens.len(), 2);
    assert_eq!(tokens[0].token_type, TokenType::String);
    assert_eq!(tokens[0].lexeme, "\"hello\"");
    assert_eq!(tokens[0].literal, Some(String::from("hello")));
    assert_eq!(tokens[0].line, 1);
    assert_eq!(tokens[1].token_type, TokenType::EOF);
    assert_eq!(errors.len(), 0);
}

#[test]
fn unterminated_string_reports_diagnostic() {
    let (tokens, errors) = scan("\"unterminated");
    assert_eq!(tokens.len(), 1);
    assert_eq!(tokens[0].token_type, TokenType::EOF);
    assert_eq!(errors, vec![ScanError::UnterminatedString { line: 1 }]);
}

#[test]
fn multiline_string_keeps_its_opening_line() {
    let (tokens, errors) = scan("\"a\nb\"");
    assert_eq!(tokens.len(), 2);
    assert_eq!(tokens[0].token_type, TokenType::String);
    assert_eq!(tokens[0].literal, Some(String::from("a\nb")));
    assert_eq!(tokens[0].line, 1);
    assert_eq!(tokens[1].token_type, TokenType::EOF);
    assert_eq!(tokens[1].line, 2);
    assert_eq!(errors.len(), 0);
}

#[test]
fn unterminated_string_reports_its_opening_line() {
    let (tokens, errors) = scan("+\n\"a\nb");
    assert_eq!(types(&tokens), vec![TokenType::Plus, TokenType::EOF]);
    assert_eq!(errors, vec![ScanError::UnterminatedString { line: 2 }]);
    // The line counter still crossed the embedded newline.
    assert_eq!(tokens[1].line, 3);
}

#[test]
fn number_literals_and_trailing_dot() {
    let (tokens, errors) = scan("123 45.67 89.");
    assert_eq!(
        types(&tokens),
        vec![
            TokenType::Number,
            TokenType::Number,
            TokenType::Number,
            TokenType::Dot,
            TokenType::EOF,
        ]
    );
    assert_eq!(tokens[0].literal, Some(String::from("123")));
    assert_eq!(tokens[1].literal, Some(String::from("45.67")));
    assert_eq!(tokens[2].literal, Some(String::from("89")));
    assert_eq!(tokens[2].lexeme, "89");
    assert_eq!(tokens[3].lexeme, ".");
    assert_eq!(errors.len(), 0);
}

#[test]
fn dot_alone_is_a_dot_token() {
    let (tokens, errors) = scan(".5");
    assert_eq!(types(&tokens), vec![TokenType::Dot, TokenType::Number, TokenType::EOF]);
    assert_eq!(tokens[1].literal, Some(String::from("5")));
    assert_eq!(errors.len(), 0);
}

#[test]
fn keyword_and_identifier() {
    let (tokens, errors) = scan("and classify");
    assert_eq!(
        types(&tokens),
        vec![TokenType::And, TokenType::Identifier, TokenType::EOF]
    );
    assert_eq!(tokens[1].lexeme, "classify");
    assert_eq!(tokens[1].literal, None);
    assert_eq!(errors.len(), 0);
}

#[test]
fn all_keywords_are_recognized() {
    let (tokens, errors) = scan(
        "and class else false fun for if nil or print return super this true var while",
    );
    assert_eq!(
        types(&tokens),
        vec![
            TokenType::And,
            TokenType::Class,
            TokenType::Else,
            TokenType::False,
            TokenType::Fun,
            TokenType::For,
            TokenType::If,
            TokenType::Nil,
            TokenType::Or,
            TokenType::Print,
            TokenType::Return,
            TokenType::Super,
            TokenType::This,
            TokenType::True,
            TokenType::Var,
            TokenType::While,
            TokenType::EOF,
        ]
    );
    assert_eq!(errors.len(), 0);
}

#[test]
fn identifier_may_hold_digits_after_its_start() {
    let (tokens, errors) = scan("a1_b2 _x orchid");
    assert_eq!(
        types(&tokens),
        vec![
            TokenType::Identifier,
            TokenType::Identifier,
            TokenType::Identifier,
            TokenType::EOF,
        ]
    );
    assert_eq!(lexemes(&tokens), vec!["a1_b2", "_x", "orchid", ""]);
    assert_eq!(errors.len(), 0);
}

#[test]
fn line_counter_across_newlines() {
    let (tokens, errors) = scan("1\n2\n3");
    assert_eq!(
        types(&tokens),
        vec![TokenType::Number, TokenType::Number, TokenType::Number, TokenType::EOF]
    );
    assert_eq!(tokens[0].line, 1);
    assert_eq!(tokens[1].line, 2);
    assert_eq!(tokens[2].line, 3);
    assert_eq!(tokens[3].line, 3);
    assert_eq!(errors.len(), 0);
}

#[test]
fn scanning_twice_is_identical() {
    let source = String::from("var x = 1.5; // note\nprint \"x\" != nil");
    let mut first = Scanner::new(&source);
    let mut second = Scanner::new(&source);
    let (tokens_a, errors_a) = first.scan_tokens();
    let (tokens_b, errors_b) = second.scan_tokens();
    assert_eq!(tokens_a, tokens_b);
    assert_eq!(errors_a, errors_b);
}

#[test]
fn comment_runs_to_the_end_of_the_line() {
    let (tokens, errors) = scan("+ // rest is skipped ,;.\n-");
    assert_eq!(types(&tokens), vec![TokenType::Plus, TokenType::Minus, TokenType::EOF]);
    assert_eq!(tokens[0].line, 1);
    assert_eq!(tokens[1].line, 2);
    assert_eq!(errors.len(), 0);
}

#[test]
fn comment_at_end_of_source_emits_nothing() {
    let (tokens, errors) = scan("// only a comment");
    assert_eq!(types(&tokens), vec![TokenType::EOF]);
    assert_eq!(errors.len(), 0);
}

#[test]
fn slash_alone_is_a_slash_token() {
    let (tokens, errors) = scan("1/2");
    assert_eq!(
        types(&tokens),
        vec![TokenType::Number, TokenType::Slash, TokenType::Number, TokenType::EOF]
    );
    assert_eq!(errors.len(), 0);
}

#[test]
fn unexpected_character_reports_and_continues() {
    let (tokens, errors) = scan("@+\n#");
    assert_eq!(types(&tokens), vec![TokenType::Plus, TokenType::EOF]);
    assert_eq!(
        errors,
        vec![
            ScanError::UnexpectedCharacter { line: 1 },
            ScanError::UnexpectedCharacter { line: 2 },
        ]
    );
}

#[test]
fn symbol_lexemes_reconstruct_the_source() {
    let source = "(( )){} != = / *";
    let (tokens, errors) = scan(source);
    assert_eq!(errors.len(), 0);
    // Every token but the final EOF carries a nonempty lexeme...
    assert_eq!(tokens.last().unwrap().token_type, TokenType::EOF);
    for t in &tokens[..tokens.len() - 1] {
        assert!(!t.lexeme.is_empty());
    }
    // ...and the concatenated lexemes are the source with whitespace removed.
    let joined: String = lexemes(&tokens).concat();
    let stripped: String = source.chars().filter(|c| !c.is_whitespace()).collect();
    assert_eq!(joined, stripped);
}

#[test]
fn number_dot_number_dot() {
    let (tokens, errors) = scan("123.456.789");
    assert_eq!(
        types(&tokens),
        vec![TokenType::Number, TokenType::Dot, TokenType::Number, TokenType::EOF]
    );
    assert_eq!(tokens[0].literal, Some(String::from("123.456")));
    assert_eq!(tokens[2].literal, Some(String::from("789")));
    assert_eq!(errors.len(), 0);
}

#[test]
fn token_new_builds_the_given_token() {
    let t = Token::new(TokenType::Number, "42", Some(String::from("42")), 7);
    assert_eq!(t.token_type, TokenType::Number);
    assert_eq!(t.lexeme, "42");
    assert_eq!(t.literal, Some(String::from("42")));
    assert_eq!(t.line, 7);
}

#[test]
fn trailing_newline_moves_eof_to_the_next_line() {
    let (tokens, errors) = scan("fun\n");
    assert_eq!(types(&tokens), vec![TokenType::Fun, TokenType::EOF]);
    assert_eq!(tokens[0].line, 1);
    assert_eq!(tokens[1].line, 2);
    assert_eq!(errors.len(), 0);
}

#[test]
fn keyword_prefix_is_an_identifier() {
    let (tokens, errors) = scan("an fo classx");
    assert_eq!(
        types(&tokens),
        vec![
            TokenType::Identifier,
            TokenType::Identifier,
            TokenType::Identifier,
            TokenType::EOF,
        ]
    );
    assert_eq!(errors.len(), 0);
}

#[test]
fn blank_whitespace_is_skipped() {
    let (tokens, errors) = scan(" \t\r ");
    assert_eq!(types(&tokens), vec![TokenType::EOF]);
    assert_eq!(tokens[0].line, 1);
    assert_eq!(errors.len(), 0);
}

#[test]
fn lookahead_at_end_of_source() {
    let (tokens, errors) = scan("!");
    assert_eq!(types(&tokens), vec![TokenType::Bang, TokenType::EOF]);
    assert_eq!(errors.len(), 0);
}

#[test]
fn every_single_character_token() {
    let (tokens, errors) = scan("(){},.-+;*/");
    assert_eq!(
        types(&tokens),
        vec![
            TokenType::LeftParen,
            TokenType::RightParen,
            TokenType::LeftBrace,
            TokenType::RightBrace,
            TokenType::Comma,
            TokenType::Dot,
            TokenType::Minus,
            TokenType::Plus,
            TokenType::Semicolon,
            TokenType::Star,
            TokenType::Slash,
            TokenType::EOF,
        ]
    );
    assert_eq!(errors.len(), 0);
}
