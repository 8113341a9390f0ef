use lox_scanner::error::{LexError, LexErrorKind};
use lox_scanner::scanner::scan;
use lox_scanner::token::{Token, TokenType};

const SAMPLES: [&str; 12] = [
    "",
    "(",
    "var x = 3.14;",
    "\"open",
    "/* open",
    "// only a comment",
    "a\nb\nc",
    "@#$",
    "1.2.3",
    "while (true) { print \"x\"; }\n",
    "\n\n\n",
    "!",
];

fn newlines(text: &str) -> u64 {
    text.chars().filter(|c| *c == '\n').count() as u64
}

fn written_out(tokens: &[Token]) -> String {
    let mut text = String::new();
    for token in tokens {
        text.push_str(&token.lexeme);
        text.push_str(&token.literal);
        text.push(' ');
    }
    text
}

fn kinds_of(tokens: &[Token]) -> Vec<TokenType> {
    tokens.iter().map(|t| t.token_type).collect()
}

#[test]
fn tokens_end_with_the_only_eof() {
    for text in SAMPLES {
        let out = scan(text);
        assert!(!out.tokens.is_empty());
        let (last, before) = out.tokens.split_last().unwrap();
        assert_eq!(*last, Token::new(TokenType::Eof, "EOF", "", 1 + newlines(text)));
        assert!(before.iter().all(|t| t.token_type != TokenType::Eof));
    }
}

#[test]
fn characters_that_start_nothing_give_one_error_each() {
    let text = "@#$%^&~`?:'[]|\\_\u{e9}";
    let out = scan(text);
    assert_eq!(out.tokens, vec![Token::new(TokenType::Eof, "EOF", "", 1)]);
    let expected: Vec<LexError> =
        text.chars().map(|c| LexError { kind: LexErrorKind::UnexpectedChar(c), line: 1 }).collect();
    assert_eq!(out.errors, expected);
}

#[test]
fn marks_operators_and_reserved_words_scan_again_as_themselves() {
    let text = "( ) { } , . - + ; / * ! != = == > >= < <= and class else false for if nil or \
                print return super this true var while";
    let first = scan(text);
    assert!(first.errors.is_empty());
    assert_eq!(first.tokens.len(), 35);
    let (_, body) = first.tokens.split_last().unwrap();
    let second = scan(&written_out(body));
    assert!(second.errors.is_empty());
    assert_eq!(kinds_of(&second.tokens), kinds_of(&first.tokens));
    assert_eq!(second.tokens, first.tokens);
}

#[test]
fn rescanning_keeps_kinds_whatever_the_layout() {
    let first = scan("if\n(\n\ttrue\n)\n{print\n}!= ==/* gone */<=\n// gone\nwhile");
    assert!(first.errors.is_empty());
    let (_, body) = first.tokens.split_last().unwrap();
    let text = written_out(body);
    assert_eq!(text, "if ( true ) { print } != == <= while ");
    let second = scan(&text);
    assert!(second.errors.is_empty());
    assert_eq!(kinds_of(&second.tokens), kinds_of(&first.tokens));
}

#[test]
fn lines_never_go_down() {
    for text in SAMPLES {
        let out = scan(text);
        let mut line: u64 = 1;
        for token in &out.tokens {
            assert!(line <= token.line);
            line = token.line;
        }
        let mut line: u64 = 1;
        for error in &out.errors {
            assert!(line <= error.line);
            line = error.line;
        }
    }
}

#[test]
fn tokens_without_strings_scan_again_as_themselves() {
    let first = scan("var x1=3.14\nwhile (y2 >= 10.) { print 1.2.3 ; }");
    assert_eq!(first.errors, vec![LexError { kind: LexErrorKind::MalformedNumber, line: 2 }]);
    let (_, body) = first.tokens.split_last().unwrap();
    let text = written_out(body);
    assert_eq!(text, "var x1 3.14 while ( y2 >= 10. { print 1.23 ; } ");
    let second = scan(&text);
    assert!(second.errors.is_empty());
    assert_eq!(kinds_of(&second.tokens), kinds_of(&first.tokens));
    let moved: Vec<Token> = first
        .tokens
        .iter()
        .map(|t| Token::new(t.token_type, &t.lexeme, &t.literal, 1))
        .collect();
    assert_eq!(second.tokens, moved);
}

#[test]
fn strings_do_not_scan_again_as_themselves() {
    let first = scan("\"(\"");
    assert_eq!(kinds_of(&first.tokens), vec![TokenType::String, TokenType::Eof]);
    let (_, body) = first.tokens.split_last().unwrap();
    let second = scan(&written_out(body));
    assert_eq!(kinds_of(&second.tokens), vec![TokenType::LeftParen, TokenType::Eof]);
}

fn is_made_as_scanned(token: &Token) -> bool {
    let literal: Vec<char> = token.literal.chars().collect();
    match token.token_type {
        TokenType::Identifier => {
            token.lexeme.is_empty()
                && !literal.is_empty()
                && literal[0].is_ascii_alphabetic()
                && literal.iter().all(|c| c.is_ascii_alphanumeric())
                && lox_scanner::scanner::keyword(&token.literal).is_none()
        }
        TokenType::Number => {
            token.lexeme.is_empty()
                && !literal.is_empty()
                && literal[0].is_ascii_digit()
                && literal.iter().all(|c| c.is_ascii_digit() || *c == '.')
                && literal.iter().filter(|c| **c == '.').count() <= 1
        }
        TokenType::String => token.lexeme.is_empty() && !literal.contains(&'"'),
        kind => match lox_scanner::scanner::keyword(&token.literal) {
            Some(word) => token.lexeme.is_empty() && word == kind,
            None => {
                token.literal.is_empty() && !token.lexeme.is_empty() && token.lexeme == kind.lexeme()
            }
        },
    }
}

#[test]
fn tokens_are_made_as_scanned() {
    for text in SAMPLES {
        assert!(scan(text).tokens.iter().all(is_made_as_scanned));
    }
    let out = scan("a1 = \"s\n\" + 1..2.3 / nil\n!= (b) // c\n /* d */ 7. <= while1 ;");
    assert_eq!(out.tokens.len(), 15);
    assert!(out.tokens.iter().all(is_made_as_scanned));
}
