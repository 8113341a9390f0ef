use lox_scanner::error::{LexError, LexErrorKind};
use lox_scanner::scanner::scan;
use lox_scanner::token::{Token, TokenType};

fn eof(line: u64) -> Token {
    Token::new(TokenType::Eof, "EOF", "", line)
}

fn literal(kind: TokenType, text: &str, line: u64) -> Token {
    Token::new(kind, "", text, line)
}

fn symbol(kind: TokenType, text: &str, line: u64) -> Token {
    Token::new(kind, text, "", line)
}

#[test]
fn empty_source_gives_only_eof() {
    let out = scan("");
    assert_eq!(out.tokens, vec![eof(1)]);
    assert!(out.errors.is_empty());
}

#[test]
fn bang_equal_is_one_token() {
    let out = scan("!=");
    assert_eq!(out.tokens, vec![symbol(TokenType::BangEqual, "!=", 1), eof(1)]);
    assert!(out.errors.is_empty());
}

#[test]
fn bang_then_identifier() {
    let out = scan("!a");
    assert_eq!(
        out.tokens,
        vec![symbol(TokenType::Bang, "!", 1), literal(TokenType::Identifier, "a", 1), eof(1)]
    );
    assert!(out.errors.is_empty());
}

#[test]
fn newlines_count_lines() {
    let out = scan("\n\n(");
    assert_eq!(out.tokens, vec![symbol(TokenType::LeftParen, "(", 3), eof(3)]);
    assert!(out.errors.is_empty());
}

#[test]
fn string_literal() {
    let out = scan("\"hello\"");
    assert_eq!(out.tokens, vec![literal(TokenType::String, "hello", 1), eof(1)]);
    assert!(out.errors.is_empty());
}

#[test]
fn number_with_one_point() {
    let out = scan("3.14");
    assert_eq!(out.tokens, vec![literal(TokenType::Number, "3.14", 1), eof(1)]);
    assert!(out.errors.is_empty());
}

#[test]
fn number_with_two_points_drops_the_second() {
    let out = scan("3.1.4");
    assert_eq!(out.errors, vec![LexError { kind: LexErrorKind::MalformedNumber, line: 1 }]);
    assert_eq!(out.tokens, vec![literal(TokenType::Number, "3.14", 1), eof(1)]);
}

#[test]
fn number_with_many_points() {
    let out = scan("1.2.3.4");
    assert_eq!(
        out.errors,
        vec![
            LexError { kind: LexErrorKind::MalformedNumber, line: 1 },
            LexError { kind: LexErrorKind::MalformedNumber, line: 1 },
        ]
    );
    assert_eq!(out.tokens, vec![literal(TokenType::Number, "1.234", 1), eof(1)]);
}

#[test]
fn number_with_points_side_by_side() {
    let out = scan("3..4");
    assert_eq!(out.errors, vec![LexError { kind: LexErrorKind::MalformedNumber, line: 1 }]);
    assert_eq!(out.tokens, vec![literal(TokenType::Number, "3.4", 1), eof(1)]);
}

#[test]
fn number_may_end_with_its_point() {
    let out = scan("3.");
    assert_eq!(out.tokens, vec![literal(TokenType::Number, "3.", 1), eof(1)]);
    assert!(out.errors.is_empty());
}

#[test]
fn whole_number() {
    let out = scan("1234567890");
    assert_eq!(out.tokens, vec![literal(TokenType::Number, "1234567890", 1), eof(1)]);
    assert!(out.errors.is_empty());
}

#[test]
fn point_before_digits_is_a_dot() {
    let out = scan(".5");
    assert_eq!(
        out.tokens,
        vec![symbol(TokenType::Dot, ".", 1), literal(TokenType::Number, "5", 1), eof(1)]
    );
}

#[test]
fn keyword_while() {
    let out = scan("while");
    assert_eq!(out.tokens, vec![literal(TokenType::While, "while", 1), eof(1)]);
    assert_eq!(out.tokens[0].lexeme, "");
    assert_eq!(out.tokens[0].literal, "while");
    assert!(out.errors.is_empty());
}

#[test]
fn longer_word_is_an_identifier() {
    let out = scan("whiles");
    assert_eq!(out.tokens, vec![literal(TokenType::Identifier, "whiles", 1), eof(1)]);
    assert!(out.errors.is_empty());
}

#[test]
fn every_keyword() {
    let words = [
        ("and", TokenType::And),
        ("class", TokenType::Class),
        ("else", TokenType::Else),
        ("false", TokenType::False),
        ("for", TokenType::For),
        ("if", TokenType::If),
        ("nil", TokenType::Nil),
        ("or", TokenType::Or),
        ("print", TokenType::Print),
        ("return", TokenType::Return),
        ("super", TokenType::Super),
        ("this", TokenType::This),
        ("true", TokenType::True),
        ("var", TokenType::Var),
        ("while", TokenType::While),
    ];
    for (word, kind) in words {
        let out = scan(word);
        assert_eq!(out.tokens, vec![literal(kind, word, 1), eof(1)]);
        assert!(out.errors.is_empty());
    }
}

#[test]
fn keywords_are_case_sensitive() {
    let out = scan("While");
    assert_eq!(out.tokens, vec![literal(TokenType::Identifier, "While", 1), eof(1)]);
}

#[test]
fn identifier_with_digits() {
    let out = scan("x1y2");
    assert_eq!(out.tokens, vec![literal(TokenType::Identifier, "x1y2", 1), eof(1)]);
}

#[test]
fn every_punctuation_mark() {
    let out = scan("(){},.-+;*");
    assert_eq!(
        out.tokens,
        vec![
            symbol(TokenType::LeftParen, "(", 1),
            symbol(TokenType::RightParen, ")", 1),
            symbol(TokenType::LeftBrace, "{", 1),
            symbol(TokenType::RightBrace, "}", 1),
            symbol(TokenType::Comma, ",", 1),
            symbol(TokenType::Dot, ".", 1),
            symbol(TokenType::Minus, "-", 1),
            symbol(TokenType::Plus, "+", 1),
            symbol(TokenType::Semicolon, ";", 1),
            symbol(TokenType::Star, "*", 1),
            eof(1),
        ]
    );
    assert!(out.errors.is_empty());
}

#[test]
fn every_operator() {
    let out = scan("! != = == < <= > >= /");
    assert_eq!(
        out.tokens,
        vec![
            symbol(TokenType::Bang, "!", 1),
            symbol(TokenType::BangEqual, "!=", 1),
            symbol(TokenType::Equal, "=", 1),
            symbol(TokenType::EqualEqual, "==", 1),
            symbol(TokenType::Less, "<", 1),
            symbol(TokenType::LessEqual, "<=", 1),
            symbol(TokenType::Greater, ">", 1),
            symbol(TokenType::GreaterEqual, ">=", 1),
            symbol(TokenType::Slash, "/", 1),
            eof(1),
        ]
    );
    assert!(out.errors.is_empty());
}

#[test]
fn longest_operator_wins() {
    let out = scan("===");
    assert_eq!(
        out.tokens,
        vec![symbol(TokenType::EqualEqual, "==", 1), symbol(TokenType::Equal, "=", 1), eof(1)]
    );
    let out = scan("<==");
    assert_eq!(
        out.tokens,
        vec![symbol(TokenType::LessEqual, "<=", 1), symbol(TokenType::Equal, "=", 1), eof(1)]
    );
}

#[test]
fn operator_at_the_end_of_input() {
    assert_eq!(scan("!").tokens, vec![symbol(TokenType::Bang, "!", 1), eof(1)]);
    assert_eq!(scan("=").tokens, vec![symbol(TokenType::Equal, "=", 1), eof(1)]);
    assert_eq!(scan("<").tokens, vec![symbol(TokenType::Less, "<", 1), eof(1)]);
    assert_eq!(scan(">").tokens, vec![symbol(TokenType::Greater, ">", 1), eof(1)]);
    assert_eq!(scan("/").tokens, vec![symbol(TokenType::Slash, "/", 1), eof(1)]);
}

#[test]
fn line_comment_is_skipped() {
    let out = scan("// comment\n(");
    assert_eq!(out.tokens, vec![symbol(TokenType::LeftParen, "(", 2), eof(2)]);
    assert!(out.errors.is_empty());
}

#[test]
fn line_comment_at_the_end_of_input() {
    let out = scan("( // no newline");
    assert_eq!(out.tokens, vec![symbol(TokenType::LeftParen, "(", 1), eof(1)]);
    assert!(out.errors.is_empty());
}

#[test]
fn block_comment_is_skipped() {
    let out = scan("/* a\nb */(");
    assert_eq!(out.tokens, vec![symbol(TokenType::LeftParen, "(", 2), eof(2)]);
    assert!(out.errors.is_empty());
}

#[test]
fn block_comments_do_not_nest() {
    let out = scan("/* a /* b */ c */");
    assert_eq!(
        out.tokens,
        vec![
            literal(TokenType::Identifier, "c", 1),
            symbol(TokenType::Star, "*", 1),
            symbol(TokenType::Slash, "/", 1),
            eof(1),
        ]
    );
    assert!(out.errors.is_empty());
}

#[test]
fn block_comment_closes_at_the_first_star_slash() {
    assert_eq!(scan("/***/(").tokens, vec![symbol(TokenType::LeftParen, "(", 1), eof(1)]);
    assert_eq!(scan("/**/(").tokens, vec![symbol(TokenType::LeftParen, "(", 1), eof(1)]);
}

#[test]
fn slash_star_slash_does_not_close() {
    let out = scan("/*/ (");
    assert_eq!(out.tokens, vec![eof(1)]);
    assert!(out.errors.is_empty());
}

#[test]
fn open_block_comment_runs_to_the_end() {
    let out = scan("( /* never\nclosed *");
    assert_eq!(out.tokens, vec![symbol(TokenType::LeftParen, "(", 1), eof(2)]);
    assert!(out.errors.is_empty());
}

#[test]
fn open_string_gives_no_token_and_no_error() {
    let out = scan("( \"never\nclosed");
    assert_eq!(out.tokens, vec![symbol(TokenType::LeftParen, "(", 1), eof(2)]);
    assert!(out.errors.is_empty());
}

#[test]
fn string_keeps_backslashes_and_newlines() {
    let out = scan("\"a\\n\nb\" (");
    assert_eq!(
        out.tokens,
        vec![
            literal(TokenType::String, "a\\n\nb", 1),
            symbol(TokenType::LeftParen, "(", 2),
            eof(2),
        ]
    );
    assert!(out.errors.is_empty());
}

#[test]
fn empty_string() {
    let out = scan("\"\"");
    assert_eq!(out.tokens, vec![literal(TokenType::String, "", 1), eof(1)]);
}

#[test]
fn string_may_hold_any_character() {
    let out = scan("\"h\u{e9}llo // /* @ \u{1F600}\"");
    assert_eq!(
        out.tokens,
        vec![literal(TokenType::String, "h\u{e9}llo // /* @ \u{1F600}", 1), eof(1)]
    );
    assert!(out.errors.is_empty());
}

#[test]
fn white_space_gives_nothing() {
    let out = scan(" \t\r \n \t");
    assert_eq!(out.tokens, vec![eof(2)]);
    assert!(out.errors.is_empty());
}

#[test]
fn character_that_ends_a_word_is_taken_with_it() {
    let out = scan("a+b");
    assert_eq!(
        out.tokens,
        vec![literal(TokenType::Identifier, "a", 1), literal(TokenType::Identifier, "b", 1), eof(1)]
    );
    assert!(out.errors.is_empty());
}

#[test]
fn character_that_ends_a_number_is_taken_with_it() {
    let out = scan("12;3");
    assert_eq!(
        out.tokens,
        vec![literal(TokenType::Number, "12", 1), literal(TokenType::Number, "3", 1), eof(1)]
    );
    assert!(out.errors.is_empty());
    let out = scan("1a");
    assert_eq!(out.tokens, vec![literal(TokenType::Number, "1", 1), eof(1)]);
}

#[test]
fn newline_that_ends_a_word_counts() {
    let out = scan("a\n(\n12\n)");
    assert_eq!(
        out.tokens,
        vec![
            literal(TokenType::Identifier, "a", 1),
            symbol(TokenType::LeftParen, "(", 2),
            literal(TokenType::Number, "12", 3),
            symbol(TokenType::RightParen, ")", 4),
            eof(4),
        ]
    );
}

#[test]
fn words_between_spaces() {
    let out = scan("var x = 10 ;");
    assert_eq!(
        out.tokens,
        vec![
            literal(TokenType::Var, "var", 1),
            literal(TokenType::Identifier, "x", 1),
            symbol(TokenType::Equal, "=", 1),
            literal(TokenType::Number, "10", 1),
            symbol(TokenType::Semicolon, ";", 1),
            eof(1),
        ]
    );
    assert!(out.errors.is_empty());
}

#[test]
fn unexpected_characters_are_recorded_and_passed_over() {
    let out = scan("(@)\n#");
    assert_eq!(
        out.tokens,
        vec![
            symbol(TokenType::LeftParen, "(", 1),
            symbol(TokenType::RightParen, ")", 1),
            eof(2),
        ]
    );
    assert_eq!(
        out.errors,
        vec![
            LexError { kind: LexErrorKind::UnexpectedChar('@'), line: 1 },
            LexError { kind: LexErrorKind::UnexpectedChar('#'), line: 2 },
        ]
    );
}

#[test]
fn underscore_and_letters_beyond_ascii_start_nothing() {
    let out = scan("_\u{e9}");
    assert_eq!(out.tokens, vec![eof(1)]);
    assert_eq!(
        out.errors,
        vec![
            LexError { kind: LexErrorKind::UnexpectedChar('_'), line: 1 },
            LexError { kind: LexErrorKind::UnexpectedChar('\u{e9}'), line: 1 },
        ]
    );
    let out = scan("a\u{e9}b");
    assert_eq!(
        out.tokens,
        vec![literal(TokenType::Identifier, "a", 1), literal(TokenType::Identifier, "b", 1), eof(1)]
    );
    assert!(out.errors.is_empty());
}

#[test]
fn nul_in_the_text_is_unexpected() {
    let out = scan("!\0=");
    assert_eq!(
        out.tokens,
        vec![symbol(TokenType::Bang, "!", 1), symbol(TokenType::Equal, "=", 1), eof(1)]
    );
    assert_eq!(out.errors, vec![LexError { kind: LexErrorKind::UnexpectedChar('\0'), line: 1 }]);
}

#[test]
fn errors_do_not_stop_the_scan() {
    let out = scan("1.2.3 @ while");
    assert_eq!(
        out.tokens,
        vec![literal(TokenType::Number, "1.23", 1), literal(TokenType::While, "while", 1), eof(1)]
    );
    assert_eq!(
        out.errors,
        vec![
            LexError { kind: LexErrorKind::MalformedNumber, line: 1 },
            LexError { kind: LexErrorKind::UnexpectedChar('@'), line: 1 },
        ]
    );
}

#[test]
fn long_source() {
    let text = "x = 1 ;\n".repeat(50_000);
    let out = scan(&text);
    assert!(out.errors.is_empty());
    assert_eq!(out.tokens.len(), 200_001);
    assert_eq!(out.tokens[0], literal(TokenType::Identifier, "x", 1));
    assert_eq!(out.tokens[199_996], literal(TokenType::Identifier, "x", 50_000));
    assert_eq!(out.tokens[199_999], symbol(TokenType::Semicolon, ";", 50_000));
    assert_eq!(out.tokens[200_000], eof(50_001));
    let word = "a".repeat(100_000);
    let out = scan(&word);
    assert_eq!(out.tokens, vec![literal(TokenType::Identifier, &word, 1), eof(1)]);
}
