//! The lexical grammar, as a model on sequences of characters.
//!
//! [`scan_spec`] says which tokens and errors a source text gives. It reads
//! the text from left to right, one [`Lexeme`] at a time: [`lexeme_at`] says
//! what stands at the head of the text that is left, how many characters it
//! takes, and which token and errors come of it.

use vstd::prelude::*;
use crate::error::LexErrorView;
use crate::token::{TokenType, TokenView};

verus! {

/// Sets of characters that the grammar tells apart.
#[derive(Debug, Clone, Copy, PartialEq, Eq, Structural)]
pub enum CharClass {
    /// Space, tab, carriage return and newline.
    Blank,
    /// `0` to `9`.
    Digit,
    /// `a` to `z` and `A` to `Z`.
    Alpha,
    /// A digit or a letter.
    Alnum,
    /// A digit or a decimal point: what a numeral is made of.
    NumberPart,
    /// Anything but a newline: what a line comment is made of.
    NotNewline,
    /// Anything but a double quote: what a string is made of.
    NotQuote,
}

/// Whether `c` is one of the digits `0` to `9`.
pub open spec fn is_digit(c: char) -> bool {
    '0' <= c && c <= '9'
}

/// Whether `c` is one of the letters `a` to `z` and `A` to `Z`.
pub open spec fn is_alpha(c: char) -> bool {
    ('a' <= c && c <= 'z') || ('A' <= c && c <= 'Z')
}

impl CharClass {
    /// Whether `c` belongs to the class.
    pub open spec fn has(self, c: char) -> bool {
        match self {
            CharClass::Blank => c == ' ' || c == '\t' || c == '\r' || c == '\n',
            CharClass::Digit => is_digit(c),
            CharClass::Alpha => is_alpha(c),
            CharClass::Alnum => is_alpha(c) || is_digit(c),
            CharClass::NumberPart => is_digit(c) || c == '.',
            CharClass::NotNewline => c != '\n',
            CharClass::NotQuote => c != '"',
        }
    }
}

/// The length of the longest prefix of `s` whose characters all belong to
/// `class`.
pub open spec fn run_len(s: Seq<char>, class: CharClass) -> nat
    decreases s.len(),
{
    if s.len() > 0 && class.has(s[0]) {
        1 + run_len(s.drop_first(), class)
    } else {
        0
    }
}

/// The length of a run of `run` characters at the head of `s` together with
/// the character that ends it, where there is one.
pub open spec fn with_terminator(s: Seq<char>, run: nat) -> nat {
    if run < s.len() {
        run + 1
    } else {
        run
    }
}

/// The number of newlines in `s`.
pub open spec fn count_newlines(s: Seq<char>) -> nat {
    s.filter(|c: char| c == '\n').len()
}

/// The length of what is left of a block comment when `s` follows its
/// opening `/*`: everything up to the end of the first `*/`, or all of `s`
/// where there is none.
pub open spec fn block_comment_len(s: Seq<char>) -> nat
    decreases s.len(),
{
    if s.len() == 0 {
        0
    } else if s.len() >= 2 && s[0] == '*' && s[1] == '/' {
        2
    } else {
        1 + block_comment_len(s.drop_first())
    }
}

/// The literal of the numeral written by `run`, a run of digits and decimal
/// points: `run` without the points that follow its first one.
pub open spec fn numeral_text(run: Seq<char>) -> Seq<char> {
    let first_point = run_len(run, CharClass::Digit) as int;
    if first_point < run.len() {
        run.take(first_point + 1) + run.skip(first_point + 1).filter(|c: char| c != '.')
    } else {
        run
    }
}

/// The number of decimal points in `run` that follow its first one.
pub open spec fn extra_points(run: Seq<char>) -> nat {
    let first_point = run_len(run, CharClass::Digit) as int;
    if first_point < run.len() {
        run.skip(first_point + 1).filter(|c: char| c == '.').len()
    } else {
        0
    }
}

/// The kind of the punctuation mark `c`, if it is one.
pub open spec fn punctuation_kind(c: char) -> Option<TokenType> {
    if c == '(' {
        Some(TokenType::LeftParen)
    } else if c == ')' {
        Some(TokenType::RightParen)
    } else if c == '{' {
        Some(TokenType::LeftBrace)
    } else if c == '}' {
        Some(TokenType::RightBrace)
    } else if c == ',' {
        Some(TokenType::Comma)
    } else if c == '.' {
        Some(TokenType::Dot)
    } else if c == '-' {
        Some(TokenType::Minus)
    } else if c == '+' {
        Some(TokenType::Plus)
    } else if c == ';' {
        Some(TokenType::Semicolon)
    } else if c == '*' {
        Some(TokenType::Star)
    } else {
        None
    }
}

/// The kind of the operator that starts with `c`, alone or, where
/// `with_equal` holds, followed by `=`.
pub open spec fn operator_kind(c: char, with_equal: bool) -> Option<TokenType> {
    if c == '!' {
        Some(if with_equal { TokenType::BangEqual } else { TokenType::Bang })
    } else if c == '=' {
        Some(if with_equal { TokenType::EqualEqual } else { TokenType::Equal })
    } else if c == '<' {
        Some(if with_equal { TokenType::LessEqual } else { TokenType::Less })
    } else if c == '>' {
        Some(if with_equal { TokenType::GreaterEqual } else { TokenType::Greater })
    } else {
        None
    }
}

/// The kind of the reserved word `word`, if it is one.
pub open spec fn keyword_kind(word: Seq<char>) -> Option<TokenType> {
    if word == "and"@ {
        Some(TokenType::And)
    } else if word == "class"@ {
        Some(TokenType::Class)
    } else if word == "else"@ {
        Some(TokenType::Else)
    } else if word == "false"@ {
        Some(TokenType::False)
    } else if word == "for"@ {
        Some(TokenType::For)
    } else if word == "if"@ {
        Some(TokenType::If)
    } else if word == "nil"@ {
        Some(TokenType::Nil)
    } else if word == "or"@ {
        Some(TokenType::Or)
    } else if word == "print"@ {
        Some(TokenType::Print)
    } else if word == "return"@ {
        Some(TokenType::Return)
    } else if word == "super"@ {
        Some(TokenType::Super)
    } else if word == "this"@ {
        Some(TokenType::This)
    } else if word == "true"@ {
        Some(TokenType::True)
    } else if word == "var"@ {
        Some(TokenType::Var)
    } else if word == "while"@ {
        Some(TokenType::While)
    } else {
        None
    }
}

/// The token of a punctuation mark or operator, or the one at the end of
/// input: its lexeme is the text of its kind and it has no literal.
pub open spec fn symbol_token(kind: TokenType, line: nat) -> TokenView {
    TokenView { token_type: kind, lexeme: kind.text(), literal: Seq::empty(), line }
}

/// The token of a string, a number, an identifier or a reserved word: it
/// carries its text as the literal and has no lexeme.
pub open spec fn literal_token(kind: TokenType, literal: Seq<char>, line: nat) -> TokenView {
    TokenView { token_type: kind, lexeme: Seq::empty(), literal, line }
}

/// What stands at the head of the text: the number of characters it takes,
/// and the tokens and errors that come of it.
pub ghost struct Lexeme {
    pub len: nat,
    pub tokens: Seq<TokenView>,
    pub errors: Seq<LexErrorView>,
}

/// Characters that are passed over and give nothing.
pub open spec fn skipped(len: nat) -> Lexeme {
    Lexeme { len, tokens: Seq::empty(), errors: Seq::empty() }
}

/// A lexeme of `len` characters that gives one token.
pub open spec fn one_token(len: nat, token: TokenView) -> Lexeme {
    Lexeme { len, tokens: seq![token], errors: Seq::empty() }
}

/// The lexeme of `s` where `s` starts with `/`: a line comment, which runs
/// up to and including the next newline; a block comment; or the operator.
pub open spec fn slash_lexeme(s: Seq<char>, line: nat) -> Lexeme {
    if s.len() >= 2 && s[1] == '/' {
        let body = s.skip(2);
        skipped(2 + with_terminator(body, run_len(body, CharClass::NotNewline)))
    } else if s.len() >= 2 && s[1] == '*' {
        skipped(2 + block_comment_len(s.skip(2)))
    } else {
        one_token(1, symbol_token(TokenType::Slash, line))
    }
}

/// The lexeme of `s` where `s` starts with `"`: the string that runs up to
/// the next `"`, with the characters between the two as its literal, newlines
/// and backslashes among them. Its token stands on the line of the opening
/// `"`. Where no `"` follows, the rest of the text is passed over.
pub open spec fn string_lexeme(s: Seq<char>, line: nat) -> Lexeme {
    let body = s.skip(1);
    let run = run_len(body, CharClass::NotQuote);
    if run < body.len() {
        one_token(run + 2, literal_token(TokenType::String, body.take(run as int), line))
    } else {
        skipped(run + 1)
    }
}

/// `count` errors for decimal points too many, all on line `line`.
pub open spec fn point_errors(count: nat, line: nat) -> Seq<LexErrorView> {
    Seq::new(count, |i: int| LexErrorView::malformed_number(line))
}

/// The lexeme of `s` where `s` starts with a digit: the numeral made of the
/// longest run of digits and decimal points. Each point after the first
/// gives an error and is left out of the literal. The character that ends
/// the run is taken with it.
pub open spec fn number_lexeme(s: Seq<char>, line: nat) -> Lexeme {
    let run = run_len(s, CharClass::NumberPart);
    let numeral = s.take(run as int);
    Lexeme {
        len: with_terminator(s, run),
        tokens: seq![literal_token(TokenType::Number, numeral_text(numeral), line)],
        errors: point_errors(extra_points(numeral), line),
    }
}

/// The lexeme of `s` where `s` starts with a letter: the longest run of
/// letters and digits, a reserved word if it is one of them and an
/// identifier if not. The character that ends the run is taken with it.
pub open spec fn word_lexeme(s: Seq<char>, line: nat) -> Lexeme {
    let run = run_len(s, CharClass::Alnum);
    let word = s.take(run as int);
    let kind = match keyword_kind(word) {
        Some(kind) => kind,
        None => TokenType::Identifier,
    };
    one_token(with_terminator(s, run), literal_token(kind, word, line))
}

/// The lexeme at the head of the non-empty text `s`, which starts on line
/// `line`.
pub open spec fn lexeme_at(s: Seq<char>, line: nat) -> Lexeme
    recommends
        s.len() > 0,
{
    let c = s[0];
    let with_equal = s.len() >= 2 && s[1] == '=';
    if CharClass::Blank.has(c) {
        skipped(1)
    } else if punctuation_kind(c) is Some {
        one_token(1, symbol_token(punctuation_kind(c)->0, line))
    } else if operator_kind(c, with_equal) is Some {
        one_token(if with_equal { 2 } else { 1 }, symbol_token(operator_kind(c, with_equal)->0, line))
    } else if c == '/' {
        slash_lexeme(s, line)
    } else if c == '"' {
        string_lexeme(s, line)
    } else if is_digit(c) {
        number_lexeme(s, line)
    } else if is_alpha(c) {
        word_lexeme(s, line)
    } else {
        Lexeme {
            len: 1,
            tokens: Seq::empty(),
            errors: seq![LexErrorView::unexpected_char(c, line)],
        }
    }
}

/// The tokens and the errors of a scan.
pub ghost struct ScanView {
    pub tokens: Seq<TokenView>,
    pub errors: Seq<LexErrorView>,
}

/// The tokens and errors of the text `s` that starts on line `line`: those of
/// its lexemes in order, each on the line on which it starts, and at the end
/// the end-of-input token, on the line on which the text ends. The line goes
/// up by one with every newline that is passed, wherever it stands.
pub open spec fn scan_from(s: Seq<char>, line: nat) -> ScanView
    decreases s.len(),
    via scan_from_decreases
{
    if s.len() == 0 {
        ScanView { tokens: seq![symbol_token(TokenType::Eof, line)], errors: Seq::empty() }
    } else {
        let head = lexeme_at(s, line);
        let rest = scan_from(
            s.skip(head.len as int),
            line + count_newlines(s.take(head.len as int)),
        );
        ScanView { tokens: head.tokens + rest.tokens, errors: head.errors + rest.errors }
    }
}

/// The tokens and errors of the source text `s`, whose first line is line 1.
pub open spec fn scan_spec(s: Seq<char>) -> ScanView {
    scan_from(s, 1)
}

/// A run is no longer than the text it is taken from.
pub proof fn lemma_run_len_bound(s: Seq<char>, class: CharClass)
    ensures
        run_len(s, class) <= s.len(),
    decreases s.len(),
{
    if s.len() > 0 && class.has(s[0]) {
        lemma_run_len_bound(s.drop_first(), class);
    }
}

/// A block comment is no longer than the text it is taken from.
pub proof fn lemma_block_comment_len_bound(s: Seq<char>)
    ensures
        block_comment_len(s) <= s.len(),
    decreases s.len(),
{
    if s.len() > 0 && !(s.len() >= 2 && s[0] == '*' && s[1] == '/') {
        lemma_block_comment_len_bound(s.drop_first());
    }
}

/// Every lexeme takes at least one character and none beyond the text.
pub proof fn lemma_lexeme_len(s: Seq<char>, line: nat)
    requires
        s.len() > 0,
    ensures
        1 <= lexeme_at(s, line).len <= s.len(),
{
    lemma_run_len_bound(s, CharClass::NumberPart);
    lemma_run_len_bound(s, CharClass::Alnum);
    lemma_run_len_bound(s.skip(1), CharClass::NotQuote);
    if s.len() >= 2 {
        lemma_run_len_bound(s.skip(2), CharClass::NotNewline);
        lemma_block_comment_len_bound(s.skip(2));
    }
}

#[via_fn]
proof fn scan_from_decreases(s: Seq<char>, line: nat) {
    if s.len() > 0 {
        lemma_lexeme_len(s, line);
    }
}

} // verus!
