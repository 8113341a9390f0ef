//! The scanner: one pass over the source text, from left to right.

use vstd::prelude::*;
use vstd::string::StrSliceExecFns;
use crate::error::{error_views, LexError, LexErrorKind};
use crate::grammar::{
    block_comment_len, count_newlines, extra_points, keyword_kind, lemma_lexeme_len, lexeme_at,
    number_lexeme, numeral_text, operator_kind, point_errors, punctuation_kind, run_len,
    scan_from, scan_spec, slash_lexeme, string_lexeme, symbol_token, word_lexeme, CharClass,
    ScanView,
};
use crate::laws::{is_well_formed, lemma_scan_ends_with_eof, lemma_scanned_tokens_well_formed};
use crate::lemmas::{lemma_count_newlines_split, lemma_numeral_push, lemma_point_errors_push};
use crate::source::{Cursor, Source};
use crate::text::lemma_empty_text;
use crate::token::{token_views, Token, TokenType, TokenView};

verus! {

impl CharClass {
    /// Whether `c` belongs to the class.
    pub fn contains(self, c: char) -> (found: bool)
        ensures
            found == self.has(c),
    {
        match self {
            CharClass::Blank => c == ' ' || c == '\t' || c == '\r' || c == '\n',
            CharClass::Digit => '0' <= c && c <= '9',
            CharClass::Alpha => ('a' <= c && c <= 'z') || ('A' <= c && c <= 'Z'),
            CharClass::Alnum => ('a' <= c && c <= 'z') || ('A' <= c && c <= 'Z') || ('0' <= c
                && c <= '9'),
            CharClass::NumberPart => ('0' <= c && c <= '9') || c == '.',
            CharClass::NotNewline => c != '\n',
            CharClass::NotQuote => c != '"',
        }
    }
}

/// The kind of the punctuation mark `c`, if it is one.
pub fn punctuation(c: char) -> (kind: Option<TokenType>)
    ensures
        kind == punctuation_kind(c),
{
    match c {
        '(' => Some(TokenType::LeftParen),
        ')' => Some(TokenType::RightParen),
        '{' => Some(TokenType::LeftBrace),
        '}' => Some(TokenType::RightBrace),
        ',' => Some(TokenType::Comma),
        '.' => Some(TokenType::Dot),
        '-' => Some(TokenType::Minus),
        '+' => Some(TokenType::Plus),
        ';' => Some(TokenType::Semicolon),
        '*' => Some(TokenType::Star),
        _ => None,
    }
}

/// The kind of the operator that starts with `c`, alone or, where
/// `with_equal` holds, followed by `=`: the longer one wins.
pub fn operator(c: char, with_equal: bool) -> (kind: Option<TokenType>)
    ensures
        kind == operator_kind(c, with_equal),
{
    match c {
        '!' => Some(if with_equal { TokenType::BangEqual } else { TokenType::Bang }),
        '=' => Some(if with_equal { TokenType::EqualEqual } else { TokenType::Equal }),
        '<' => Some(if with_equal { TokenType::LessEqual } else { TokenType::Less }),
        '>' => Some(if with_equal { TokenType::GreaterEqual } else { TokenType::Greater }),
        _ => None,
    }
}

/// Whether `word`, which has `len` characters, is the text `other`.
fn is_text(word: &str, len: usize, other: &str) -> (same: bool)
    requires
        len == word@.len(),
    ensures
        same == (word@ == other@),
{
    if other.unicode_len() != len {
        return false;
    }
    let mut i: usize = 0;
    while i < len
        invariant
            i <= len,
            len == word@.len(),
            len == other@.len(),
            forall|j: int| 0 <= j < i ==> word@[j] == other@[j],
        decreases len - i,
    {
        if word.get_char(i) != other.get_char(i) {
            return false;
        }
        i += 1;
    }
    assert(word@ =~= other@);
    true
}

/// The kind of the reserved word `word`, if it is one.
pub fn keyword(word: &str) -> (kind: Option<TokenType>)
    ensures
        kind == keyword_kind(word@),
{
    let len: usize = word.unicode_len();
    if is_text(word, len, "and") {
        Some(TokenType::And)
    } else if is_text(word, len, "class") {
        Some(TokenType::Class)
    } else if is_text(word, len, "else") {
        Some(TokenType::Else)
    } else if is_text(word, len, "false") {
        Some(TokenType::False)
    } else if is_text(word, len, "for") {
        Some(TokenType::For)
    } else if is_text(word, len, "if") {
        Some(TokenType::If)
    } else if is_text(word, len, "nil") {
        Some(TokenType::Nil)
    } else if is_text(word, len, "or") {
        Some(TokenType::Or)
    } else if is_text(word, len, "print") {
        Some(TokenType::Print)
    } else if is_text(word, len, "return") {
        Some(TokenType::Return)
    } else if is_text(word, len, "super") {
        Some(TokenType::Super)
    } else if is_text(word, len, "this") {
        Some(TokenType::This)
    } else if is_text(word, len, "true") {
        Some(TokenType::True)
    } else if is_text(word, len, "var") {
        Some(TokenType::Var)
    } else if is_text(word, len, "while") {
        Some(TokenType::While)
    } else {
        None
    }
}

/// Steps over the longest run of characters of `class` at the cursor.
fn skip_run(src: &Source, cur: Cursor, class: CharClass) -> (next: Cursor)
    requires
        cur.in_text(src@),
    ensures
        next.in_text(src@),
        next.pos == cur.pos + run_len(cur.rest(src@), class),
{
    let n: usize = src.len();
    let mut at = cur;
    while at.pos < n && class.contains(src.at(at.pos))
        invariant
            n == src@.len(),
            cur.in_text(src@),
            at.in_text(src@),
            cur.pos <= at.pos,
            run_len(cur.rest(src@), class) == (at.pos - cur.pos) + run_len(at.rest(src@), class),
        decreases n - at.pos,
    {
        assert(at.rest(src@).drop_first() =~= src@.skip(at.pos + 1));
        at = at.advance(src);
    }
    at
}

/// Steps over the longest run of characters of `class` at the cursor and
/// hands them back.
fn take_run(src: &Source, cur: Cursor, class: CharClass) -> (res: (Cursor, String))
    requires
        cur.in_text(src@),
    ensures
        res.0.in_text(src@),
        res.0.pos == cur.pos + run_len(cur.rest(src@), class),
        res.1@ == cur.rest(src@).take(run_len(cur.rest(src@), class) as int),
{
    let n: usize = src.len();
    let mut at = cur;
    let mut run = String::new();
    while at.pos < n && class.contains(src.at(at.pos))
        invariant
            n == src@.len(),
            cur.in_text(src@),
            at.in_text(src@),
            cur.pos <= at.pos,
            run_len(cur.rest(src@), class) == (at.pos - cur.pos) + run_len(at.rest(src@), class),
            run@ == cur.rest(src@).take(at.pos - cur.pos),
        decreases n - at.pos,
    {
        assert(at.rest(src@).drop_first() =~= src@.skip(at.pos + 1));
        assert(cur.rest(src@).take(at.pos + 1 - cur.pos) =~= cur.rest(src@).take(
            at.pos - cur.pos,
        ).push(src@[at.pos as int]));
        run.push(src.at(at.pos));
        at = at.advance(src);
    }
    (at, run)
}

/// Steps over what is left of a block comment, the cursor standing after
/// its opening `/*`: up to the end of the first `*/`, or to the end of the
/// text where there is none.
fn skip_block_comment(src: &Source, cur: Cursor) -> (next: Cursor)
    requires
        cur.in_text(src@),
    ensures
        next.in_text(src@),
        next.pos == cur.pos + block_comment_len(cur.rest(src@)),
{
    let n: usize = src.len();
    let mut at = cur;
    while at.pos < n
        invariant
            n == src@.len(),
            cur.in_text(src@),
            at.in_text(src@),
            cur.pos <= at.pos,
            block_comment_len(cur.rest(src@)) == (at.pos - cur.pos) + block_comment_len(
                at.rest(src@),
            ),
        decreases n - at.pos,
    {
        assert(at.rest(src@).drop_first() =~= src@.skip(at.pos + 1));
        if src.at(at.pos) == '*' && src.at(at.pos + 1) == '/' {
            return at.advance(src).advance(src);
        }
        at = at.advance(src);
    }
    at
}

/// The token that a scanner found, as a sequence of one or none.
spec fn found(token: Option<Token>) -> Seq<TokenView> {
    match token {
        Some(token) => seq![token@],
        None => Seq::empty(),
    }
}

/// Reads what starts with the `/` at the cursor: a line comment, a block
/// comment, or the operator alone.
fn scan_slash(src: &Source, cur: Cursor) -> (res: (Cursor, Option<Token>))
    requires
        cur.in_text(src@),
        cur.pos < src@.len(),
    ensures
        res.0.in_text(src@),
        res.0.pos == cur.pos + slash_lexeme(cur.rest(src@), cur.line as nat).len,
        found(res.1) == slash_lexeme(cur.rest(src@), cur.line as nat).tokens,
{
    proof {
        lemma_empty_text();
    }
    let after = cur.advance(src);
    let c = src.at(after.pos);
    if c == '/' {
        assert(cur.rest(src@).skip(2) =~= src@.skip(cur.pos + 2));
        let end = skip_run(src, after.advance(src), CharClass::NotNewline);
        (end.advance_if_any(src), None)
    } else if c == '*' {
        assert(cur.rest(src@).skip(2) =~= src@.skip(cur.pos + 2));
        (skip_block_comment(src, after.advance(src)), None)
    } else {
        (after, Some(Token::new(TokenType::Slash, TokenType::Slash.lexeme(), "", cur.line)))
    }
}

/// Reads the string that starts with the `"` at the cursor. Without a
/// closing `"` the rest of the text is passed over and there is no token.
fn scan_string(src: &Source, cur: Cursor) -> (res: (Cursor, Option<Token>))
    requires
        cur.in_text(src@),
        cur.pos < src@.len(),
    ensures
        res.0.in_text(src@),
        res.0.pos == cur.pos + string_lexeme(cur.rest(src@), cur.line as nat).len,
        found(res.1) == string_lexeme(cur.rest(src@), cur.line as nat).tokens,
{
    proof {
        lemma_empty_text();
        assert(cur.rest(src@).skip(1) =~= src@.skip(cur.pos + 1));
    }
    let (end, body) = take_run(src, cur.advance(src), CharClass::NotQuote);
    if end.pos < src.len() {
        (end.advance(src), Some(Token::new(TokenType::String, "", body.as_str(), cur.line)))
    } else {
        (end, None)
    }
}

/// Reads the numeral at the cursor and the character that ends it. Every
/// decimal point after the first is recorded as an error and left out.
fn scan_number(src: &Source, cur: Cursor, errors: &mut Vec<LexError>) -> (res: (Cursor, Token))
    requires
        cur.in_text(src@),
    ensures
        res.0.in_text(src@),
        res.0.pos == cur.pos + number_lexeme(cur.rest(src@), cur.line as nat).len,
        seq![res.1@] == number_lexeme(cur.rest(src@), cur.line as nat).tokens,
        error_views(final(errors)@) == error_views(old(errors)@) + number_lexeme(
            cur.rest(src@),
            cur.line as nat,
        ).errors,
{
    let n: usize = src.len();
    let mut at = cur;
    let mut literal = String::new();
    let mut floating = false;
    proof {
        assert(cur.rest(src@).take(0) =~= Seq::<char>::empty());
        assert(error_views(errors@) + point_errors(0, cur.line as nat) =~= error_views(errors@));
    }
    while at.pos < n && CharClass::NumberPart.contains(src.at(at.pos))
        invariant
            n == src@.len(),
            cur.in_text(src@),
            at.in_text(src@),
            cur.pos <= at.pos,
            run_len(cur.rest(src@), CharClass::NumberPart) == (at.pos - cur.pos) + run_len(
                at.rest(src@),
                CharClass::NumberPart,
            ),
            literal@ == numeral_text(cur.rest(src@).take(at.pos - cur.pos)),
            floating <==> run_len(cur.rest(src@).take(at.pos - cur.pos), CharClass::Digit) < at.pos
                - cur.pos,
            error_views(errors@) == error_views(old(errors)@) + point_errors(
                extra_points(cur.rest(src@).take(at.pos - cur.pos)),
                cur.line as nat,
            ),
        decreases n - at.pos,
    {
        let c = src.at(at.pos);
        proof {
            let run = cur.rest(src@).take(at.pos - cur.pos);
            assert(at.rest(src@).drop_first() =~= src@.skip(at.pos + 1));
            assert(cur.rest(src@).take(at.pos + 1 - cur.pos) =~= run.push(c));
            lemma_numeral_push(run, c);
            lemma_point_errors_push(extra_points(run), cur.line as nat);
        }
        if c == '.' && floating {
            let ghost before = errors@;
            errors.push(LexError { kind: LexErrorKind::MalformedNumber, line: cur.line });
            assert(error_views(errors@) =~= error_views(before).push(
                (LexError { kind: LexErrorKind::MalformedNumber, line: cur.line })@,
            ));
        } else {
            literal.push(c);
            floating = floating || c == '.';
        }
        at = at.advance(src);
    }
    assert(cur.rest(src@).take(at.pos - cur.pos) == cur.rest(src@).take(
        run_len(cur.rest(src@), CharClass::NumberPart) as int,
    ));
    let token = Token::new(TokenType::Number, "", literal.as_str(), cur.line);
    proof {
        lemma_empty_text();
    }
    (at.advance_if_any(src), token)
}

/// Reads the word at the cursor, a reserved word or an identifier, and the
/// character that ends it.
fn scan_word(src: &Source, cur: Cursor) -> (res: (Cursor, Token))
    requires
        cur.in_text(src@),
    ensures
        res.0.in_text(src@),
        res.0.pos == cur.pos + word_lexeme(cur.rest(src@), cur.line as nat).len,
        seq![res.1@] == word_lexeme(cur.rest(src@), cur.line as nat).tokens,
{
    let (end, word) = take_run(src, cur, CharClass::Alnum);
    let kind = match keyword(word.as_str()) {
        Some(kind) => kind,
        None => TokenType::Identifier,
    };
    let token = Token::new(kind, "", word.as_str(), cur.line);
    proof {
        lemma_empty_text();
    }
    (end.advance_if_any(src), token)
}

/// Reads the lexeme at the cursor and adds the token and the errors that
/// come of it to `tokens` and `errors`.
pub fn scan_lexeme(
    src: &Source,
    cur: Cursor,
    tokens: &mut Vec<Token>,
    errors: &mut Vec<LexError>,
) -> (next: Cursor)
    requires
        cur.in_text(src@),
        cur.pos < src@.len(),
    ensures
        next.in_text(src@),
        next.pos == cur.pos + lexeme_at(cur.rest(src@), cur.line as nat).len,
        token_views(final(tokens)@) == token_views(old(tokens)@) + lexeme_at(
            cur.rest(src@),
            cur.line as nat,
        ).tokens,
        error_views(final(errors)@) == error_views(old(errors)@) + lexeme_at(
            cur.rest(src@),
            cur.line as nat,
        ).errors,
{
    let c = src.at(cur.pos);
    let with_equal = src.at(cur.pos + 1) == '=';
    let ghost tokens0 = tokens@;
    let ghost errors0 = errors@;
    proof {
        assert(token_views(tokens0) + Seq::<TokenView>::empty() =~= token_views(tokens0));
        assert(error_views(errors0) + Seq::empty() =~= error_views(errors0));
    }
    let (next, token) = if CharClass::Blank.contains(c) {
        (cur.advance(src), None)
    } else if let Some(kind) = punctuation(c) {
        let token = Token::new(kind, kind.lexeme(), "", cur.line);
        (cur.advance(src), Some(token))
    } else if let Some(kind) = operator(c, with_equal) {
        let token = Token::new(kind, kind.lexeme(), "", cur.line);
        (if with_equal { cur.advance(src).advance(src) } else { cur.advance(src) }, Some(token))
    } else if c == '/' {
        scan_slash(src, cur)
    } else if c == '"' {
        scan_string(src, cur)
    } else if CharClass::Digit.contains(c) {
        let (next, token) = scan_number(src, cur, errors);
        (next, Some(token))
    } else if CharClass::Alpha.contains(c) {
        let (next, token) = scan_word(src, cur);
        (next, Some(token))
    } else {
        errors.push(LexError { kind: LexErrorKind::UnexpectedChar(c), line: cur.line });
        assert(error_views(errors@) =~= error_views(errors0) + seq![
            (LexError { kind: LexErrorKind::UnexpectedChar(c), line: cur.line })@,
        ]);
        (cur.advance(src), None)
    };
    proof {
        lemma_empty_text();
    }
    if let Some(token) = token {
        tokens.push(token);
        assert(token_views(tokens@) =~= token_views(tokens0) + seq![token@]);
    }
    next
}

/// What a scan gives: the tokens of the source text in order, the
/// end-of-input token last, and the lexical errors in the order in which
/// they were met.
#[derive(Debug, PartialEq, Eq)]
pub struct Scan {
    pub tokens: Vec<Token>,
    pub errors: Vec<LexError>,
}

impl View for Scan {
    type V = ScanView;

    open spec fn view(&self) -> ScanView {
        ScanView { tokens: token_views(self.tokens@), errors: error_views(self.errors@) }
    }
}

/// Scans `source` in one pass from left to right. Errors do not stop the
/// scan: the tokens always run to the end of the text.
///
/// The tokens and errors are those that the grammar gives for the text. In
/// particular the tokens end with the end-of-input token, on the line that
/// the text ends on, no token before it is one, and every token is as the
/// grammar makes the tokens of its kind.
pub fn scan(source: &str) -> (scanned: Scan)
    ensures
        scanned@ == scan_spec(source@),
        scanned.tokens@.len() >= 1,
        scanned.tokens@.last()@ == symbol_token(TokenType::Eof, 1 + count_newlines(source@)),
        forall|i: int|
            0 <= i < scanned.tokens@.len() - 1 ==> (#[trigger] scanned.tokens@[i]).token_type
                != TokenType::Eof,
        forall|i: int|
            0 <= i < scanned.tokens@.len() ==> is_well_formed((#[trigger] scanned.tokens@[i])@),
{
    let src = Source::new(source);
    let n: usize = src.len();
    let mut tokens: Vec<Token> = Vec::new();
    let mut errors: Vec<LexError> = Vec::new();
    let mut cur = Cursor::start(&src);
    proof {
        assert(cur.rest(src@) =~= src@);
        assert(token_views(tokens@) + scan_spec(src@).tokens =~= scan_spec(src@).tokens);
        assert(error_views(errors@) + scan_spec(src@).errors =~= scan_spec(src@).errors);
    }
    while cur.pos < n
        invariant
            n == src@.len(),
            cur.in_text(src@),
            scan_spec(src@).tokens == token_views(tokens@) + scan_from(
                cur.rest(src@),
                cur.line as nat,
            ).tokens,
            scan_spec(src@).errors == error_views(errors@) + scan_from(
                cur.rest(src@),
                cur.line as nat,
            ).errors,
        decreases n - cur.pos,
    {
        let ghost tokens0 = tokens@;
        let ghost errors0 = errors@;
        let next = scan_lexeme(&src, cur, &mut tokens, &mut errors);
        proof {
            let rest = cur.rest(src@);
            let head = lexeme_at(rest, cur.line as nat);
            let tail = scan_from(next.rest(src@), next.line as nat);
            lemma_lexeme_len(rest, cur.line as nat);
            lemma_count_newlines_split(src@, cur.pos as int, head.len as int);
            assert(rest.skip(head.len as int) =~= next.rest(src@));
            assert(token_views(tokens0) + (head.tokens + tail.tokens) =~= token_views(tokens0)
                + head.tokens + tail.tokens);
            assert(error_views(errors0) + (head.errors + tail.errors) =~= error_views(errors0)
                + head.errors + tail.errors);
        }
        cur = next;
    }
    let ghost tokens0 = tokens@;
    tokens.push(Token::new(TokenType::Eof, TokenType::Eof.lexeme(), "", cur.line));
    proof {
        lemma_empty_text();
        assert(token_views(tokens@) =~= token_views(tokens0) + scan_from(
            cur.rest(src@),
            cur.line as nat,
        ).tokens);
        assert(error_views(errors@) + Seq::empty() =~= error_views(errors@));
        lemma_scan_ends_with_eof(source@, 1);
        lemma_scanned_tokens_well_formed(source@, 1);
        assert forall|i: int| 0 <= i < tokens@.len() - 1 implies (#[trigger] tokens@[i]).token_type
            != TokenType::Eof by {
            assert(token_views(tokens@)[i] == tokens@[i]@);
        }
        assert forall|i: int| 0 <= i < tokens@.len() implies is_well_formed(
            (#[trigger] tokens@[i])@,
        ) by {
            assert(token_views(tokens@)[i] == tokens@[i]@);
        }
        assert(token_views(tokens@).last() == tokens@.last()@);
    }
    Scan { tokens, errors }
}

} // verus!
