//! What holds of every scan.

use vstd::prelude::*;
use crate::error::LexErrorView;
use crate::grammar::{
    block_comment_len, count_newlines, extra_points, is_alpha, is_digit, keyword_kind,
    lemma_lexeme_len, lexeme_at, literal_token, numeral_text, operator_kind, punctuation_kind,
    run_len, scan_from, scan_spec, symbol_token, CharClass,
};
use crate::lemmas::{
    lemma_count_newlines_add, lemma_count_newlines_bound, lemma_count_newlines_step,
    lemma_filter_all, lemma_filter_none, lemma_keyword_letters, lemma_no_newlines,
    lemma_run_len_is, lemma_symbol_text, writes_symbol,
};
use crate::token::{TokenType, TokenView};

verus! {

/// A run is made of characters of its class, and it ends where the text ends
/// or a character outside the class stands: it is the longest such prefix.
pub proof fn lemma_run_is_longest(s: Seq<char>, class: CharClass)
    ensures
        run_len(s, class) <= s.len(),
        forall|i: int| 0 <= i < run_len(s, class) ==> class.has(#[trigger] s[i]),
        run_len(s, class) < s.len() ==> !class.has(s[run_len(s, class) as int]),
    decreases s.len(),
{
    if s.len() > 0 && class.has(s[0]) {
        let tail = s.drop_first();
        lemma_run_is_longest(tail, class);
        assert forall|i: int| 0 <= i < run_len(s, class) implies class.has(#[trigger] s[i]) by {
            if i > 0 {
                assert(s[i] == tail[i - 1]);
            }
        }
    }
}

/// Whether a `*/` stands at index `i` of `s`.
pub open spec fn closes_at(s: Seq<char>, i: int) -> bool {
    0 <= i && i + 1 < s.len() && s[i] == '*' && s[i + 1] == '/'
}

/// What is left of a block comment ends with the first `*/`, or is the whole
/// text where no `*/` stands in it.
pub proof fn lemma_block_comment_ends_at_first_close(s: Seq<char>)
    ensures
        block_comment_len(s) <= s.len(),
        forall|i: int| 0 <= i && i + 2 < block_comment_len(s) ==> !closes_at(s, i),
        closes_at(s, block_comment_len(s) - 2) || (block_comment_len(s) == s.len() && forall|
            i: int,
        | !closes_at(s, i)),
    decreases s.len(),
{
    if s.len() > 0 && !closes_at(s, 0) {
        let tail = s.drop_first();
        lemma_block_comment_ends_at_first_close(tail);
        assert forall|i: int| 0 <= i && i + 2 < block_comment_len(s) implies !closes_at(s, i) by {
            if i > 0 {
                assert(closes_at(s, i) == closes_at(tail, i - 1));
            }
        }
        if closes_at(tail, block_comment_len(tail) - 2) {
            assert(closes_at(s, block_comment_len(s) - 2));
        } else {
            assert forall|i: int| !closes_at(s, i) by {
                if i > 0 {
                    assert(closes_at(s, i) == closes_at(tail, i - 1));
                }
            }
        }
    }
}

/// What is left of a block comment is `n` characters long where a `*/`
/// ends there and none ends before.
pub proof fn lemma_block_comment_len_is(s: Seq<char>, n: int)
    requires
        closes_at(s, n - 2),
        forall|i: int| 0 <= i < n - 2 ==> !closes_at(s, i),
    ensures
        block_comment_len(s) == n,
    decreases n,
{
    if n > 2 {
        let tail = s.drop_first();
        assert(!closes_at(s, 0));
        assert(closes_at(tail, n - 3) == closes_at(s, n - 2));
        assert forall|i: int| 0 <= i < n - 3 implies !closes_at(tail, i) by {
            assert(closes_at(tail, i) == closes_at(s, i + 1));
        }
        lemma_block_comment_len_is(tail, n - 1);
    }
}

/// The longer operator wins: where `=` follows `!`, `=`, `<` or `>`, the two
/// are one token, and the scan goes on after them.
pub proof fn lemma_longest_operator_wins(s: Seq<char>, line: nat)
    requires
        s.len() >= 2,
        operator_kind(s[0], true) is Some,
        s[1] == '=',
    ensures
        scan_from(s, line).tokens == seq![symbol_token(operator_kind(s[0], true)->0, line)]
            + scan_from(s.skip(2), line).tokens,
        scan_from(s, line).errors == scan_from(s.skip(2), line).errors,
{
    lemma_no_newlines(s.take(2));
    assert(scan_from(s, line).errors =~= scan_from(s.skip(2), line).errors);
}

/// A newline gives nothing, and what follows it stands one line further
/// down.
pub proof fn lemma_newline_moves_down(rest: Seq<char>, line: nat)
    ensures
        scan_from(seq!['\n'] + rest, line) == scan_from(rest, line + 1),
{
    let s = seq!['\n'] + rest;
    lemma_count_newlines_step(s, 0);
    lemma_count_newlines_bound(s.take(0));
    assert(s.skip(1) =~= rest);
    assert(scan_from(s, line).tokens =~= scan_from(rest, line + 1).tokens);
    assert(scan_from(s, line).errors =~= scan_from(rest, line + 1).errors);
}

/// A line comment gives nothing, whatever it holds, and what follows its
/// newline stands on the next line.
pub proof fn lemma_line_comment_is_skipped(body: Seq<char>, rest: Seq<char>, line: nat)
    requires
        forall|i: int| 0 <= i < body.len() ==> #[trigger] body[i] != '\n',
    ensures
        scan_from(seq!['/', '/'] + body + seq!['\n'] + rest, line) == scan_from(rest, line + 1),
{
    let s = seq!['/', '/'] + body + seq!['\n'] + rest;
    let after = s.skip(2);
    assert(after =~= body + seq!['\n'] + rest);
    assert forall|i: int| 0 <= i < body.len() implies CharClass::NotNewline.has(
        #[trigger] after[i],
    ) by {
        assert(after[i] == body[i]);
    }
    lemma_run_len_is(after, CharClass::NotNewline, body.len());
    let len = body.len() + 3;
    assert(lexeme_at(s, line).len == len);
    assert(s.skip(len as int) =~= rest);
    assert(s.take(len as int) =~= (seq!['/', '/'] + body) + seq!['\n']);
    lemma_count_newlines_add(seq!['/', '/'] + body, seq!['\n']);
    lemma_no_newlines(seq!['/', '/'] + body);
    lemma_count_newlines_step(seq!['\n'], 0);
    lemma_count_newlines_bound(seq!['\n'].take(0));
    assert(seq!['\n'].take(1) =~= seq!['\n']);
    assert(scan_from(s, line).tokens =~= scan_from(rest, line + 1).tokens);
    assert(scan_from(s, line).errors =~= scan_from(rest, line + 1).errors);
}

/// A block comment gives nothing, whatever it holds, and what follows it
/// stands as many lines further down as the comment has newlines.
pub proof fn lemma_block_comment_is_skipped(body: Seq<char>, rest: Seq<char>, line: nat)
    requires
        forall|i: int| !closes_at(body, i),
    ensures
        scan_from(seq!['/', '*'] + body + seq!['*', '/'] + rest, line) == scan_from(
            rest,
            line + count_newlines(body),
        ),
{
    let s = seq!['/', '*'] + body + seq!['*', '/'] + rest;
    let after = s.skip(2);
    assert(after =~= body + seq!['*', '/'] + rest);
    assert forall|i: int| 0 <= i < body.len() implies !closes_at(after, i) by {
        assert(!closes_at(body, i));
        assert(after[i] == body[i]);
        if i + 1 < body.len() {
            assert(after[i + 1] == body[i + 1]);
        } else {
            assert(after[i + 1] == '*');
        }
    }
    lemma_block_comment_len_is(after, body.len() as int + 2);
    let len = body.len() + 4;
    assert(lexeme_at(s, line).len == len);
    assert(s.skip(len as int) =~= rest);
    assert(s.take(len as int) =~= (seq!['/', '*'] + body) + seq!['*', '/']);
    lemma_count_newlines_add(seq!['/', '*'] + body, seq!['*', '/']);
    lemma_count_newlines_add(seq!['/', '*'], body);
    lemma_no_newlines(seq!['/', '*']);
    lemma_no_newlines(seq!['*', '/']);
    assert(scan_from(s, line).tokens =~= scan_from(rest, line + count_newlines(body)).tokens);
    assert(scan_from(s, line).errors =~= scan_from(rest, line + count_newlines(body)).errors);
}

/// A string between two `"` gives one token that carries what stands
/// between them, whatever that is, on the line of the first `"`.
pub proof fn lemma_string_keeps_its_text(body: Seq<char>, rest: Seq<char>, line: nat)
    requires
        forall|i: int| 0 <= i < body.len() ==> #[trigger] body[i] != '"',
    ensures
        scan_from(seq!['"'] + body + seq!['"'] + rest, line).tokens == seq![
            literal_token(TokenType::String, body, line),
        ] + scan_from(rest, line + count_newlines(body)).tokens,
        scan_from(seq!['"'] + body + seq!['"'] + rest, line).errors == scan_from(
            rest,
            line + count_newlines(body),
        ).errors,
{
    let s = seq!['"'] + body + seq!['"'] + rest;
    let after = s.skip(1);
    assert(after =~= body + seq!['"'] + rest);
    assert forall|i: int| 0 <= i < body.len() implies CharClass::NotQuote.has(
        #[trigger] after[i],
    ) by {
        assert(after[i] == body[i]);
    }
    lemma_run_len_is(after, CharClass::NotQuote, body.len());
    assert(after.take(body.len() as int) =~= body);
    let len = body.len() + 2;
    assert(lexeme_at(s, line).len == len);
    assert(s.skip(len as int) =~= rest);
    assert(s.take(len as int) =~= (seq!['"'] + body) + seq!['"']);
    lemma_count_newlines_add(seq!['"'] + body, seq!['"']);
    lemma_count_newlines_add(seq!['"'], body);
    lemma_no_newlines(seq!['"']);
    assert(scan_from(s, line).tokens =~= seq![literal_token(TokenType::String, body, line)]
        + scan_from(rest, line + count_newlines(body)).tokens);
    assert(scan_from(s, line).errors =~= scan_from(rest, line + count_newlines(body)).errors);
}

/// No lexeme gives the end-of-input token.
pub proof fn lemma_lexeme_is_not_eof(s: Seq<char>, line: nat)
    requires
        s.len() > 0,
    ensures
        forall|i: int|
            0 <= i < lexeme_at(s, line).tokens.len() ==> (#[trigger] lexeme_at(
                s,
                line,
            ).tokens[i]).token_type != TokenType::Eof,
{
}

/// The tokens of a scan end with the end-of-input token, which stands on the
/// line reached when every newline of the text has been counted, and no
/// token before it is one.
pub proof fn lemma_scan_ends_with_eof(s: Seq<char>, line: nat)
    ensures
        scan_from(s, line).tokens.len() >= 1,
        scan_from(s, line).tokens.last() == symbol_token(TokenType::Eof, line + count_newlines(s)),
        forall|i: int|
            0 <= i < scan_from(s, line).tokens.len() - 1 ==> (#[trigger] scan_from(
                s,
                line,
            ).tokens[i]).token_type != TokenType::Eof,
    decreases s.len(),
{
    if s.len() == 0 {
        lemma_count_newlines_bound(s);
    } else {
        let head = lexeme_at(s, line);
        let len = head.len as int;
        let rest = scan_from(s.skip(len), line + count_newlines(s.take(len)));
        lemma_lexeme_len(s, line);
        lemma_lexeme_is_not_eof(s, line);
        lemma_scan_ends_with_eof(s.skip(len), line + count_newlines(s.take(len)));
        assert(s =~= s.take(len) + s.skip(len));
        lemma_count_newlines_add(s.take(len), s.skip(len));
        let tokens = scan_from(s, line).tokens;
        assert(tokens == head.tokens + rest.tokens);
        assert forall|i: int| 0 <= i < tokens.len() - 1 implies (#[trigger] tokens[i]).token_type
            != TokenType::Eof by {
            if i < head.tokens.len() {
                assert(tokens[i] == head.tokens[i]);
            } else {
                assert(tokens[i] == rest.tokens[i - head.tokens.len()]);
            }
        }
    }
}

/// Lines never go down: every token and every error of a scan stands on a
/// line from the first of the text to its last, and none stands on an
/// earlier line than one before it.
pub proof fn lemma_lines_ascend(s: Seq<char>, line: nat)
    ensures
        forall|i: int|
            0 <= i < scan_from(s, line).tokens.len() ==> line <= (#[trigger] scan_from(
                s,
                line,
            ).tokens[i]).line <= line + count_newlines(s),
        forall|i: int, j: int|
            0 <= i <= j < scan_from(s, line).tokens.len() ==> (#[trigger] scan_from(
                s,
                line,
            ).tokens[i]).line <= (#[trigger] scan_from(s, line).tokens[j]).line,
        forall|i: int|
            0 <= i < scan_from(s, line).errors.len() ==> line <= (#[trigger] scan_from(
                s,
                line,
            ).errors[i]).line <= line + count_newlines(s),
        forall|i: int, j: int|
            0 <= i <= j < scan_from(s, line).errors.len() ==> (#[trigger] scan_from(
                s,
                line,
            ).errors[i]).line <= (#[trigger] scan_from(s, line).errors[j]).line,
    decreases s.len(),
{
    if s.len() > 0 {
        let head = lexeme_at(s, line);
        let len = head.len as int;
        let next = line + count_newlines(s.take(len));
        let rest = scan_from(s.skip(len), next);
        lemma_lexeme_len(s, line);
        lemma_lines_ascend(s.skip(len), next);
        assert(s =~= s.take(len) + s.skip(len));
        lemma_count_newlines_add(s.take(len), s.skip(len));
        let tokens = scan_from(s, line).tokens;
        let errors = scan_from(s, line).errors;
        assert(tokens == head.tokens + rest.tokens);
        assert(errors == head.errors + rest.errors);
        assert forall|i: int| 0 <= i < head.tokens.len() implies (#[trigger] head.tokens[i]).line
            == line by {}
        assert forall|i: int| 0 <= i < head.errors.len() implies (#[trigger] head.errors[i]).line
            == line by {}
        assert forall|i: int| 0 <= i < tokens.len() implies line <= (#[trigger] tokens[i]).line
            <= line + count_newlines(s) && (i >= head.tokens.len() ==> tokens[i]
            == rest.tokens[i - head.tokens.len()]) && (i < head.tokens.len() ==> tokens[i].line
            == line) by {
            if i < head.tokens.len() {
                assert(tokens[i] == head.tokens[i]);
            } else {
                assert(tokens[i] == rest.tokens[i - head.tokens.len()]);
            }
        }
        assert forall|i: int| 0 <= i < errors.len() implies line <= (#[trigger] errors[i]).line
            <= line + count_newlines(s) && (i >= head.errors.len() ==> errors[i]
            == rest.errors[i - head.errors.len()]) && (i < head.errors.len() ==> errors[i].line
            == line) by {
            if i < head.errors.len() {
                assert(errors[i] == head.errors[i]);
            } else {
                assert(errors[i] == rest.errors[i - head.errors.len()]);
            }
        }
        assert forall|i: int, j: int| 0 <= i <= j < tokens.len() implies (#[trigger] tokens[i]).line
            <= (#[trigger] tokens[j]).line by {
            if i >= head.tokens.len() {
                assert(tokens[i] == rest.tokens[i - head.tokens.len()]);
                assert(tokens[j] == rest.tokens[j - head.tokens.len()]);
            }
        }
        assert forall|i: int, j: int| 0 <= i <= j < errors.len() implies (#[trigger] errors[i]).line
            <= (#[trigger] errors[j]).line by {
            if i >= head.errors.len() {
                assert(errors[i] == rest.errors[i - head.errors.len()]);
                assert(errors[j] == rest.errors[j - head.errors.len()]);
            }
        }
    } else {
        lemma_count_newlines_bound(s);
    }
}

/// Whether `c` starts no token and is no white space.
pub open spec fn starts_nothing(c: char) -> bool {
    &&& !CharClass::Blank.has(c)
    &&& punctuation_kind(c) is None
    &&& operator_kind(c, false) is None
    &&& c != '/'
    &&& c != '"'
    &&& !is_digit(c)
    &&& !is_alpha(c)
}

/// One error for each character of `s`, in order, all on line `line`.
pub open spec fn all_unexpected(s: Seq<char>, line: nat) -> Seq<LexErrorView> {
    Seq::new(s.len(), |i: int| LexErrorView::unexpected_char(s[i], line))
}

/// A text of characters that start nothing gives one error for each of them,
/// in order, and no token but the one at the end of input.
pub proof fn lemma_scan_unexpected(s: Seq<char>, line: nat)
    requires
        forall|i: int| 0 <= i < s.len() ==> starts_nothing(#[trigger] s[i]),
    ensures
        scan_from(s, line).tokens == seq![symbol_token(TokenType::Eof, line)],
        scan_from(s, line).errors == all_unexpected(s, line),
    decreases s.len(),
{
    if s.len() == 0 {
        assert(scan_from(s, line).errors =~= all_unexpected(s, line));
    } else {
        assert(starts_nothing(s[0]));
        lemma_count_newlines_step(s, 0);
        lemma_count_newlines_bound(s.take(0));
        let tail = s.skip(1);
        assert forall|i: int| 0 <= i < tail.len() implies starts_nothing(#[trigger] tail[i]) by {
            assert(tail[i] == s[i + 1]);
        }
        lemma_scan_unexpected(tail, line);
        assert(scan_from(s, line).tokens =~= seq![symbol_token(TokenType::Eof, line)]);
        assert(scan_from(s, line).errors =~= all_unexpected(s, line));
    }
}

/// Whether `word` is made of letters and digits and starts with a letter.
pub open spec fn is_word(word: Seq<char>) -> bool {
    &&& word.len() >= 1
    &&& is_alpha(word[0])
    &&& forall|i: int| 0 <= i < word.len() ==> CharClass::Alnum.has(#[trigger] word[i])
}

/// Whether `text` is a numeral with at most one decimal point: it starts
/// with a digit, is made of digits and points, and after its first point
/// only digits follow.
pub open spec fn is_numeral(text: Seq<char>) -> bool {
    &&& text.len() >= 1
    &&& is_digit(text[0])
    &&& forall|i: int| 0 <= i < text.len() ==> CharClass::NumberPart.has(#[trigger] text[i])
    &&& forall|i: int|
        run_len(text, CharClass::Digit) < i < text.len() ==> is_digit(#[trigger] text[i])
}

/// Whether `token` is as the scanner makes the tokens of its kind. A
/// punctuation mark, an operator and the end of input have the text of their
/// kind as lexeme and no literal. The others have no lexeme, and as literal a
/// reserved word has its word, an identifier a word that is not reserved, a
/// number a numeral with at most one point, and a string a text without `"`.
pub open spec fn is_well_formed(token: TokenView) -> bool {
    let kind = token.token_type;
    if kind.is_symbol() || kind == TokenType::Eof {
        token.lexeme == kind.text() && token.literal == Seq::<char>::empty()
    } else {
        &&& token.lexeme == Seq::<char>::empty()
        &&& kind.is_keyword() ==> keyword_kind(token.literal) == Some(kind)
        &&& kind == TokenType::Identifier ==> is_word(token.literal) && keyword_kind(
            token.literal,
        ) is None
        &&& kind == TokenType::Number ==> is_numeral(token.literal)
        &&& kind == TokenType::String ==> forall|i: int|
            0 <= i < token.literal.len() ==> #[trigger] token.literal[i] != '"'
    }
}

/// The literal of a numeral is a numeral with at most one point.
pub proof fn lemma_numeral_text_is_numeral(run: Seq<char>)
    requires
        run.len() >= 1,
        is_digit(run[0]),
        forall|i: int| 0 <= i < run.len() ==> CharClass::NumberPart.has(#[trigger] run[i]),
    ensures
        is_numeral(numeral_text(run)),
{
    let first = run_len(run, CharClass::Digit) as int;
    let text = numeral_text(run);
    lemma_run_is_longest(run, CharClass::Digit);
    if first < run.len() {
        let after = run.skip(first + 1);
        let kept = after.filter(|c: char| c != '.');
        assert(text == run.take(first + 1) + kept);
        assert forall|j: int| 0 <= j < kept.len() implies is_digit(#[trigger] kept[j]) by {
            after.lemma_filter_pred(|c: char| c != '.', j);
            assert(kept.contains(kept[j]));
            after.lemma_filter_contains_rev(|c: char| c != '.', kept[j]);
            let k = choose|k: int| 0 <= k < after.len() && after[k] == kept[j];
            assert(after[k] == run[first + 1 + k]);
        }
        assert forall|i: int| 0 <= i < first implies CharClass::Digit.has(#[trigger] text[i]) by {
            assert(text[i] == run[i]);
        }
        assert(text[first] == run[first]);
        lemma_run_len_is(text, CharClass::Digit, first as nat);
        assert forall|i: int| 0 <= i < text.len() implies CharClass::NumberPart.has(
            #[trigger] text[i],
        ) by {
            if i <= first {
                assert(text[i] == run[i]);
            } else {
                assert(text[i] == kept[i - first - 1]);
            }
        }
        assert forall|i: int| first < i < text.len() implies is_digit(#[trigger] text[i]) by {
            assert(text[i] == kept[i - first - 1]);
        }
    }
}

/// A numeral with at most one point is its own literal, and no point of it
/// is an error.
pub proof fn lemma_numeral_is_its_text(text: Seq<char>)
    requires
        is_numeral(text),
    ensures
        numeral_text(text) == text,
        extra_points(text) == 0,
{
    let first = run_len(text, CharClass::Digit) as int;
    if first < text.len() {
        let after = text.skip(first + 1);
        assert forall|j: int| 0 <= j < after.len() implies is_digit(#[trigger] after[j]) by {
            assert(after[j] == text[first + 1 + j]);
        }
        lemma_filter_all(after, |c: char| c != '.');
        lemma_filter_none(after, |c: char| c == '.');
        assert(text.take(first + 1) + after =~= text);
    }
}

/// Every token of a lexeme is as the scanner makes the tokens of its kind.
pub proof fn lemma_lexeme_tokens_well_formed(s: Seq<char>, line: nat)
    requires
        s.len() > 0,
    ensures
        forall|i: int|
            0 <= i < lexeme_at(s, line).tokens.len() ==> is_well_formed(
                #[trigger] lexeme_at(s, line).tokens[i],
            ),
{
    let c = s[0];
    if c == '"' {
        lemma_run_is_longest(s.skip(1), CharClass::NotQuote);
    } else if is_digit(c) {
        let run = s.take(run_len(s, CharClass::NumberPart) as int);
        lemma_run_is_longest(s, CharClass::NumberPart);
        assert forall|i: int| 0 <= i < run.len() implies CharClass::NumberPart.has(
            #[trigger] run[i],
        ) by {
            assert(run[i] == s[i]);
        }
        lemma_numeral_text_is_numeral(run);
    } else if is_alpha(c) {
        let word = s.take(run_len(s, CharClass::Alnum) as int);
        lemma_run_is_longest(s, CharClass::Alnum);
        assert forall|i: int| 0 <= i < word.len() implies CharClass::Alnum.has(
            #[trigger] word[i],
        ) by {
            assert(word[i] == s[i]);
        }
    }
}

/// Every token of a scan is as the scanner makes the tokens of its kind.
pub proof fn lemma_scanned_tokens_well_formed(s: Seq<char>, line: nat)
    ensures
        forall|i: int|
            0 <= i < scan_from(s, line).tokens.len() ==> is_well_formed(
                #[trigger] scan_from(s, line).tokens[i],
            ),
    decreases s.len(),
{
    if s.len() > 0 {
        let head = lexeme_at(s, line);
        let len = head.len as int;
        let rest = scan_from(s.skip(len), line + count_newlines(s.take(len)));
        lemma_lexeme_len(s, line);
        lemma_lexeme_tokens_well_formed(s, line);
        lemma_scanned_tokens_well_formed(s.skip(len), line + count_newlines(s.take(len)));
        let tokens = scan_from(s, line).tokens;
        assert(tokens == head.tokens + rest.tokens);
        assert forall|i: int| 0 <= i < tokens.len() implies is_well_formed(
            #[trigger] tokens[i],
        ) by {
            if i < head.tokens.len() {
                assert(tokens[i] == head.tokens[i]);
            } else {
                assert(tokens[i] == rest.tokens[i - head.tokens.len()]);
            }
        }
    }
}

/// The text of a token: its lexeme and its literal, of which it has one.
pub open spec fn written(token: TokenView) -> Seq<char> {
    token.lexeme + token.literal
}

/// The tokens written out in order, a space after each.
pub open spec fn render(tokens: Seq<TokenView>) -> Seq<char>
    decreases tokens.len(),
{
    if tokens.len() == 0 {
        Seq::empty()
    } else {
        written(tokens[0]) + seq![' '] + render(tokens.drop_first())
    }
}

/// The kinds of the tokens, in order.
pub open spec fn kinds(tokens: Seq<TokenView>) -> Seq<TokenType> {
    Seq::new(tokens.len(), |i: int| tokens[i].token_type)
}

/// The token moved to line `line`.
pub open spec fn on_line(token: TokenView, line: nat) -> TokenView {
    TokenView { token_type: token.token_type, lexeme: token.lexeme, literal: token.literal, line }
}

/// The tokens, all moved to line `line`.
pub open spec fn all_on_line(tokens: Seq<TokenView>, line: nat) -> Seq<TokenView> {
    Seq::new(tokens.len(), |i: int| on_line(tokens[i], line))
}

/// Whether `token` can be read again from its text: it is as the scanner
/// makes it and is neither a string, whose text is written without its `"`,
/// nor the end of input.
pub open spec fn is_rescannable(token: TokenView) -> bool {
    &&& is_well_formed(token)
    &&& token.token_type != TokenType::String
    &&& token.token_type != TokenType::Eof
}

/// A token that can be read again, written out with a space after it, scans
/// as itself without an error, and the scan goes on with what follows on the
/// same line.
pub proof fn lemma_scan_written_token(token: TokenView, rest: Seq<char>, line: nat)
    requires
        is_rescannable(token),
    ensures
        scan_from(written(token) + seq![' '] + rest, line).tokens == seq![on_line(token, line)]
            + scan_from(rest, line).tokens,
        scan_from(written(token) + seq![' '] + rest, line).errors == scan_from(rest, line).errors,
{
    let text = written(token);
    let s = text + seq![' '] + rest;
    let kind = token.token_type;
    let after = seq![' '] + rest;
    let head = lexeme_at(s, line);
    // The space that follows the token gives nothing.
    assert(lexeme_at(after, line).len == 1);
    assert(after.skip(1) =~= rest);
    assert(after.take(1) =~= seq![' ']);
    lemma_no_newlines(seq![' ']);
    assert(scan_from(after, line).tokens =~= scan_from(rest, line).tokens);
    assert(scan_from(after, line).errors =~= scan_from(rest, line).errors);
    if kind.is_symbol() {
        lemma_symbol_text(kind);
        assert(text =~= kind.text());
        assert(writes_symbol(text, kind));
        assert(head.tokens =~= seq![symbol_token(kind, line)]);
        assert(head.len == text.len());
        assert(s.skip(head.len as int) =~= after);
        assert(s.take(head.len as int) =~= text);
        lemma_no_newlines(text);
    } else if kind == TokenType::Number {
        let numeral = token.literal;
        assert(text =~= numeral);
        assert(is_digit(s[0])) by {
            assert(s[0] == numeral[0]);
        }
        assert forall|i: int| 0 <= i < numeral.len() implies CharClass::NumberPart.has(
            #[trigger] s[i],
        ) by {
            assert(s[i] == numeral[i]);
        }
        assert(s[numeral.len() as int] == ' ');
        lemma_run_len_is(s, CharClass::NumberPart, numeral.len());
        assert(s.take(numeral.len() as int) =~= numeral);
        lemma_numeral_is_its_text(numeral);
        assert(head.len == numeral.len() + 1);
        assert(head.tokens =~= seq![literal_token(kind, numeral, line)]);
        assert(head.errors =~= Seq::<LexErrorView>::empty());
        assert(s.skip(head.len as int) =~= rest);
        assert(s.take(head.len as int) =~= numeral + seq![' ']);
        lemma_no_newlines(numeral + seq![' ']);
    } else {
        let word = token.literal;
        assert(text =~= word);
        if kind.is_keyword() {
            lemma_keyword_letters(word);
        }
        assert(is_word(word));
        assert(is_alpha(s[0])) by {
            assert(s[0] == word[0]);
        }
        assert forall|i: int| 0 <= i < word.len() implies CharClass::Alnum.has(#[trigger] s[i]) by {
            assert(s[i] == word[i]);
        }
        assert(s[word.len() as int] == ' ');
        lemma_run_len_is(s, CharClass::Alnum, word.len());
        assert(s.take(word.len() as int) =~= word);
        assert(head.len == word.len() + 1);
        assert(head.tokens =~= seq![literal_token(kind, word, line)]);
        assert(s.skip(head.len as int) =~= rest);
        assert(s.take(head.len as int) =~= word + seq![' ']);
        lemma_no_newlines(word + seq![' ']);
    }
    assert(scan_from(s, line).tokens =~= seq![on_line(token, line)] + scan_from(rest, line).tokens);
    assert(scan_from(s, line).errors =~= scan_from(rest, line).errors);
}

/// Tokens that can be read again, written out with a space after each, scan
/// as themselves, in order and without an error.
pub proof fn lemma_render_round_trip(tokens: Seq<TokenView>, line: nat)
    requires
        forall|i: int| 0 <= i < tokens.len() ==> is_rescannable(#[trigger] tokens[i]),
    ensures
        scan_from(render(tokens), line).tokens == all_on_line(tokens, line).push(
            symbol_token(TokenType::Eof, line),
        ),
        scan_from(render(tokens), line).errors == Seq::<LexErrorView>::empty(),
        kinds(scan_from(render(tokens), line).tokens) == kinds(tokens).push(TokenType::Eof),
    decreases tokens.len(),
{
    let scanned = scan_from(render(tokens), line);
    if tokens.len() == 0 {
        assert(scanned.tokens =~= all_on_line(tokens, line).push(
            symbol_token(TokenType::Eof, line),
        ));
    } else {
        let tail = tokens.drop_first();
        assert forall|i: int| 0 <= i < tail.len() implies is_rescannable(#[trigger] tail[i]) by {
            assert(tail[i] == tokens[i + 1]);
        }
        lemma_render_round_trip(tail, line);
        lemma_scan_written_token(tokens[0], render(tail), line);
        assert(scanned.tokens =~= all_on_line(tokens, line).push(
            symbol_token(TokenType::Eof, line),
        ));
    }
    assert(kinds(scanned.tokens) =~= kinds(tokens).push(TokenType::Eof));
}

/// Scanning is idempotent on kinds: where a scan gives no string, its tokens
/// written out and scanned again give the same kinds in the same order,
/// with the same lexemes and literals, and no error.
pub proof fn lemma_rescan_gives_same_kinds(s: Seq<char>)
    requires
        forall|i: int|
            0 <= i < scan_spec(s).tokens.len() ==> (#[trigger] scan_spec(s).tokens[i]).token_type
                != TokenType::String,
    ensures
        kinds(scan_spec(render(scan_spec(s).tokens.drop_last())).tokens) == kinds(
            scan_spec(s).tokens,
        ),
        scan_spec(render(scan_spec(s).tokens.drop_last())).tokens == all_on_line(
            scan_spec(s).tokens,
            1,
        ),
        scan_spec(render(scan_spec(s).tokens.drop_last())).errors == Seq::<LexErrorView>::empty(),
{
    let tokens = scan_spec(s).tokens;
    let body = tokens.drop_last();
    lemma_scan_ends_with_eof(s, 1);
    lemma_scanned_tokens_well_formed(s, 1);
    assert forall|i: int| 0 <= i < body.len() implies is_rescannable(#[trigger] body[i]) by {
        assert(body[i] == tokens[i]);
        assert(is_well_formed(tokens[i]));
        assert(tokens[i].token_type != TokenType::String);
        assert(tokens[i].token_type != TokenType::Eof);
    }
    lemma_render_round_trip(body, 1);
    assert(kinds(body).push(TokenType::Eof) =~= kinds(tokens));
    assert(all_on_line(body, 1).push(symbol_token(TokenType::Eof, 1)) =~= all_on_line(tokens, 1));
}

} // verus!
