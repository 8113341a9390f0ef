//! Facts about the grammar that the scanner's proofs rest on.

use vstd::prelude::*;
use crate::error::LexErrorView;
use crate::grammar::{
    count_newlines, extra_points, is_alpha, keyword_kind, lemma_run_len_bound, numeral_text,
    operator_kind, point_errors, punctuation_kind, run_len, CharClass,
};
use crate::token::TokenType;

verus! {

/// A text has no more newlines than characters.
pub proof fn lemma_count_newlines_bound(s: Seq<char>)
    ensures
        count_newlines(s) <= s.len(),
{
    s.lemma_filter_len(|c: char| c == '\n');
}

/// The newlines of a text are those of a part of it and those of the rest.
pub proof fn lemma_count_newlines_add(a: Seq<char>, b: Seq<char>)
    ensures
        count_newlines(a + b) == count_newlines(a) + count_newlines(b),
{
    Seq::filter_distributes_over_add(a, b, |c: char| c == '\n');
}

/// One character more adds one newline if it is one.
pub proof fn lemma_count_newlines_step(s: Seq<char>, i: int)
    requires
        0 <= i < s.len(),
    ensures
        count_newlines(s.take(i + 1)) == count_newlines(s.take(i)) + if s[i] == '\n' {
            1nat
        } else {
            0nat
        },
{
    assert(s.take(i + 1) =~= s.take(i).push(s[i]));
    s.take(i).lemma_filter_push(s[i], |c: char| c == '\n');
}

/// The newlines before index `a + b` are those before `a` and those among
/// the `b` characters from `a` on.
pub proof fn lemma_count_newlines_split(s: Seq<char>, a: int, b: int)
    requires
        0 <= a,
        0 <= b,
        a + b <= s.len(),
    ensures
        count_newlines(s.take(a + b)) == count_newlines(s.take(a)) + count_newlines(
            s.skip(a).take(b),
        ),
{
    assert(s.take(a + b) =~= s.take(a) + s.skip(a).take(b));
    lemma_count_newlines_add(s.take(a), s.skip(a).take(b));
}

/// One character more lengthens a run only if the run was the whole text and
/// the character belongs to the class.
pub proof fn lemma_run_len_push(s: Seq<char>, class: CharClass, c: char)
    ensures
        run_len(s.push(c), class) == if run_len(s, class) == s.len() && class.has(c) {
            s.len() + 1
        } else {
            run_len(s, class)
        },
    decreases s.len(),
{
    lemma_run_len_bound(s, class);
    if s.len() == 0 {
        assert(s.push(c).drop_first() =~= Seq::<char>::empty());
        assert(run_len(s.push(c).drop_first(), class) == 0);
    } else if class.has(s[0]) {
        assert(s.push(c).drop_first() =~= s.drop_first().push(c));
        lemma_run_len_push(s.drop_first(), class, c);
        lemma_run_len_bound(s.drop_first(), class);
    }
}

/// What one character more, a digit or a decimal point, does to a numeral:
/// a point after the first is counted and left out, anything else joins the
/// literal.
pub proof fn lemma_numeral_push(run: Seq<char>, c: char)
    requires
        CharClass::NumberPart.has(c),
    ensures
        numeral_text(run.push(c)) == if c == '.' && run_len(run, CharClass::Digit) < run.len() {
            numeral_text(run)
        } else {
            numeral_text(run).push(c)
        },
        extra_points(run.push(c)) == if c == '.' && run_len(run, CharClass::Digit) < run.len() {
            extra_points(run) + 1
        } else {
            extra_points(run)
        },
        run_len(run.push(c), CharClass::Digit) < run.len() + 1 <==> run_len(run, CharClass::Digit)
            < run.len() || c == '.',
{
    let longer = run.push(c);
    let first = run_len(run, CharClass::Digit) as int;
    lemma_run_len_push(run, CharClass::Digit, c);
    lemma_run_len_bound(run, CharClass::Digit);
    if first < run.len() {
        assert(longer.take(first + 1) =~= run.take(first + 1));
        assert(longer.skip(first + 1) =~= run.skip(first + 1).push(c));
        run.skip(first + 1).lemma_filter_push(c, |c: char| c != '.');
        run.skip(first + 1).lemma_filter_push(c, |c: char| c == '.');
    } else if c == '.' {
        assert(longer.take(first + 1) =~= longer);
        assert(longer.skip(first + 1) =~= Seq::<char>::empty());
        reveal(Seq::filter);
        assert(longer.skip(first + 1).filter(|c: char| c != '.') =~= Seq::<char>::empty());
        assert(longer.skip(first + 1).filter(|c: char| c == '.') =~= Seq::<char>::empty());
        assert(longer + Seq::<char>::empty() =~= longer);
    }
}

/// One error more for a decimal point too many.
pub proof fn lemma_point_errors_push(count: nat, line: nat)
    ensures
        point_errors(count + 1, line) == point_errors(count, line).push(
            LexErrorView::malformed_number(line),
        ),
{
    assert(point_errors(count + 1, line) =~= point_errors(count, line).push(
        LexErrorView::malformed_number(line),
    ));
}

/// A run is the only prefix whose characters all belong to the class and
/// that ends where the text ends or a character outside the class stands.
pub proof fn lemma_run_len_is(s: Seq<char>, class: CharClass, n: nat)
    requires
        n <= s.len(),
        forall|i: int| 0 <= i < n ==> class.has(#[trigger] s[i]),
        n < s.len() ==> !class.has(s[n as int]),
    ensures
        run_len(s, class) == n,
    decreases n,
{
    if n > 0 {
        let tail = s.drop_first();
        assert forall|i: int| 0 <= i < n - 1 implies class.has(#[trigger] tail[i]) by {
            assert(tail[i] == s[i + 1]);
        }
        lemma_run_len_is(tail, class, (n - 1) as nat);
    }
}

/// A text without a newline has none to count.
pub proof fn lemma_no_newlines(s: Seq<char>)
    requires
        forall|i: int| 0 <= i < s.len() ==> #[trigger] s[i] != '\n',
    ensures
        count_newlines(s) == 0,
    decreases s.len(),
{
    reveal(Seq::filter);
    if s.len() > 0 {
        lemma_no_newlines(s.drop_last());
    }
}

/// A filter keeps the whole of a text whose characters all pass it.
pub proof fn lemma_filter_all(s: Seq<char>, pass: spec_fn(char) -> bool)
    requires
        forall|i: int| 0 <= i < s.len() ==> pass(#[trigger] s[i]),
    ensures
        s.filter(pass) == s,
    decreases s.len(),
{
    reveal(Seq::filter);
    if s.len() > 0 {
        lemma_filter_all(s.drop_last(), pass);
        assert(s.drop_last().push(s.last()) =~= s);
    }
}

/// A filter keeps nothing of a text none of whose characters pass it.
pub proof fn lemma_filter_none(s: Seq<char>, pass: spec_fn(char) -> bool)
    requires
        forall|i: int| 0 <= i < s.len() ==> !pass(#[trigger] s[i]),
    ensures
        s.filter(pass).len() == 0,
    decreases s.len(),
{
    reveal(Seq::filter);
    if s.len() > 0 {
        lemma_filter_none(s.drop_last(), pass);
    }
}

/// Whether `text` is how the punctuation mark or operator of kind `kind` is
/// written: one character, or two where the second is `=`.
pub open spec fn writes_symbol(text: Seq<char>, kind: TokenType) -> bool {
    ||| text.len() == 1 && punctuation_kind(text[0]) == Some(kind)
    ||| text.len() == 1 && operator_kind(text[0], false) == Some(kind)
    ||| text.len() == 2 && text[1] == '=' && operator_kind(text[0], true) == Some(kind)
    ||| text.len() == 1 && text[0] == '/' && kind == TokenType::Slash
}

/// The text of the kind of a punctuation mark or operator is how the
/// grammar has it written.
pub proof fn lemma_symbol_text(kind: TokenType)
    requires
        kind.is_symbol(),
    ensures
        writes_symbol(kind.text(), kind),
{
    reveal_strlit("(");
    reveal_strlit(")");
    reveal_strlit("{");
    reveal_strlit("}");
    reveal_strlit(",");
    reveal_strlit(".");
    reveal_strlit("-");
    reveal_strlit("+");
    reveal_strlit(";");
    reveal_strlit("/");
    reveal_strlit("*");
    reveal_strlit("!");
    reveal_strlit("!=");
    reveal_strlit("=");
    reveal_strlit("==");
    reveal_strlit(">");
    reveal_strlit(">=");
    reveal_strlit("<");
    reveal_strlit("<=");
}

/// A reserved word is made of letters, at least two of them.
pub proof fn lemma_keyword_letters(word: Seq<char>)
    requires
        keyword_kind(word) is Some,
    ensures
        word.len() >= 2,
        forall|i: int| 0 <= i < word.len() ==> is_alpha(#[trigger] word[i]),
        keyword_kind(word)->0.is_keyword(),
{
    reveal_strlit("and");
    reveal_strlit("class");
    reveal_strlit("else");
    reveal_strlit("false");
    reveal_strlit("for");
    reveal_strlit("if");
    reveal_strlit("nil");
    reveal_strlit("or");
    reveal_strlit("print");
    reveal_strlit("return");
    reveal_strlit("super");
    reveal_strlit("this");
    reveal_strlit("true");
    reveal_strlit("var");
    reveal_strlit("while");
}

} // verus!
