//! The source buffer and the cursor that moves over it.

use vstd::prelude::*;
use crate::grammar::count_newlines;
use crate::lemmas::{lemma_count_newlines_bound, lemma_count_newlines_step};

verus! {

/// The character at index `i` of `s`, or NUL where `s` has none there.
pub open spec fn char_at(s: Seq<char>, i: int) -> char {
    if 0 <= i < s.len() {
        s[i]
    } else {
        '\0'
    }
}

/// The characters of a source text, held for reading by index.
///
/// The buffer ends with a NUL that is no part of the text, so that the
/// character after the last one can be looked at like any other.
pub struct Source {
    chars: Vec<char>,
}

impl View for Source {
    type V = Seq<char>;

    /// The text, without the NUL that ends the buffer.
    closed spec fn view(&self) -> Seq<char> {
        self.chars@.drop_last()
    }
}

impl Source {
    #[verifier::type_invariant]
    spec fn ends_with_nul(&self) -> bool {
        self.chars@.len() > 0 && self.chars@.last() == '\0'
    }

    /// Reads the characters of `text` into a buffer.
    pub fn new(text: &str) -> (src: Source)
        ensures
            src@ == text@,
    {
        let mut chars: Vec<char> = Vec::new();
        for c in it: text.chars()
            invariant
                chars@ == it.seq().take(it.index() as int),
        {
            chars.push(c);
        }
        chars.push('\0');
        assert(chars@.drop_last() =~= text@);
        Source { chars }
    }

    /// The number of characters in the text. It is below `usize::MAX`, as
    /// the buffer holds one character more.
    pub fn len(&self) -> (n: usize)
        ensures
            n == self@.len(),
            n < usize::MAX,
    {
        proof {
            use_type_invariant(self);
        }
        self.chars.len() - 1
    }

    /// The character at index `i`, which may be the index after the last
    /// character: there it is NUL.
    pub fn at(&self, i: usize) -> (c: char)
        requires
            i <= self@.len(),
        ensures
            c == char_at(self@, i as int),
    {
        proof {
            use_type_invariant(self);
        }
        self.chars[i]
    }
}

/// A place in a source text: the index of the next character to read and
/// the number of the line on which it stands.
#[derive(Debug, Clone, Copy, PartialEq, Eq, Structural)]
pub struct Cursor {
    pub pos: usize,
    pub line: u64,
}

impl Cursor {
    /// Whether the cursor is a place in `text`: its index is within the text
    /// or just after it, and its line is 1 plus the number of newlines before
    /// that index. The text is short enough for a buffer to hold it.
    pub open spec fn in_text(self, text: Seq<char>) -> bool {
        &&& self.pos <= text.len() < usize::MAX
        &&& self.line == 1 + count_newlines(text.take(self.pos as int))
    }

    /// What is left of `text` from the cursor on.
    pub open spec fn rest(self, text: Seq<char>) -> Seq<char> {
        text.skip(self.pos as int)
    }

    /// The start of the text in `src`.
    pub fn start(src: &Source) -> (cur: Cursor)
        ensures
            cur.pos == 0,
            cur.line == 1,
            cur.in_text(src@),
    {
        proof {
            use_type_invariant(src);
            assert(src.chars@.len() == src.chars.len());
            assert(src@.take(0) =~= Seq::<char>::empty());
            lemma_count_newlines_bound(src@.take(0));
        }
        Cursor { pos: 0, line: 1 }
    }

    /// Steps over one character, counting it if it is a newline.
    pub fn advance(self, src: &Source) -> (next: Cursor)
        requires
            self.in_text(src@),
            self.pos < src@.len(),
        ensures
            next.in_text(src@),
            next.pos == self.pos + 1,
    {
        let c = src.at(self.pos);
        proof {
            lemma_count_newlines_step(src@, self.pos as int);
            lemma_count_newlines_bound(src@.take(self.pos as int));
        }
        if c == '\n' {
            Cursor { pos: self.pos + 1, line: self.line + 1 }
        } else {
            Cursor { pos: self.pos + 1, line: self.line }
        }
    }

    /// Steps over one character if there is one left.
    pub fn advance_if_any(self, src: &Source) -> (next: Cursor)
        requires
            self.in_text(src@),
        ensures
            next.in_text(src@),
            next.pos == if self.pos < src@.len() {
                self.pos + 1
            } else {
                self.pos as int
            },
    {
        if self.pos < src.len() {
            self.advance(src)
        } else {
            self
        }
    }
}

} // verus!
