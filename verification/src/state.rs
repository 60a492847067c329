//! The position cursor: the single mutable scan state that every parse call
//! threads through. Offsets are character offsets into the source text; all
//! spans are half-open `[start, end)` ranges of such offsets.
//!
//! Successful matches only ever move the cursor forward; a failed optional
//! match restores the state exactly (pure rollback), which is what makes
//! alternation in the grammar safe.

use crate::lex::{is_space, lemma_ws_end, space_char, ws_end};
use vstd::prelude::*;
use vstd::string::StrSliceExecFns;

verus! {

/// The two characters `a` then `b` stand at offset `i` of `s`.
pub open spec fn two_at(s: Seq<char>, i: int, a: char, b: char) -> bool {
    i + 2 <= s.len() && s[i] == a && s[i + 1] == b
}

/// Mutable scan state: the source text and the current offset into it.
pub struct LexerState {
    src: String,
    pos: usize,
}

impl LexerState {
    /// The source text being scanned.
    pub closed spec fn text(&self) -> Seq<char> {
        self.src@
    }

    /// The current scan offset.
    pub closed spec fn cursor(&self) -> int {
        self.pos as int
    }

    /// The cursor never runs past the end of the text.
    pub open spec fn wf(&self) -> bool {
        0 <= self.cursor() <= self.text().len()
    }

    pub fn new(source: String) -> (s: Self)
        ensures
            s.wf(),
            s.text() == source@,
            s.cursor() == 0,
    {
        LexerState { src: source, pos: 0 }
    }

    /// The current offset, for anchoring spans and errors.
    pub fn offset(&self) -> (r: usize)
        ensures
            r as int == self.cursor(),
    {
        self.pos
    }

    pub fn input_len(&self) -> (r: usize)
        ensures
            r as int == self.text().len(),
    {
        self.src.as_str().unicode_len()
    }

    /// The character under the cursor, if any; the cursor does not move.
    pub fn peek(&self) -> (r: Option<char>)
        requires
            self.wf(),
        ensures
            self.cursor() < self.text().len() ==> r == Some(self.text()[self.cursor()]),
            self.cursor() == self.text().len() ==> r is None,
    {
        if self.pos < self.src.as_str().unicode_len() {
            Some(self.src.as_str().get_char(self.pos))
        } else {
            None
        }
    }

    /// Step over the character under the cursor.
    pub fn advance(&mut self)
        requires
            old(self).wf(),
            old(self).cursor() < old(self).text().len(),
        ensures
            final(self).wf(),
            final(self).text() == old(self).text(),
            final(self).cursor() == old(self).cursor() + 1,
    {
        let _len = self.input_len();
        self.pos = self.pos + 1;
    }

    /// Move the cursor to the first character that is not whitespace.
    pub fn skip_whitespace(&mut self)
        requires
            old(self).wf(),
        ensures
            final(self).wf(),
            final(self).text() == old(self).text(),
            final(self).cursor() == ws_end(old(self).text(), old(self).cursor()),
            old(self).cursor() <= final(self).cursor(),
    {
        let len = self.input_len();
        let ghost s = self.text();
        let ghost start = self.cursor();
        proof {
            lemma_ws_end(s, start);
        }
        while self.pos < len && space_char(self.src.as_str().get_char(self.pos))
            invariant
                self.wf(),
                self.text() == s,
                len as int == s.len(),
                start <= self.cursor() <= s.len(),
                ws_end(s, start) == ws_end(s, self.cursor()),
            decreases s.len() - self.cursor(),
        {
            self.pos = self.pos + 1;
        }
    }

    /// Optional match of the single character `c`, with no whitespace
    /// skipping: on failure the state is exactly as it was.
    pub fn try_char(&mut self, c: char) -> (r: bool)
        requires
            old(self).wf(),
        ensures
            final(self).wf(),
            final(self).text() == old(self).text(),
            r == (old(self).cursor() < old(self).text().len()
                && old(self).text()[old(self).cursor()] == c),
            r ==> final(self).cursor() == old(self).cursor() + 1,
            !r ==> *final(self) == *old(self),
    {
        if self.pos < self.input_len() {
            if self.src.as_str().get_char(self.pos) == c {
                self.pos = self.pos + 1;
                return true;
            }
        }
        false
    }

    /// Optional match of `c` after any run of whitespace. On failure the
    /// whitespace is not consumed either: pure rollback.
    pub fn try_char_ws(&mut self, c: char) -> (r: bool)
        requires
            old(self).wf(),
        ensures
            final(self).wf(),
            final(self).text() == old(self).text(),
            old(self).cursor() <= ws_end(old(self).text(), old(self).cursor()) <= old(
                self,
            ).text().len(),
            r == ({
                let j = ws_end(old(self).text(), old(self).cursor());
                j < old(self).text().len() && old(self).text()[j] == c
            }),
            r ==> final(self).cursor() == ws_end(old(self).text(), old(self).cursor()) + 1,
            !r ==> final(self).cursor() == old(self).cursor(),
            old(self).cursor() <= final(self).cursor(),
    {
        proof {
            lemma_ws_end(self.text(), self.cursor());
        }
        let save = self.pos;
        self.skip_whitespace();
        if self.try_char(c) {
            true
        } else {
            self.pos = save;
            false
        }
    }

    /// Optional match of the two-character token `a b` (such as `::` or `->`)
    /// after any run of whitespace, with pure rollback on failure.
    pub fn try_two_ws(&mut self, a: char, b: char) -> (r: bool)
        requires
            old(self).wf(),
        ensures
            final(self).wf(),
            final(self).text() == old(self).text(),
            old(self).cursor() <= ws_end(old(self).text(), old(self).cursor()) <= old(
                self,
            ).text().len(),
            r == two_at(old(self).text(), ws_end(old(self).text(), old(self).cursor()), a, b),
            r ==> final(self).cursor() == ws_end(old(self).text(), old(self).cursor()) + 2,
            !r ==> final(self).cursor() == old(self).cursor(),
            old(self).cursor() <= final(self).cursor(),
    {
        proof {
            lemma_ws_end(self.text(), self.cursor());
        }
        let save = self.pos;
        self.skip_whitespace();
        if self.try_char(a) {
            if self.try_char(b) {
                return true;
            }
        }
        self.pos = save;
        false
    }

    /// A copy of the characters in `[from, to)`.
    pub fn slice(&self, from: usize, to: usize) -> (r: String)
        requires
            self.wf(),
            from <= to,
            to as int <= self.text().len(),
        ensures
            r@ == self.text().subrange(from as int, to as int),
    {
        self.src.as_str().substring_char(from, to).to_owned()
    }
}

} // verus!
