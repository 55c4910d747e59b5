//! Where the text comes from: a source that hands it out line by line.

use crate::text::{after_first_line, first_line, line_len};
use vstd::prelude::*;

verus! {

/// A source of text that is read one line at a time.
pub trait LineSource {
    /// The text that has not been read yet.
    spec fn unread(&self) -> Seq<char>;

    /// Reads the next line, with its line feed where it has one. Gives
    /// `None` when, and only when, nothing is left to read.
    fn read_line(&mut self) -> (line: Option<String>)
        ensures
            line is Some <==> old(self).unread().len() > 0,
            line is Some ==> line->0@ == first_line(old(self).unread()),
            final(self).unread() == after_first_line(old(self).unread()),
    ;
}

/// A text held in memory, read from its start.
pub struct TextSource {
    chars: Vec<char>,
    pos: usize,
}

impl TextSource {
    #[verifier::type_invariant]
    spec fn in_bounds(&self) -> bool {
        self.pos <= self.chars.len()
    }

    /// A source from which all of `text` is still to be read.
    pub fn new(text: &str) -> (source: Self)
        ensures
            source.unread() == text@,
    {
        let mut chars: Vec<char> = Vec::new();
        for c in it: text.chars()
            invariant
                it.seq() == text@,
                chars@ == text@.take(it.index() as int),
        {
            chars.push(c);
        }
        TextSource { chars, pos: 0 }
    }
}

impl LineSource for TextSource {
    closed spec fn unread(&self) -> Seq<char> {
        self.chars@.skip(self.pos as int)
    }

    fn read_line(&mut self) -> (line: Option<String>) {
        proof {
            use_type_invariant(&*self);
        }
        let ghost text = self.unread();
        let start = self.pos;
        if start >= self.chars.len() {
            return None;
        }
        let mut line = String::new();
        let mut ended = false;
        while !ended && self.pos < self.chars.len()
            invariant
                self.chars == old(self).chars,
                start == old(self).pos,
                text == self.chars@.skip(start as int),
                start <= self.pos <= self.chars.len(),
                line@ == self.chars@.subrange(start as int, self.pos as int),
                !ended ==> line_len(text) == (self.pos - start) + line_len(
                    self.chars@.skip(self.pos as int),
                ),
                ended ==> line_len(text) == self.pos - start,
            decreases self.chars.len() - self.pos + (if ended { 0int } else { 1int }),
        {
            let c = self.chars[self.pos];
            proof {
                assert(self.chars@.skip(self.pos as int).skip(1) =~= self.chars@.skip(
                    self.pos + 1,
                ));
            }
            self.pos = self.pos + 1;
            line.push(c);
            if c == '\n' {
                ended = true;
            }
        }
        Some(line)
    }
}

} // verus!
