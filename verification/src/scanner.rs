//! The scanner: tokens pulled one at a time from a source read line by line.

use crate::parse::FromToken;
use crate::source::LineSource;
use crate::text::{
    after_token_line, lemma_line_len, lemma_tokens_by_token_line, split_whitespace, token_line,
    tokens_of,
};
use vstd::prelude::*;

verus! {

/// Why no value could be read.
#[derive(Clone, Copy, Debug, PartialEq, Eq, Structural)]
pub enum ScanError {
    /// The input holds no further token.
    Exhausted,
    /// The next token does not denote a value of the type asked for.
    Malformed,
}

/// What reading one value of type `T` gives, where `tokens` are still to
/// come: the value that the first of them denotes.
pub open spec fn read_spec<T: FromToken>(tokens: Seq<Seq<char>>) -> Result<T::V, ScanError> {
    if tokens.len() == 0 {
        Err(ScanError::Exhausted)
    } else {
        match T::value_of(tokens[0]) {
            Some(v) => Ok(v),
            None => Err(ScanError::Malformed),
        }
    }
}

/// The tokens that are still to come after one has been read: all but the
/// first. Reading consumes the token also where it denotes no value.
pub open spec fn after_read(tokens: Seq<Seq<char>>) -> Seq<Seq<char>> {
    if tokens.len() == 0 {
        tokens
    } else {
        tokens.skip(1)
    }
}

/// The same items, last one first.
fn reversed<T>(items: Vec<T>) -> (r: Vec<T>)
    ensures
        r@ == items@.reverse(),
{
    let mut items = items;
    let ghost all = items@;
    let mut r: Vec<T> = Vec::new();
    while items.len() > 0
        invariant
            items@ == all.take(all.len() - r@.len()),
            r@.len() <= all.len(),
            forall|j: int| 0 <= j < r@.len() ==> r@[j] == all[all.len() - 1 - j],
        decreases items.len(),
    {
        match items.pop() {
            Some(item) => {
                r.push(item);
            },
            None => {},
        }
    }
    r
}

/// Pulls tokens from a source of text, which it reads a line at a time and
/// no further than it must.
pub struct Scanner<R: LineSource> {
    reader: R,
    /// The tokens of the line read last that are still to come, in reverse.
    buf: Vec<String>,
}

/// The tokens that are buffered after a read: the others of the buffer, or,
/// where it was empty, the others of the next line that holds a token.
pub open spec fn buffered_after_read(buffered: Seq<Seq<char>>, unread: Seq<char>) -> Seq<
    Seq<char>,
> {
    if buffered.len() > 0 {
        buffered.skip(1)
    } else {
        after_read(token_line(unread))
    }
}

/// The text that the source has not given yet after a read: as much as
/// before where a token was buffered, and else what follows the next line
/// that holds a token.
pub open spec fn unread_after_read(buffered: Seq<Seq<char>>, unread: Seq<char>) -> Seq<char> {
    if buffered.len() > 0 {
        unread
    } else {
        after_token_line(unread)
    }
}

/// A read takes the first of the tokens that are still to come, wherever
/// it stands: in the buffer or in the text that the source has not given
/// yet.
pub proof fn lemma_tokens_after_read(buffered: Seq<Seq<char>>, unread: Seq<char>)
    ensures
        buffered_after_read(buffered, unread) + tokens_of(unread_after_read(buffered, unread))
            == after_read(buffered + tokens_of(unread)),
{
    let rest = tokens_of(unread);
    if buffered.len() > 0 {
        assert(buffered.skip(1) + rest =~= (buffered + rest).skip(1));
    } else {
        lemma_tokens_by_token_line(unread);
        let line = token_line(unread);
        let more = tokens_of(after_token_line(unread));
        assert(buffered + rest =~= line + more);
        if line.len() > 0 {
            assert(line.skip(1) + more =~= (line + more).skip(1));
        }
    }
}

impl<R: LineSource> Scanner<R> {
    /// The tokens of the line read last that are still to come, next one
    /// first.
    pub closed spec fn buffered(&self) -> Seq<Seq<char>> {
        Seq::new(self.buf@.len(), |i: int| self.buf@[self.buf@.len() - 1 - i]@)
    }

    /// The text that the source has not given yet.
    pub closed spec fn unread(&self) -> Seq<char> {
        self.reader.unread()
    }

    /// The tokens that are still to come, next one first: those that are
    /// buffered, then those of the text that the source has not given yet.
    pub open spec fn tokens(&self) -> Seq<Seq<char>> {
        self.buffered() + tokens_of(self.unread())
    }

    /// A scanner that has read nothing from `reader` yet.
    pub fn new(reader: R) -> (scanner: Self)
        ensures
            scanner.buffered() == Seq::<Seq<char>>::empty(),
            scanner.unread() == reader.unread(),
            scanner.tokens() == tokens_of(reader.unread()),
    {
        Scanner { reader, buf: Vec::new() }
    }

    /// Hands out the next token: the next of the buffer, or, where the
    /// buffer is empty, the first of the next line that holds one.
    fn pull(&mut self) -> (token: Option<String>)
        ensures
            token is Some <==> old(self).tokens().len() > 0,
            token is Some ==> token->0@ == old(self).tokens()[0],
            final(self).tokens() == after_read(old(self).tokens()),
            final(self).buffered() == buffered_after_read(old(self).buffered(), old(self).unread()),
            final(self).unread() == unread_after_read(old(self).buffered(), old(self).unread()),
    {
        proof {
            lemma_tokens_by_token_line(self.unread());
        }
        loop
            invariant
                tokens_of(old(self).unread()) == token_line(old(self).unread()) + tokens_of(
                    after_token_line(old(self).unread()),
                ),
                old(self).buffered().len() > 0 ==> self.buffered() == old(self).buffered()
                    && self.unread() == old(self).unread(),
                old(self).buffered().len() == 0 && self.buffered().len() > 0 ==> self.buffered()
                    == token_line(old(self).unread()) && self.unread() == after_token_line(
                    old(self).unread(),
                ),
                old(self).buffered().len() == 0 && self.buffered().len() == 0 ==> token_line(
                    self.unread(),
                ) == token_line(old(self).unread()) && after_token_line(self.unread())
                    == after_token_line(old(self).unread()),
            decreases self.unread().len(),
        {
            let ghost unread = self.unread();
            match self.buf.pop() {
                Some(token) => {
                    return Some(token);
                },
                None => {},
            }
            match self.reader.read_line() {
                Some(line) => {
                    proof {
                        lemma_line_len(unread);
                    }
                    self.buf = reversed(split_whitespace(line.as_str()));
                },
                None => {
                    return None;
                },
            }
        }
    }

    /// Reads the next token as a `T`. Fails with `Exhausted` where no
    /// token is left, and with `Malformed` where the next token denotes no
    /// `T`; the token is consumed either way. Lines are read from the
    /// source only where the buffer is empty, and then up to the first one
    /// that holds a token.
    pub fn try_next<T: FromToken>(&mut self) -> (r: Result<T, ScanError>)
        ensures
            match r {
                Ok(v) => read_spec::<T>(old(self).tokens()) == Ok::<T::V, ScanError>(v@),
                Err(e) => read_spec::<T>(old(self).tokens()) == Err::<T::V, ScanError>(e),
            },
            final(self).tokens() == after_read(old(self).tokens()),
            final(self).buffered() == buffered_after_read(old(self).buffered(), old(self).unread()),
            final(self).unread() == unread_after_read(old(self).buffered(), old(self).unread()),
    {
        match self.pull() {
            Some(token) => match T::from_token(token) {
                Some(v) => Ok(v),
                None => Err(ScanError::Malformed),
            },
            None => Err(ScanError::Exhausted),
        }
    }

    /// Reads the next token as a `T`, where one is left and denotes a `T`.
    /// Lines are read from the source as `try_next` reads them.
    pub fn next<T: FromToken>(&mut self) -> (value: T)
        requires
            read_spec::<T>(old(self).tokens()) is Ok,
        ensures
            read_spec::<T>(old(self).tokens()) == Ok::<T::V, ScanError>(value@),
            final(self).tokens() == old(self).tokens().skip(1),
            final(self).buffered() == buffered_after_read(old(self).buffered(), old(self).unread()),
            final(self).unread() == unread_after_read(old(self).buffered(), old(self).unread()),
    {
        match self.try_next::<T>() {
            Ok(value) => value,
            Err(_) => vstd::pervasive::unreached(),
        }
    }
}

} // verus!
