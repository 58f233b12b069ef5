//! A reader confined to one element.

use std::ops::Deref;
use std::ops::DerefMut;
use vstd::prelude::*;
use crate::error::Error;
use crate::laws::lemma_scope_reads_forward;
use crate::model::Scope;
use crate::reader::StreamReader;
use crate::token::Token;

verus! {

/// Sub-tree reader
///
/// The fields are public so that the contracts can speak of the reader underneath: of
/// the state it is in, and of the state in which it goes back to its owner.
pub struct SubTreeReader<'input, 'l> {
    /// The reader underneath, borrowed for as long as this one lives.
    pub sr: &'l mut StreamReader<'input>,
    /// The depth at which the element was met.
    pub initial_depth: usize,
    /// Whether the end of the element has been reached.
    pub eos: bool,
}

impl<'input, 'l> View for SubTreeReader<'input, 'l> {
    type V = Scope<'input>;

    open spec fn view(&self) -> Scope<'input> {
        Scope {
            cursor: self.sr@,
            initial_depth: self.initial_depth as nat,
            exhausted: self.eos,
        }
    }
}

impl<'input, 'l> SubTreeReader<'input, 'l> {
    /// constructor
    ///
    /// Inside a start tag this confines `sr` to the element of that tag; anywhere else it
    /// is an error, and `sr` stays as it is. The reader underneath starts as `sr` stands
    /// and is handed back to the owner of `sr` as the sub-tree reader leaves it.
    pub fn new(sr: &'l mut StreamReader<'input>) -> (out: Result<SubTreeReader<'input, 'l>, Error>)
        ensures
            match out {
                Ok(sub) => Scope::open(old(sr)@) == Ok::<Scope, Error>(sub@) && *sub.sr == *old(sr)
                    && *final(sub.sr) == *final(sr),
                Err(e) => Scope::open(old(sr)@) == Err::<Scope, Error>(e) && *final(sr) == *old(sr),
            },
    {
        match sr.start_depth() {
            Some(initial_depth) => Ok(SubTreeReader { sr, initial_depth, eos: false }),
            None => Err(sr.unexpected()),
        }
    }

    /// Whether nothing is left of the element; remembers it once it is so.
    fn is_eos(&mut self) -> (done: bool)
        ensures
            done == old(self)@.at_end(),
            *final(self).sr == *old(self).sr,
            *final(final(self).sr) == *final(old(self).sr),
            final(self).initial_depth == old(self).initial_depth,
            final(self).eos == done,
    {
        if self.eos {
            return true;
        }
        if self.sr.depth() == self.initial_depth {
            if self.sr.is_end_token() {
                self.eos = true;
                return true;
            }
        }
        false
    }

    /// get next token
    ///
    /// At the end of the element this reports `None` and leaves the reader underneath
    /// alone.
    pub fn next(&mut self) -> (out: Result<Option<Token<'input>>, Error>)
        ensures
            final(self)@.cursor.follows(old(self)@.cursor),
            final(self)@ == old(self)@.advance().0,
            out == old(self)@.advance().1,
            *final(final(self).sr) == *final(old(self).sr),
    {
        proof {
            lemma_scope_reads_forward(old(self)@);
        }
        if self.is_eos() {
            return Ok(None);
        }
        let token = self.sr.next()?;
        self.is_eos();
        Ok(token)
    }

    /// go to next tag
    pub fn next_tag(&mut self) -> (out: Result<Option<Token<'input>>, Error>)
        ensures
            final(self)@.cursor.follows(old(self)@.cursor),
            final(self)@ == old(self)@.advance_to_tag().0,
            out == old(self)@.advance_to_tag().1,
            *final(final(self).sr) == *final(old(self).sr),
    {
        proof {
            lemma_scope_reads_forward(old(self)@);
        }
        loop
            invariant
                self@.advance_to_tag() == old(self)@.advance_to_tag(),
                old(self)@.advance_to_tag().0.cursor.follows(old(self)@.cursor),
                *final(self.sr) == *final(old(self).sr),
            decreases self@.cursor.pending.len(),
        {
            match self.next()? {
                Some(Token::ElementStart { .. }) | None => {
                    return Ok(if self.eos {
                        None
                    } else {
                        self.sr.current()
                    });
                },
                Some(_) => {},
            }
        }
    }
}

impl<'input> Deref for SubTreeReader<'input, '_> {
    type Target = StreamReader<'input>;

    /// The reader underneath, for every question it can answer.
    fn deref(&self) -> (reader: &StreamReader<'input>)
        ensures
            *reader == *old(self.sr),
    {
        self.sr
    }
}

impl<'input> DerefMut for SubTreeReader<'input, '_> {
    /// The reader underneath, for every request that moves it. What is done to it is
    /// done to the reader of this sub-tree; depth and end of the sub-tree stay as noted.
    fn deref_mut(&mut self) -> (reader: &mut StreamReader<'input>)
        ensures
            *reader == *old(self).sr,
            *final(self).sr == *final(reader),
            *final(final(self).sr) == *final(old(self).sr),
            final(self).initial_depth == old(self).initial_depth,
            final(self).eos == old(self).eos,
    {
        self.sr
    }
}

} // verus!
