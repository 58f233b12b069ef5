//! What can go wrong while reading.

use vstd::prelude::*;
use vstd::std_specs::convert::FromSpecImpl;
use vstd::string::StringExecFns;
use crate::lexer::lex_message;
use crate::lexer::lex_text;
use xmlparser::Error as LexError;
use crate::token::TextPos;

verus! {

/// A list of all possible errors.
#[derive(PartialEq, Eq, Hash, Debug)]
pub enum Error {
    /// The reader was asked for something that the token it stands on cannot give,
    /// or met a token it cannot take. Carries the place of that token, where known.
    Unexpected(Option<TextPos>),
    /// The text is not well-formed: the error is the tokenizer's own.
    ParserError(LexError),
}

impl Clone for Error {
    fn clone(&self) -> (error: Error)
        ensures
            error == *self,
    {
        match self {
            Error::Unexpected(pos) => Error::Unexpected(*pos),
            Error::ParserError(e) => Error::ParserError(*e),
        }
    }
}

impl From<LexError> for Error {
    fn from(e: LexError) -> (error: Error) {
        Error::ParserError(e)
    }
}

impl FromSpecImpl<LexError> for Error {
    open spec fn obeys_from_spec() -> bool {
        true
    }

    open spec fn from_spec(e: LexError) -> Error {
        Error::ParserError(e)
    }
}

impl Error {
    /// The error in words.
    pub open spec fn spec_message(self) -> Seq<char> {
        match self {
            Error::Unexpected(Some(pos)) => "an unexpected error at "@ + pos.spec_describe(),
            Error::Unexpected(None) => "an unexpected error"@,
            Error::ParserError(e) => lex_text(e),
        }
    }

    /// The error in words: what happened and, where it is known, at which line and
    /// column. An error of the tokenizer speaks for itself.
    pub fn message(&self) -> (words: String)
        ensures
            words@ == self.spec_message(),
    {
        match self {
            Error::Unexpected(Some(pos)) => {
                let mut words = "an unexpected error at ".to_owned();
                let place = pos.describe();
                words.append(place.as_str());
                words
            },
            Error::Unexpected(None) => "an unexpected error".to_owned(),
            Error::ParserError(e) => lex_message(e),
        }
    }
}

} // verus!
