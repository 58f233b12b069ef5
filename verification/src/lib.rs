//! A forward-only cursor over the tokens of an XML text.
//!
//! [`StreamReader`] walks the tokens that `xmlparser` cuts a text into, or tokens that
//! are given to it, and answers questions about the token it stands on: its name, its
//! attributes, its text, its depth.
//! [`SubTreeReader`] confines a reader to one element and reports the end of the input
//! where that element ends. A text of `u32::MAX` bytes or more is refused: the tokenizer
//! could not count its lines.
//!
//! What the reader does is stated over a mathematical model of it, in [`model`]; what
//! holds of that model whatever the text is proved in [`laws`]. What is taken from
//! `xmlparser` on trust stands in [`lexer`].

pub mod error;
pub mod laws;
pub mod lexer;
pub mod model;
pub mod reader;
pub mod subtree;
pub mod text;
pub mod token;

pub use error::Error;
pub use lexer::Lexeme;
pub use reader::StreamReader;
pub use subtree::SubTreeReader;
pub use token::ElementEnd;
pub use token::TextPos;
pub use token::Token;
pub use token::TokenKind;
