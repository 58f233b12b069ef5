//! The tokens an XML text is cut into, as plain values.

use vstd::prelude::*;
use vstd::string::StringExecFns;
use crate::text::decimal;
use crate::text::write_decimal;

verus! {

/// A place in the text: line and column, both counted from 1.
#[derive(Clone, Copy, Debug, PartialEq, Eq, Hash, Structural)]
pub struct TextPos {
    /// The line.
    pub row: u32,
    /// The column, in characters.
    pub col: u32,
}

impl TextPos {
    /// The place in words: line, colon, column.
    pub open spec fn spec_describe(self) -> Seq<char> {
        decimal(self.row as nat) + seq![':'] + decimal(self.col as nat)
    }

    /// The place in words: line, colon, column.
    pub fn describe(&self) -> (words: String)
        ensures
            words@ == self.spec_describe(),
    {
        proof {
            reveal_strlit(":");
        }
        let mut words = write_decimal(self.row);
        words.append(":");
        let col = write_decimal(self.col);
        words.append(col.as_str());
        words
    }
}

/// The twelve shapes a token can take.
#[derive(Clone, Copy, Debug, PartialEq, Eq, Hash, Structural)]
pub enum TokenKind {
    /// `<?xml version='1.0'?>`
    Declaration,
    /// `<?target content?>`
    ProcessingInstruction,
    /// `<!-- text -->`
    Comment,
    /// `<!DOCTYPE name [`
    DtdStart,
    /// `<!DOCTYPE name>`
    EmptyDtd,
    /// `<!ENTITY name "value">`
    EntityDeclaration,
    /// `]>`
    DtdEnd,
    /// `<prefix:local`
    ElementStart,
    /// `prefix:local="value"`
    Attribute,
    /// `>`, `/>` or `</prefix:local>`
    ElementEnd,
    /// The characters between two tags.
    Text,
    /// `<![CDATA[text]]>`
    Cdata,
}

/// How a tag ends.
#[derive(Clone, Copy, Debug, PartialEq, Eq, Hash)]
pub enum ElementEnd<'a> {
    /// `>`: the start tag is complete and children follow.
    Open,
    /// `</prefix:local>`: the element is closed.
    Close(&'a str, &'a str),
    /// `/>`: the element has no children.
    Empty,
}

/// One lexical unit of the text. `start` is the byte offset at which the unit begins.
#[derive(Clone, Copy, Debug, PartialEq, Eq, Hash)]
pub enum Token<'a> {
    /// `<?xml version='1.0'?>`
    Declaration { start: usize },
    /// `<?target content?>`
    ProcessingInstruction { start: usize },
    /// `<!-- text -->`
    Comment { text: &'a str, start: usize },
    /// `<!DOCTYPE name [`
    DtdStart { start: usize },
    /// `<!DOCTYPE name>`
    EmptyDtd { start: usize },
    /// `<!ENTITY name "value">`
    EntityDeclaration { start: usize },
    /// `]>`
    DtdEnd { start: usize },
    /// `<prefix:local`: the name of a start tag.
    ElementStart { prefix: &'a str, local: &'a str, start: usize },
    /// `prefix:local="value"`: an attribute of a start tag.
    Attribute { prefix: &'a str, local: &'a str, value: &'a str, start: usize },
    /// The end of a start tag, or a closing tag.
    ElementEnd { end: ElementEnd<'a>, start: usize },
    /// The characters between two tags.
    Text { text: &'a str, start: usize },
    /// `<![CDATA[text]]>`
    Cdata { text: &'a str, start: usize },
}

impl<'a> Token<'a> {
    /// The shape of the token.
    pub open spec fn spec_kind(self) -> TokenKind {
        match self {
            Token::Declaration { .. } => TokenKind::Declaration,
            Token::ProcessingInstruction { .. } => TokenKind::ProcessingInstruction,
            Token::Comment { .. } => TokenKind::Comment,
            Token::DtdStart { .. } => TokenKind::DtdStart,
            Token::EmptyDtd { .. } => TokenKind::EmptyDtd,
            Token::EntityDeclaration { .. } => TokenKind::EntityDeclaration,
            Token::DtdEnd { .. } => TokenKind::DtdEnd,
            Token::ElementStart { .. } => TokenKind::ElementStart,
            Token::Attribute { .. } => TokenKind::Attribute,
            Token::ElementEnd { .. } => TokenKind::ElementEnd,
            Token::Text { .. } => TokenKind::Text,
            Token::Cdata { .. } => TokenKind::Cdata,
        }
    }

    /// The byte offset at which the token begins.
    pub open spec fn spec_start(self) -> usize {
        match self {
            Token::Declaration { start } => start,
            Token::ProcessingInstruction { start } => start,
            Token::Comment { start, .. } => start,
            Token::DtdStart { start } => start,
            Token::EmptyDtd { start } => start,
            Token::EntityDeclaration { start } => start,
            Token::DtdEnd { start } => start,
            Token::ElementStart { start, .. } => start,
            Token::Attribute { start, .. } => start,
            Token::ElementEnd { start, .. } => start,
            Token::Text { start, .. } => start,
            Token::Cdata { start, .. } => start,
        }
    }

    /// `>` at the end of a start tag.
    pub open spec fn is_open(self) -> bool {
        self matches Token::ElementEnd { end: ElementEnd::Open, .. }
    }

    /// `/>` at the end of a start tag.
    pub open spec fn is_empty_end(self) -> bool {
        self matches Token::ElementEnd { end: ElementEnd::Empty, .. }
    }

    /// A closing tag.
    pub open spec fn is_close(self) -> bool {
        self matches Token::ElementEnd { end: ElementEnd::Close(..), .. }
    }

    /// The end of an element: a closing tag, or `/>`.
    pub open spec fn ends_element(self) -> bool {
        self.is_close() || self.is_empty_end()
    }

    /// Inside a start tag: its name, one of its attributes, or the `>` that completes it.
    pub open spec fn in_start_tag(self) -> bool {
        self is ElementStart || self is Attribute || self.is_open()
    }

    /// The local name of a start tag or of a closing tag.
    pub open spec fn name(self) -> Option<&'a str> {
        match self {
            Token::ElementStart { local, .. } => Some(local),
            Token::ElementEnd { end: ElementEnd::Close(_, local), .. } => Some(local),
            _ => None,
        }
    }

    /// A run of text: plain, or in a CDATA section.
    pub open spec fn is_text_run(self) -> bool {
        self is Text || self is Cdata
    }

    /// The characters of a run of text.
    pub open spec fn text_run(self) -> Option<&'a str> {
        match self {
            Token::Text { text, .. } => Some(text),
            Token::Cdata { text, .. } => Some(text),
            _ => None,
        }
    }

    /// A token that says nothing about the text of an element: a comment, a processing
    /// instruction, or the `>` of the start tag.
    pub open spec fn is_quiet(self) -> bool {
        self is Comment || self is ProcessingInstruction || self.is_open()
    }

    /// The characters of a text run, a CDATA section or a comment.
    pub open spec fn content(self) -> Option<&'a str> {
        match self {
            Token::Text { text, .. } => Some(text),
            Token::Cdata { text, .. } => Some(text),
            Token::Comment { text, .. } => Some(text),
            _ => None,
        }
    }

    /// Prefix and local name of a start tag or of an attribute.
    pub open spec fn qname(self) -> Option<(&'a str, &'a str)> {
        match self {
            Token::ElementStart { prefix, local, .. } => Some((prefix, local)),
            Token::Attribute { prefix, local, .. } => Some((prefix, local)),
            _ => None,
        }
    }

    /// How the tag ends, for the end of a start tag and for a closing tag.
    pub open spec fn end(self) -> Option<ElementEnd<'a>> {
        match self {
            Token::ElementEnd { end, .. } => Some(end),
            _ => None,
        }
    }

    /// The string a token carries besides its name: the characters of a comment, of a
    /// run of text or of a CDATA section, and the value of an attribute.
    pub open spec fn payload(self) -> Option<&'a str> {
        match self {
            Token::Comment { text, .. } => Some(text),
            Token::Text { text, .. } => Some(text),
            Token::Cdata { text, .. } => Some(text),
            Token::Attribute { value, .. } => Some(value),
            _ => None,
        }
    }

    /// The local name of an attribute.
    pub open spec fn attr_name(self) -> Option<&'a str> {
        match self {
            Token::Attribute { local, .. } => Some(local),
            _ => None,
        }
    }

    /// The value of an attribute.
    pub open spec fn attr_value(self) -> Option<&'a str> {
        match self {
            Token::Attribute { value, .. } => Some(value),
            _ => None,
        }
    }

    /// An attribute whose local name is `name`.
    pub open spec fn is_attr_named(self, name: Seq<char>) -> bool {
        self matches Token::Attribute { local, .. } && local@ == name
    }

    /// The shape of the token.
    #[verifier::when_used_as_spec(spec_kind)]
    pub fn kind(self) -> (k: TokenKind)
        ensures
            k == self.spec_kind(),
    {
        match self {
            Token::Declaration { .. } => TokenKind::Declaration,
            Token::ProcessingInstruction { .. } => TokenKind::ProcessingInstruction,
            Token::Comment { .. } => TokenKind::Comment,
            Token::DtdStart { .. } => TokenKind::DtdStart,
            Token::EmptyDtd { .. } => TokenKind::EmptyDtd,
            Token::EntityDeclaration { .. } => TokenKind::EntityDeclaration,
            Token::DtdEnd { .. } => TokenKind::DtdEnd,
            Token::ElementStart { .. } => TokenKind::ElementStart,
            Token::Attribute { .. } => TokenKind::Attribute,
            Token::ElementEnd { .. } => TokenKind::ElementEnd,
            Token::Text { .. } => TokenKind::Text,
            Token::Cdata { .. } => TokenKind::Cdata,
        }
    }

    /// The byte offset at which the token begins.
    #[verifier::when_used_as_spec(spec_start)]
    pub fn start(self) -> (at: usize)
        ensures
            at == self.spec_start(),
    {
        match self {
            Token::Declaration { start } => start,
            Token::ProcessingInstruction { start } => start,
            Token::Comment { start, .. } => start,
            Token::DtdStart { start } => start,
            Token::EmptyDtd { start } => start,
            Token::EntityDeclaration { start } => start,
            Token::DtdEnd { start } => start,
            Token::ElementStart { start, .. } => start,
            Token::Attribute { start, .. } => start,
            Token::ElementEnd { start, .. } => start,
            Token::Text { start, .. } => start,
            Token::Cdata { start, .. } => start,
        }
    }
}

} // verus!
