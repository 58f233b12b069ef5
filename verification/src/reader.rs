//! The reader: a cursor that walks the tokens of an XML text from front to back.

use vstd::prelude::*;
use vstd::std_specs::convert::FromSpecImpl;
use vstd::string::StringSliceAdditionalSpecFns;
use xmlparser::Tokenizer;
use crate::error::Error;
use crate::laws::lemma_advance_reads_forward;
use crate::laws::lemma_advance_to_tag_reads_forward;
use crate::laws::lemma_element_text_reads_forward;
use crate::laws::lemma_fill_reads_forward;
use crate::laws::lemma_is_empty_element_reads_forward;
use crate::laws::lemma_skip_element_reads_forward;
use crate::lexer::locate;
use crate::lexer::lower;
use crate::lexer::pending;
use crate::lexer::pull;
use crate::lexer::text_len;
use crate::lexer::tokenizer;
use crate::lexer::tokens_of;
use crate::lexer::Lexeme;
use crate::model::position;
use crate::model::Cursor;
use crate::text::same_text;
use crate::token::ElementEnd;
use crate::token::TextPos;
use crate::token::Token;

verus! {

/// A tokenizer at work on a text that it can be asked to cut.
struct Live<'input> {
    r: Tokenizer<'input>,
}

impl<'input> Live<'input> {
    /// The text has fewer than `u32::MAX` bytes.
    #[verifier::type_invariant]
    spec fn within_reach(self) -> bool {
        text_len(self.r) < u32::MAX
    }

    /// The items yet to come, in order.
    closed spec fn rest(self) -> Seq<Lexeme<'input>> {
        pending(self.r)
    }

    /// A tokenizer for `text`.
    fn new(text: &'input str) -> (live: Live<'input>)
        requires
            text.spec_bytes().len() < u32::MAX,
        ensures
            live.rest() == tokens_of(text@),
    {
        Live { r: tokenizer(text) }
    }

    /// Takes the next item, if there is one.
    fn take(&mut self) -> (item: Option<Lexeme<'input>>)
        ensures
            match item {
                Some(first) => old(self).rest().len() > 0 && first == old(self).rest()[0]
                    && final(self).rest() == old(self).rest().skip(1),
                None => old(self).rest().len() == 0 && final(self).rest() == old(self).rest(),
            },
    {
        proof {
            use_type_invariant(&*self);
        }
        match pull(&mut self.r) {
            Some(Ok(raw)) => Some(Ok(lower(&raw))),
            Some(Err(e)) => Some(Err(e)),
            None => None,
        }
    }
}

/// Where the tokens of a reader come from.
enum Source<'input> {
    /// From a tokenizer at work on the text.
    Tokenizer(Live<'input>),
    /// From a list made in advance, of which so many items are gone.
    Given(Vec<Lexeme<'input>>, usize),
    /// From nowhere: the text is too long for the tokenizer.
    Refused,
}

impl<'input> Source<'input> {
    /// The items yet to come, in order.
    spec fn rest(self) -> Seq<Lexeme<'input>> {
        match self {
            Source::Tokenizer(live) => live.rest(),
            Source::Given(items, gone) => if gone <= items@.len() {
                items@.skip(gone as int)
            } else {
                Seq::empty()
            },
            Source::Refused => Seq::empty(),
        }
    }

    /// Takes the next item, if there is one.
    fn take(&mut self) -> (item: Option<Lexeme<'input>>)
        ensures
            (*final(self) is Refused) == (*old(self) is Refused),
            match item {
                Some(first) => old(self).rest().len() > 0 && first == old(self).rest()[0]
                    && final(self).rest() == old(self).rest().skip(1),
                None => old(self).rest().len() == 0 && final(self).rest() == old(self).rest(),
            },
    {
        match self {
            Source::Tokenizer(live) => live.take(),
            Source::Given(items, gone) => {
                if *gone < items.len() {
                    let item = items[*gone];
                    *gone += 1;
                    Some(item)
                } else {
                    None
                }
            },
            Source::Refused => None,
        }
    }
}

/// XML stream reader
///
/// The reader stands on one token at a time, or on none: before the first move and
/// after the last. It only ever moves forward. Its state, as contracts speak of it, is
/// the [`Cursor`] that `@` gives.
pub struct StreamReader<'input> {
    s: &'input str,
    r: Source<'input>,
    t: Option<Token<'input>>,
    attrs: Vec<Token<'input>>,
    depth: usize,
}

impl<'input> View for StreamReader<'input> {
    type V = Cursor<'input>;

    closed spec fn view(&self) -> Cursor<'input> {
        Cursor {
            text: self.s@,
            pending: self.r.rest(),
            current: self.t,
            attrs: self.attrs@,
            depth: self.depth as nat,
            refused: self.r is Refused,
        }
    }
}

impl<'input> From<&'input str> for StreamReader<'input> {
    /// A reader at the start of `text`: it stands on no token yet. A text of `u32::MAX`
    /// bytes or more is too long for the tokenizer, which counts lines and columns in
    /// `u32`: the reader of such a text refuses to read, and every move is an error.
    fn from(text: &'input str) -> (reader: StreamReader<'input>)
        ensures
            reader@ == Cursor::start(text@),
    {
        let source = if text.as_bytes().len() < u32::MAX as usize {
            Source::Tokenizer(Live::new(text))
        } else {
            Source::Refused
        };
        StreamReader { s: text, r: source, t: None, attrs: Vec::new(), depth: 0 }
    }
}

impl<'input> FromSpecImpl<&'input str> for StreamReader<'input> {
    /// A reader holds a tokenizer, of which no specification can build a value: what
    /// `from` returns is stated on `from` itself.
    open spec fn obeys_from_spec() -> bool {
        false
    }

    open spec fn from_spec(text: &'input str) -> StreamReader<'input> {
        arbitrary()
    }
}

impl<'input> StreamReader<'input> {
    /// A reader at the start of a text that has been cut into tokens already: it hands
    /// out `tokens` in their order and looks up places in `text`.
    pub fn from_tokens(text: &'input str, tokens: Vec<Lexeme<'input>>) -> (reader: StreamReader<
        'input,
    >)
        ensures
            reader@ == Cursor::start_on(text@, tokens@),
    {
        StreamReader { s: text, r: Source::Given(tokens, 0), t: None, attrs: Vec::new(), depth: 0 }
    }

    /// Line and column of a token in the text that is read: `None` for no token, and
    /// for a token whose place cannot be computed: its offset falls inside a character,
    /// or the text has `u32::MAX` bytes or more. Neither happens to a token of the
    /// tokenizer.
    fn text_pos_at(&self, token: &Option<Token<'input>>) -> (pos: Option<TextPos>)
        ensures
            pos == position(self@.text, *token),
    {
        match token {
            Some(t) => {
                let offset = t.start();
                let len = self.s.as_bytes().len();
                if len < u32::MAX as usize && (offset >= len || self.s.is_char_boundary(offset)) {
                    Some(locate(self.s, offset))
                } else {
                    None
                }
            },
            None => None,
        }
    }

    /// Takes the next token from the tokenizer and lets the depth follow it. The current
    /// token stays. A reader that refuses to read takes nothing.
    fn next_token(&mut self) -> (out: Result<Option<Token<'input>>, Error>)
        ensures
            final(self)@ == old(self)@.pull().0,
            out == old(self)@.pull().1,
    {
        if let Source::Refused = self.r {
            return Err(Error::Unexpected(None));
        }
        match self.r.take() {
            None => Ok(None),
            Some(Err(e)) => Err(Error::ParserError(e)),
            Some(Ok(token)) => {
                match token {
                    Token::ElementEnd { end: ElementEnd::Open, .. } => {
                        if self.depth == usize::MAX {
                            return Err(Error::Unexpected(self.text_pos_at(&Some(token))));
                        }
                        self.depth += 1;
                    },
                    Token::ElementEnd { end: ElementEnd::Close(..), .. } => {
                        if self.depth == 0 {
                            return Err(Error::Unexpected(self.text_pos_at(&Some(token))));
                        }
                        self.depth -= 1;
                    },
                    _ => {},
                }
                Ok(Some(token))
            },
        }
    }

    /// The error for a request that the current token cannot serve.
    pub fn unexpected(&self) -> (error: Error)
        ensures
            error == self@.unexpected(),
    {
        Error::Unexpected(self.text_pos_at(&self.t))
    }

    /// depth of the node in the tree: the number of elements that are open where the
    /// reader stands. The `>` of a start tag counts its element in, a closing tag counts
    /// its element out.
    pub fn depth(&self) -> (depth: usize)
        ensures
            depth == self@.depth,
    {
        self.depth
    }

    /// get next token
    ///
    /// The token becomes current, and the name of a start tag empties the attribute
    /// buffer. At the end of the input this returns `None`, and the reader stands on no
    /// token. Where the text is not well-formed the tokenizer's error is returned; a
    /// token that would take the depth below zero or beyond `usize::MAX` is refused as
    /// unexpected, and so is every move of a reader that refuses to read. After an
    /// error the current token is the one before.
    pub fn next(&mut self) -> (out: Result<Option<Token<'input>>, Error>)
        ensures
            final(self)@.follows(old(self)@),
            final(self)@ == old(self)@.advance().0,
            out == old(self)@.advance().1,
    {
        proof {
            lemma_advance_reads_forward(old(self)@);
        }
        let token = self.next_token()?;
        self.t = token;
        if let Some(Token::ElementStart { .. }) = self.t {
            self.attrs.clear();
        }
        Ok(token)
    }

    /// Makes the buffer hold the attributes of the current start tag. On the name of a
    /// start tag the attributes are read into the buffer, and the token behind them
    /// becomes current; on the `>` or `/>` of a start tag the buffer is left as it is.
    /// On any other token this is an error.
    fn fill_attrs(&mut self) -> (out: Result<(), Error>)
        ensures
            final(self)@ == old(self)@.fill().0,
            out == old(self)@.fill().1,
    {
        match self.t {
            Some(Token::ElementStart { .. }) => {
                loop
                    invariant
                        self@.gather() == old(self)@.fill(),
                    decreases self@.pending.len(),
                {
                    match self.next_token()? {
                        Some(token) => match token {
                            Token::Attribute { .. } => self.attrs.push(token),
                            _ => {
                                self.t = Some(token);
                                return Ok(());
                            },
                        },
                        None => {
                            return Ok(());
                        },
                    }
                }
            },
            Some(Token::ElementEnd { end: ElementEnd::Open, .. }) => Ok(()),
            Some(Token::ElementEnd { end: ElementEnd::Empty, .. }) => Ok(()),
            _ => Err(self.unexpected()),
        }
    }

    /// number of attributes of the current element
    ///
    /// The first question about attributes reads them; see `fill` of [`Cursor`].
    pub fn attribute_count(&mut self) -> (out: Result<usize, Error>)
        ensures
            final(self)@.follows(old(self)@),
            final(self)@ == old(self)@.fill().0,
            match out {
                Ok(count) => old(self)@.fill().1 is Ok && count == final(self)@.attrs.len(),
                Err(e) => old(self)@.fill().1 == Err::<(), Error>(e),
            },
    {
        proof {
            lemma_fill_reads_forward(old(self)@);
        }
        self.fill_attrs()?;
        Ok(self.attrs.len())
    }

    /// name of `i`th attribute, `None` if there are no more than `i`
    pub fn attribute_name(&mut self, i: usize) -> (out: Result<Option<&'input str>, Error>)
        ensures
            final(self)@.follows(old(self)@),
            final(self)@ == old(self)@.fill().0,
            match out {
                Ok(name) => old(self)@.fill().1 is Ok && name == final(self)@.attribute_name(
                    i as int,
                ),
                Err(e) => old(self)@.fill().1 == Err::<(), Error>(e),
            },
    {
        proof {
            lemma_fill_reads_forward(old(self)@);
        }
        self.fill_attrs()?;
        if i < self.attrs.len() {
            match self.attrs[i] {
                Token::Attribute { local, .. } => Ok(Some(local)),
                _ => Ok(None),
            }
        } else {
            Ok(None)
        }
    }

    /// value of `i`th attribute, `None` if there are no more than `i`
    pub fn attribute_value(&mut self, i: usize) -> (out: Result<Option<&'input str>, Error>)
        ensures
            final(self)@.follows(old(self)@),
            final(self)@ == old(self)@.fill().0,
            match out {
                Ok(value) => old(self)@.fill().1 is Ok && value == final(self)@.attribute_value(
                    i as int,
                ),
                Err(e) => old(self)@.fill().1 == Err::<(), Error>(e),
            },
    {
        proof {
            lemma_fill_reads_forward(old(self)@);
        }
        self.fill_attrs()?;
        if i < self.attrs.len() {
            match self.attrs[i] {
                Token::Attribute { value, .. } => Ok(Some(value)),
                _ => Ok(None),
            }
        } else {
            Ok(None)
        }
    }

    /// value of attribute named `name` (local name): of the first one, if several have
    /// that name; `None` if none has
    pub fn attribute(&mut self, name: &str) -> (out: Result<Option<&'input str>, Error>)
        ensures
            final(self)@.follows(old(self)@),
            final(self)@ == old(self)@.fill().0,
            match out {
                Ok(value) => old(self)@.fill().1 is Ok && final(self)@.is_attribute(name@, value),
                Err(e) => old(self)@.fill().1 == Err::<(), Error>(e),
            },
    {
        proof {
            lemma_fill_reads_forward(old(self)@);
        }
        self.fill_attrs()?;
        let mut i: usize = 0;
        while i < self.attrs.len()
            invariant
                i <= self.attrs.len(),
                self@ == old(self)@.fill().0,
                self@.follows(old(self)@),
                old(self)@.fill().1 is Ok,
                forall|j: int| 0 <= j < i ==> !(#[trigger] self@.attrs[j]).is_attr_named(name@),
            decreases self.attrs.len() - i,
        {
            if let Token::Attribute { local, value, .. } = self.attrs[i] {
                if same_text(local, name) {
                    assert(self@.is_first_named(name@, i as int));
                    return Ok(Some(value));
                }
            }
            i += 1;
        }
        Ok(None)
    }

    /// `true` if the reader stands inside a start tag: on its name, on one of its
    /// attributes, or on the `>` that completes it
    pub fn is_start_element(&self) -> (inside: bool)
        ensures
            inside == self@.in_start_tag(),
    {
        matches!(
            self.t,
            Some(
                Token::ElementStart { .. } | Token::Attribute { .. } | Token::ElementEnd {
                    end: ElementEnd::Open,
                    ..
                },
            )
        )
    }

    /// `true` if the reader stands on the `/>` of an element without children
    pub fn is_empty_token(&self) -> (empty: bool)
        ensures
            empty == self@.on_empty_end(),
    {
        matches!(self.t, Some(Token::ElementEnd { end: ElementEnd::Empty, .. }))
    }

    /// `true` if the reader stands on the end of an element: a closing tag, or `/>`
    pub fn is_end_token(&self) -> (end: bool)
        ensures
            end == (self@.current matches Some(token) && token.ends_element()),
    {
        matches!(
            self.t,
            Some(
                Token::ElementEnd { end: ElementEnd::Empty | ElementEnd::Close(..), .. },
            )
        )
    }

    /// The token the reader stands on.
    pub fn current(&self) -> (token: Option<Token<'input>>)
        ensures
            token == self@.current,
    {
        self.t
    }

    /// The depth at which the element of the current start tag was met, if the reader
    /// stands inside a start tag.
    pub fn start_depth(&self) -> (anchor: Option<usize>)
        ensures
            match anchor {
                Some(depth) => self@.anchor() == Some(depth as nat),
                None => self@.anchor() is None,
            },
    {
        match self.t {
            Some(Token::ElementStart { .. }) | Some(Token::Attribute { .. }) => Some(self.depth),
            Some(Token::ElementEnd { end: ElementEnd::Open, .. }) => {
                if self.depth > 0 {
                    Some(self.depth - 1)
                } else {
                    None
                }
            },
            _ => None,
        }
    }

    /// read the content of a text-only element,
    /// an error is thrown if this is not a text-only element.
    ///
    /// Inside a start tag this reads on to the end of the element and returns its one
    /// run of text: the empty string if the element has none, `None` if the element
    /// ends in `/>`. Attributes of the start tag that have not been read yet go into
    /// the buffer; comments and processing instructions are passed over. A second run
    /// of text or a child element is an error, and so is a declaration or a token of a
    /// document type. On `/>` this returns `None` at once; on any other token it is an
    /// error.
    pub fn element_text(&mut self) -> (out: Result<Option<&'input str>, Error>)
        ensures
            final(self)@.follows(old(self)@),
            final(self)@ == old(self)@.element_text().0,
            out == old(self)@.element_text().1,
    {
        proof {
            lemma_element_text_reads_forward(old(self)@);
        }
        if !self.is_start_element() {
            if self.is_empty_token() {
                return Ok(None);
            }
            Err(self.unexpected())
        } else {
            let mut txt: Option<&'input str> = None;
            loop
                invariant
                    self@.read_text(txt) == old(self)@.element_text(),
                    old(self)@.element_text().0.follows(old(self)@),
                decreases self@.pending.len(),
            {
                match self.next()? {
                    Some(Token::Text { text, .. }) | Some(Token::Cdata { text, .. }) => {
                        if txt.is_none() {
                            txt = Some(text);
                        } else {
                            return Err(self.unexpected());
                        }
                    },
                    Some(Token::Attribute { prefix, local, value, start }) => {
                        self.attrs.push(Token::Attribute { prefix, local, value, start });
                    },
                    Some(Token::Comment { .. }) | Some(Token::ProcessingInstruction { .. }) => {},
                    Some(Token::ElementEnd { end, .. }) => match end {
                        ElementEnd::Open => {},
                        ElementEnd::Empty => {
                            return Ok(txt);
                        },
                        ElementEnd::Close(..) => {
                            if txt.is_none() {
                                txt = Some("");
                            }
                            return Ok(txt);
                        },
                    },
                    Some(_) => {
                        return Err(self.unexpected());
                    },
                    None => {
                        return Ok(txt);
                    },
                }
            }
        }
    }

    /// `true` if the current token has a name
    pub fn has_name(&self) -> (named: bool)
        ensures
            named == (self@.current matches Some(token) && token.name() is Some),
    {
        matches!(
            self.t,
            Some(
                Token::ElementStart { .. } | Token::ElementEnd { end: ElementEnd::Close(..), .. },
            )
        )
    }

    /// return the (local) name of the current token,
    /// an error is thrown if this is not a named element.
    pub fn local_name(&self) -> (out: Result<&'input str, Error>)
        ensures
            out == match self@.current {
                Some(token) if token.name() is Some => Ok::<&str, Error>(token.name().unwrap()),
                _ => Err::<&str, Error>(self@.unexpected()),
            },
    {
        match self.t {
            Some(Token::ElementStart { local, .. }) => Ok(local),
            Some(Token::ElementEnd { end: ElementEnd::Close(_, local), .. }) => Ok(local),
            _ => Err(self.unexpected()),
        }
    }

    /// element ending with "/>"
    ///
    /// On the name of a start tag this reads the attributes into the buffer and tells
    /// whether `/>` follows them; on an attribute it moves past the attributes that
    /// follow and tells the same; on any other token it moves nothing and tells
    /// whether that token is `/>`.
    pub fn is_empty_element(&mut self) -> (out: Result<bool, Error>)
        ensures
            final(self)@.follows(old(self)@),
            final(self)@ == old(self)@.is_empty_element().0,
            out == old(self)@.is_empty_element().1,
    {
        proof {
            lemma_is_empty_element_reads_forward(old(self)@);
        }
        match self.t {
            Some(Token::ElementStart { .. }) => {
                self.fill_attrs()?;
                Ok(self.is_empty_token())
            },
            Some(Token::Attribute { .. }) => {
                loop
                    invariant
                        self@.pass_attributes() == old(self)@.is_empty_element(),
                        old(self)@.is_empty_element().0.follows(old(self)@),
                    decreases self@.pending.len(),
                {
                    match self.next()? {
                        Some(Token::Attribute { .. }) => {},
                        _ => {
                            return Ok(self.is_empty_token());
                        },
                    }
                }
            },
            _ => Ok(self.is_empty_token()),
        }
    }

    /// go to next tag: moves until the name of a start tag is current, or the input ends
    pub fn next_tag(&mut self) -> (out: Result<Option<Token<'input>>, Error>)
        ensures
            final(self)@.follows(old(self)@),
            final(self)@ == old(self)@.advance_to_tag().0,
            out == old(self)@.advance_to_tag().1,
    {
        proof {
            lemma_advance_to_tag_reads_forward(old(self)@);
        }
        loop
            invariant
                self@.advance_to_tag() == old(self)@.advance_to_tag(),
                old(self)@.advance_to_tag().0.follows(old(self)@),
            decreases self@.pending.len(),
        {
            match self.next()? {
                Some(Token::ElementStart { .. }) | None => {
                    return Ok(self.t);
                },
                Some(_) => {},
            }
        }
    }

    /// skip all the contents of the current element
    ///
    /// Inside a start tag this reads on to the token that ends the element, a closing
    /// tag or `/>` at the depth at which the start tag was met, and stands on it. If
    /// the input ends first, the current token stays. On any other token it is an error.
    pub fn skip_element(&mut self) -> (out: Result<(), Error>)
        ensures
            final(self)@.follows(old(self)@),
            final(self)@ == old(self)@.skip_element().0,
            out == old(self)@.skip_element().1,
    {
        proof {
            lemma_skip_element_reads_forward(old(self)@);
        }
        let anchor = match self.start_depth() {
            Some(depth) => depth,
            None => {
                return Err(self.unexpected());
            },
        };
        loop
            invariant
                self@.seek_end(anchor as nat) == old(self)@.skip_element(),
                old(self)@.skip_element().0.follows(old(self)@),
            decreases self@.pending.len(),
        {
            match self.next_token()? {
                Some(token) => {
                    if self.depth == anchor {
                        if let Token::ElementEnd {
                            end: ElementEnd::Empty | ElementEnd::Close(..),
                            ..
                        } = token {
                            self.t = Some(token);
                            return Ok(());
                        }
                    }
                },
                None => {
                    return Ok(());
                },
            }
        }
    }

    /// `true` if the current token has text
    pub fn has_text(&self) -> (textual: bool)
        ensures
            textual == (self@.current matches Some(token) && token.content() is Some),
    {
        matches!(self.t, Some(Token::Text { .. } | Token::Cdata { .. } | Token::Comment { .. }))
    }

    /// return the current token's string,
    /// an error is thrown if this kind of token has no text.
    pub fn text(&self) -> (out: Result<&'input str, Error>)
        ensures
            out == match self@.current {
                Some(token) if token.content() is Some => Ok::<&str, Error>(
                    token.content().unwrap(),
                ),
                _ => Err::<&str, Error>(self@.unexpected()),
            },
    {
        match self.t {
            Some(Token::Text { text, .. }) => Ok(text),
            Some(Token::Cdata { text, .. }) => Ok(text),
            Some(Token::Comment { text, .. }) => Ok(text),
            _ => Err(self.unexpected()),
        }
    }
}

} // verus!
