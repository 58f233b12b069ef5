//! The reader as a mathematical object: a cursor over a sequence of pending items.
//!
//! Every operation of the reader is a function from cursor to cursor and outcome here.
//! The executable reader is proved to follow these functions step by step.

use vstd::prelude::*;
use vstd::utf8::encode_utf8;
use vstd::utf8::is_char_boundary;
use crate::error::Error;
use crate::lexer::text_pos;
use crate::lexer::tokens_of;
use crate::lexer::Lexeme;
use crate::token::ElementEnd;
use crate::token::TextPos;
use crate::token::Token;

verus! {

/// Whether line and column of a byte offset into `text` can be computed: the offset does
/// not fall inside a character, and the text is short enough for its lines and columns
/// to fit in `u32`.
pub open spec fn locatable(text: Seq<char>, offset: usize) -> bool {
    let bytes = encode_utf8(text);
    bytes.len() < u32::MAX && (offset >= bytes.len() || is_char_boundary(bytes, offset as int))
}

/// Where a token lies in the text: nowhere if there is no token.
pub open spec fn position(text: Seq<char>, token: Option<Token>) -> Option<TextPos> {
    match token {
        Some(t) if locatable(text, t.start()) => Some(text_pos(text, t.start())),
        _ => None,
    }
}

/// The depth behind a token that is met at depth `depth`: one more behind `>`, one less
/// behind a closing tag, the same behind anything else. `None` where the count would
/// leave the range of `usize`.
pub open spec fn depth_behind(depth: nat, token: Token) -> Option<nat> {
    if token.is_open() {
        if depth < usize::MAX {
            Some(depth + 1)
        } else {
            None
        }
    } else if token.is_close() {
        if depth > 0 {
            Some((depth - 1) as nat)
        } else {
            None
        }
    } else {
        Some(depth)
    }
}

/// The state of a reader.
#[verifier::ext_equal]
pub struct Cursor<'a> {
    /// The text that is read.
    pub text: Seq<char>,
    /// What the tokenizer has yet to yield.
    pub pending: Seq<Lexeme<'a>>,
    /// The token the reader stands on.
    pub current: Option<Token<'a>>,
    /// The attributes gathered for the current start tag.
    pub attrs: Seq<Token<'a>>,
    /// The number of elements that are open.
    pub depth: nat,
    /// Whether the reader refuses to read: the text is too long for the tokenizer.
    pub refused: bool,
}

impl<'a> Cursor<'a> {
    /// Whether a text is too long for the tokenizer: it has `u32::MAX` bytes or more,
    /// so that the tokenizer cannot count its lines and columns in `u32`.
    pub open spec fn too_long(text: Seq<char>) -> bool {
        encode_utf8(text).len() >= u32::MAX
    }

    /// The reader before its first step: the tokens of the text are pending, nothing
    /// is current. A text that is too long for the tokenizer is refused, and nothing
    /// of it is pending.
    pub open spec fn start(text: Seq<char>) -> Cursor<'a> {
        Cursor {
            text,
            pending: if Self::too_long(text) {
                Seq::empty()
            } else {
                tokens_of(text)
            },
            current: None,
            attrs: Seq::empty(),
            depth: 0,
            refused: Self::too_long(text),
        }
    }

    /// The reader before its first step on tokens that are given: they are pending,
    /// nothing is current, and nothing is refused.
    pub open spec fn start_on(text: Seq<char>, tokens: Seq<Lexeme<'a>>) -> Cursor<'a> {
        Cursor {
            text,
            pending: tokens,
            current: None,
            attrs: Seq::empty(),
            depth: 0,
            refused: false,
        }
    }

    /// The error for a request that the current token cannot serve.
    pub open spec fn unexpected(self) -> Error {
        Error::Unexpected(position(self.text, self.current))
    }

    /// Takes the first pending item. A token moves the depth as `depth_behind` says and
    /// is handed out; a token that the depth cannot follow is dropped with an error at
    /// its place; an error of the tokenizer is handed on. The current token stays. A
    /// reader that refuses to read takes nothing: that is an error.
    pub open spec fn pull(self) -> (Cursor<'a>, Result<Option<Token<'a>>, Error>) {
        if self.refused {
            (self, Err(Error::Unexpected(None)))
        } else if self.pending.len() == 0 {
            (self, Ok(None))
        } else {
            let rest = Cursor { pending: self.pending.skip(1), ..self };
            match self.pending[0] {
                Err(e) => (rest, Err(Error::ParserError(e))),
                Ok(token) => match depth_behind(self.depth, token) {
                    Some(depth) => (Cursor { depth, ..rest }, Ok(Some(token))),
                    None => (rest, Err(Error::Unexpected(position(self.text, Some(token))))),
                },
            }
        }
    }

    /// Moves to the next token, which becomes current; a start tag empties the
    /// attribute buffer. At the end of the input the current token becomes `None`. On an
    /// error the current token stays.
    pub open spec fn advance(self) -> (Cursor<'a>, Result<Option<Token<'a>>, Error>) {
        let (next, pulled) = self.pull();
        match pulled {
            Ok(Some(token)) if token is ElementStart => (
                Cursor { current: Some(token), attrs: Seq::empty(), ..next },
                pulled,
            ),
            Ok(token) => (Cursor { current: token, ..next }, pulled),
            Err(_) => (next, pulled),
        }
    }

    /// Moves on until a start tag is current, or the input ends.
    pub open spec fn advance_to_tag(self) -> (Cursor<'a>, Result<Option<Token<'a>>, Error>)
        decreases self.pending.len(),
    {
        let (next, moved) = self.advance();
        match moved {
            Ok(Some(token)) if !(token is ElementStart) => next.advance_to_tag(),
            _ => (next, moved),
        }
    }

    /// Whether the reader stands inside a start tag.
    pub open spec fn in_start_tag(self) -> bool {
        self.current matches Some(token) && token.in_start_tag()
    }

    /// Whether the reader stands on the `/>` of an element without children.
    pub open spec fn on_empty_end(self) -> bool {
        self.current matches Some(token) && token.is_empty_end()
    }

    /// Takes pending attributes into the buffer, one by one. The first token that is no
    /// attribute ends the run and becomes current. The end of the input ends the run too,
    /// and so does an error.
    pub open spec fn gather(self) -> (Cursor<'a>, Result<(), Error>)
        decreases self.pending.len(),
    {
        let (next, pulled) = self.pull();
        match pulled {
            Ok(Some(token)) if token is Attribute => Cursor {
                attrs: next.attrs.push(token),
                ..next
            }.gather(),
            Ok(Some(token)) => (Cursor { current: Some(token), ..next }, Ok(())),
            Ok(None) => (next, Ok(())),
            Err(e) => (next, Err(e)),
        }
    }

    /// Makes the attribute buffer hold the attributes of the current start tag. On the
    /// name of a start tag the attributes are gathered; on the `>` or `/>` behind them
    /// nothing is left to do; on any other token this is an error.
    pub open spec fn fill(self) -> (Cursor<'a>, Result<(), Error>) {
        match self.current {
            Some(Token::ElementStart { .. }) => self.gather(),
            Some(Token::ElementEnd { end: ElementEnd::Open, .. }) => (self, Ok(())),
            Some(Token::ElementEnd { end: ElementEnd::Empty, .. }) => (self, Ok(())),
            _ => (self, Err(self.unexpected())),
        }
    }

    /// The local name of the `i`th attribute in the buffer.
    pub open spec fn attribute_name(self, i: int) -> Option<&'a str> {
        if 0 <= i < self.attrs.len() {
            self.attrs[i].attr_name()
        } else {
            None
        }
    }

    /// The value of the `i`th attribute in the buffer.
    pub open spec fn attribute_value(self, i: int) -> Option<&'a str> {
        if 0 <= i < self.attrs.len() {
            self.attrs[i].attr_value()
        } else {
            None
        }
    }

    /// Whether the `i`th attribute in the buffer is the first one named `name`.
    pub open spec fn is_first_named(self, name: Seq<char>, i: int) -> bool {
        &&& 0 <= i < self.attrs.len()
        &&& self.attrs[i].is_attr_named(name)
        &&& forall|j: int| 0 <= j < i ==> !(#[trigger] self.attrs[j]).is_attr_named(name)
    }

    /// Whether `value` is the value of the first attribute in the buffer named `name`;
    /// for `None`, whether there is no such attribute.
    pub open spec fn is_attribute(self, name: Seq<char>, value: Option<&'a str>) -> bool {
        match value {
            Some(v) => exists|i: int| #[trigger]
                self.is_first_named(name, i) && self.attrs[i].attr_value() == Some(v),
            None => forall|i: int|
                0 <= i < self.attrs.len() ==> !(#[trigger] self.attrs[i]).is_attr_named(name),
        }
    }

    /// Whether the current start tag ends in `/>`. On the name of a start tag the
    /// attributes are gathered, and the token that ends them tells; from an attribute
    /// the reader moves on past the attributes that follow, and the token behind them
    /// tells; anywhere else the current token tells as it stands.
    pub open spec fn is_empty_element(self) -> (Cursor<'a>, Result<bool, Error>) {
        match self.current {
            Some(Token::ElementStart { .. }) => {
                let (next, gathered) = self.gather();
                match gathered {
                    Ok(()) => (next, Ok(next.on_empty_end())),
                    Err(e) => (next, Err(e)),
                }
            },
            Some(Token::Attribute { .. }) => self.pass_attributes(),
            _ => (self, Ok(self.on_empty_end())),
        }
    }

    /// Moves on until the current token is no attribute, and tells whether it is `/>`.
    pub open spec fn pass_attributes(self) -> (Cursor<'a>, Result<bool, Error>)
        decreases self.pending.len(),
    {
        let (next, moved) = self.advance();
        match moved {
            Ok(Some(token)) if token is Attribute => next.pass_attributes(),
            Ok(_) => (next, Ok(next.on_empty_end())),
            Err(e) => (next, Err(e)),
        }
    }

    /// The text of the current element. Inside a start tag the reader reads on to the
    /// end of the element, past what is left of the start tag; on `/>` there is no
    /// content, so no text; anywhere else this is an error.
    pub open spec fn element_text(self) -> (Cursor<'a>, Result<Option<&'a str>, Error>) {
        if self.in_start_tag() {
            self.read_text(None)
        } else if self.on_empty_end() {
            (self, Ok(None))
        } else {
            (self, Err(self.unexpected()))
        }
    }

    /// Reads on to the end of the element, with `seen` the text met so far. The
    /// attributes of the start tag go into the buffer as `fill` would put them there.
    /// Comments, processing instructions and the `>` of the start tag are passed over.
    /// One run of text or CDATA is taken; a second one is an error. `/>` ends the
    /// element with what was seen; a closing tag ends it with the text seen or, if none,
    /// the empty string. The name of another start tag is an error, and so is a
    /// declaration or a token of a document type. If the input ends first, what was
    /// seen is the text.
    pub open spec fn read_text(self, seen: Option<&'a str>) -> (
        Cursor<'a>,
        Result<Option<&'a str>, Error>,
    )
        decreases self.pending.len(),
    {
        let (next, moved) = self.advance();
        match moved {
            Err(e) => (next, Err(e)),
            Ok(None) => (next, Ok(seen)),
            Ok(Some(token)) => match token {
                Token::Text { text, .. } | Token::Cdata { text, .. } => if seen is None {
                    next.read_text(Some(text))
                } else {
                    (next, Err(next.unexpected()))
                },
                Token::Attribute { .. } => Cursor {
                    attrs: next.attrs.push(token),
                    ..next
                }.read_text(seen),
                Token::Comment { .. } | Token::ProcessingInstruction { .. } => next.read_text(seen),
                Token::ElementEnd { end: ElementEnd::Open, .. } => next.read_text(seen),
                Token::ElementEnd { end: ElementEnd::Empty, .. } => (next, Ok(seen)),
                Token::ElementEnd { end: ElementEnd::Close(..), .. } => if seen is None {
                    (next, Ok(Some("")))
                } else {
                    (next, Ok(seen))
                },
                _ => (next, Err(next.unexpected())),
            },
        }
    }

    /// The depth at which the element of the current start tag was met: the depth as it
    /// stands on the name or on an attribute, one less on the `>` that has already
    /// counted. `None` anywhere else.
    pub open spec fn anchor(self) -> Option<nat> {
        match self.current {
            Some(Token::ElementStart { .. }) | Some(Token::Attribute { .. }) => Some(self.depth),
            Some(Token::ElementEnd { end: ElementEnd::Open, .. }) if self.depth > 0 => Some(
                (self.depth - 1) as nat,
            ),
            _ => None,
        }
    }

    /// Whether the reader stands on the end of an element met at depth `anchor`.
    pub open spec fn at_end_of(self, anchor: nat) -> bool {
        &&& self.depth == anchor
        &&& self.current matches Some(token)
        &&& token.ends_element()
    }

    /// Takes pending tokens until one ends an element at depth `anchor`; that token
    /// becomes current. If the input ends first, the current token stays.
    pub open spec fn seek_end(self, anchor: nat) -> (Cursor<'a>, Result<(), Error>)
        decreases self.pending.len(),
    {
        let (next, pulled) = self.pull();
        match pulled {
            Err(e) => (next, Err(e)),
            Ok(None) => (next, Ok(())),
            Ok(Some(token)) => {
                let found = Cursor { current: Some(token), ..next };
                if found.at_end_of(anchor) {
                    (found, Ok(()))
                } else {
                    next.seek_end(anchor)
                }
            },
        }
    }

    /// Skips the content of the current element: inside a start tag the reader goes to
    /// the end of that element; anywhere else this is an error.
    pub open spec fn skip_element(self) -> (Cursor<'a>, Result<(), Error>) {
        match self.anchor() {
            Some(anchor) => self.seek_end(anchor),
            None => (self, Err(self.unexpected())),
        }
    }

    /// The reader after `n` moves.
    pub open spec fn moved(self, n: nat) -> Cursor<'a>
        decreases n,
    {
        if n == 0 {
            self
        } else {
            self.moved((n - 1) as nat).advance().0
        }
    }

    /// Whether each of the first `n` moves reaches a token.
    pub open spec fn moves(self, n: nat) -> bool
        decreases n,
    {
        n == 0 || (self.moves((n - 1) as nat) && self.moved((n - 1) as nat).advance().1 matches Ok(
            Some(_),
        ))
    }

    /// Whether the `k`th pending token is the first to end an element met at depth
    /// `anchor`: the reader can move to it, stands on the end of such an element once it
    /// has, and does not before.
    pub open spec fn ends_at(self, anchor: nat, k: nat) -> bool {
        &&& self.moves(k + 1)
        &&& self.moved(k + 1).at_end_of(anchor)
        &&& forall|j: nat| 1 <= j <= k ==> !(#[trigger] self.moved(j)).at_end_of(anchor)
    }

    /// Whether the attribute buffer holds attributes and nothing else.
    pub open spec fn tidy(self) -> bool {
        forall|i: int| 0 <= i < self.attrs.len() ==> (#[trigger] self.attrs[i]) is Attribute
    }

    /// What has been read since `before`: the items that were pending then and are
    /// not any more.
    pub open spec fn consumed(self, before: Cursor<'a>) -> Seq<Lexeme<'a>> {
        before.pending.take(before.pending.len() - self.pending.len())
    }

    /// Whether the reader stands where reading can have led it: on `>` the depth has
    /// counted the element in, so it is above zero; and a reader that refuses to read
    /// stands on no token.
    pub open spec fn settled(self) -> bool {
        &&& (self.current matches Some(token) && token.is_open()) ==> self.depth > 0
        &&& self.refused ==> self.current is None
    }

    /// Whether `before` can have led here by taking pending items: the text is the
    /// same; what is pending now was pending then, behind the items that have been
    /// read; a tidy buffer has stayed tidy; and the depth is where the items that have
    /// been read lead from the depth before, if the depth could follow them all.
    pub open spec fn reads(self, before: Cursor<'a>) -> bool {
        &&& self.text == before.text
        &&& self.refused == before.refused
        &&& self.pending.len() <= before.pending.len()
        &&& self.pending == before.pending.skip(before.pending.len() - self.pending.len())
        &&& before.tidy() ==> self.tidy()
        &&& depth_along(before.depth, self.consumed(before)) matches Some(depth) ==> self.depth
            == depth
    }

    /// Whether the reader can have come here from `before` by reading forward: it has
    /// read from there, and if it was settled there, it is settled here.
    pub open spec fn follows(self, before: Cursor<'a>) -> bool {
        &&& self.reads(before)
        &&& before.settled() ==> self.settled()
    }
}

/// The depth to which a run of items leads from `depth`: each token moves it as
/// `depth_behind` says, an error of the tokenizer leaves it. `None` if the depth cannot
/// follow one of the tokens.
pub open spec fn depth_along(depth: nat, items: Seq<Lexeme>) -> Option<nat>
    decreases items.len(),
{
    if items.len() == 0 {
        Some(depth)
    } else {
        match depth_along(depth, items.drop_last()) {
            Some(before) => match items.last() {
                Ok(token) => depth_behind(before, token),
                Err(_) => Some(before),
            },
            None => None,
        }
    }
}

/// What `element_text` reports when it stops at the token `last` with the text `seen`:
/// at a closing tag the text, or the empty string if there was none; at `/>` what was
/// seen; at any other token the error `refused`.
pub open spec fn text_outcome<'a>(seen: Option<&'a str>, last: Token<'a>, refused: Error) -> Result<
    Option<&'a str>,
    Error,
> {
    if last.is_close() {
        if seen is None {
            Ok(Some(""))
        } else {
            Ok(seen)
        }
    } else if last.is_empty_end() {
        Ok(seen)
    } else {
        Err(refused)
    }
}

/// Whether a pending item is an attribute.
pub open spec fn is_attribute(item: Lexeme) -> bool {
    item matches Ok(token) && token is Attribute
}

/// The number of `>` tokens among `items`: of start tags that were completed.
pub open spec fn opened(items: Seq<Lexeme>) -> nat
    decreases items.len(),
{
    if items.len() == 0 {
        0
    } else if items.last() matches Ok(token) && token.is_open() {
        opened(items.drop_last()) + 1
    } else {
        opened(items.drop_last())
    }
}

/// The number of closing tags among `items`.
pub open spec fn closed(items: Seq<Lexeme>) -> nat
    decreases items.len(),
{
    if items.len() == 0 {
        0
    } else if items.last() matches Ok(token) && token.is_close() {
        closed(items.drop_last()) + 1
    } else {
        closed(items.drop_last())
    }
}

/// The state of a reader that is confined to one element.
#[verifier::ext_equal]
pub struct Scope<'a> {
    /// The state of the reader underneath.
    pub cursor: Cursor<'a>,
    /// The depth at which the element was met.
    pub initial_depth: nat,
    /// Whether the end of the element has been reached.
    pub exhausted: bool,
}

impl<'a> Scope<'a> {
    /// Confines a reader to the element whose start tag it stands in. Anywhere else this
    /// is an error.
    pub open spec fn open(cursor: Cursor<'a>) -> Result<Scope<'a>, Error> {
        match cursor.anchor() {
            Some(initial_depth) => Ok(Scope { cursor, initial_depth, exhausted: false }),
            None => Err(cursor.unexpected()),
        }
    }

    /// Whether nothing is left: the end has been reached before, or the reader stands
    /// on the token that ends the element.
    pub open spec fn at_end(self) -> bool {
        self.exhausted || self.cursor.at_end_of(self.initial_depth)
    }

    /// Moves to the next token of the element. At the end this reports `None` and
    /// leaves the reader underneath where it stands. Otherwise the reader underneath
    /// moves, and if it comes to stand on the token that ends the element, that token is
    /// still handed out, and the end is noted.
    pub open spec fn advance(self) -> (Scope<'a>, Result<Option<Token<'a>>, Error>) {
        if self.at_end() {
            (Scope { exhausted: true, ..self }, Ok(None))
        } else {
            let (cursor, moved) = self.cursor.advance();
            (Scope { cursor, exhausted: cursor.at_end_of(self.initial_depth), ..self }, moved)
        }
    }

    /// Moves on until a start tag is current, or nothing is left.
    pub open spec fn advance_to_tag(self) -> (Scope<'a>, Result<Option<Token<'a>>, Error>)
        decreases self.cursor.pending.len(),
    {
        let (next, moved) = self.advance();
        match moved {
            Ok(Some(token)) if !(token is ElementStart) => next.advance_to_tag(),
            _ => (next, moved),
        }
    }

    /// The confined reader after `n` moves.
    pub open spec fn moved(self, n: nat) -> Scope<'a>
        decreases n,
    {
        if n == 0 {
            self
        } else {
            self.moved((n - 1) as nat).advance().0
        }
    }
}

} // verus!
