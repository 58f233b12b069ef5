//! The tokenizer of `xmlparser`, as this library sees it.
//!
//! Everything here that is marked `external_body` is believed, not proved: each such
//! item says in its comment what it takes from `xmlparser` on trust.

use vstd::prelude::*;
use vstd::string::StringSliceAdditionalSpecFns;
use vstd::utf8::decode_utf8;
use vstd::utf8::encode_utf8;
use xmlparser::ElementEnd as RawEnd;
use xmlparser::Error as LexError;
use xmlparser::Token as RawToken;
use xmlparser::Tokenizer;
use crate::text::line_breaks;
use crate::text::since_line_break;
use crate::token::ElementEnd;
use crate::token::TextPos;
use crate::token::Token;
use crate::token::TokenKind;

verus! {

/// `xmlparser::Tokenizer`: the state of a tokenizer part of the way through a text.
#[verifier::external_type_specification]
#[verifier::external_body]
pub struct ExTokenizer<'a>(Tokenizer<'a>);

/// `xmlparser::Token`: a token with its spans into the text.
#[verifier::external_type_specification]
#[verifier::external_body]
pub struct ExRawToken<'a>(RawToken<'a>);

/// `xmlparser::Error`: why a text could not be cut into tokens.
#[verifier::external_type_specification]
#[verifier::external_body]
pub struct ExLexError(LexError);

/// What a tokenizer has yet to yield: tokens, or the error at which it gives up.
pub type Lexeme<'a> = Result<Token<'a>, LexError>;

/// The items that `Tokenizer::next` will hand out from this state on, in order.
pub uninterp spec fn pending(r: Tokenizer<'_>) -> Seq<Lexeme<'_>>;

/// The items that a tokenizer made by `Tokenizer::from` for `text` hands out, in order.
pub uninterp spec fn tokens_of(text: Seq<char>) -> Seq<Lexeme<'static>>;

/// The plain value that stands for a token of `xmlparser`: the same variant, with each
/// span that the reader looks at replaced by its text, and with the offset at which the
/// token begins.
pub uninterp spec fn lowered(raw: RawToken<'_>) -> Token<'_>;

/// Line and column of a byte offset into `text`, both counted from 1; an offset past
/// the end counts as the end. The line is one more than the line breaks before the
/// offset, the column one more than the characters between the last of them and the
/// offset.
pub open spec fn text_pos(text: Seq<char>, offset: usize) -> TextPos {
    let bytes = encode_utf8(text);
    let end = if offset < bytes.len() {
        offset as int
    } else {
        bytes.len() as int
    };
    let before = decode_utf8(bytes.subrange(0, end));
    TextPos { row: (1 + line_breaks(before)) as u32, col: (1 + since_line_break(before)) as u32 }
}

/// The length in bytes of the text that a tokenizer works on.
pub uninterp spec fn text_len(r: Tokenizer<'_>) -> nat;

/// What `Display` writes for an error of the tokenizer.
pub uninterp spec fn lex_text(e: LexError) -> Seq<char>;

/// `Tokenizer::from`. Trusted: the tokenizer works on `text`, and the tokens that come
/// out of it depend on the characters of the text alone. The condition is that of
/// `pull`: the tokenizer is not made for a text that it cannot be asked to cut.
#[verifier::external_body]
pub(crate) fn tokenizer<'a>(text: &'a str) -> (r: Tokenizer<'a>)
    requires
        text.spec_bytes().len() < u32::MAX,
    ensures
        pending(r) == tokens_of(text@),
        text_len(r) == text.spec_bytes().len(),
{
    Tokenizer::from(text)
}

/// `Iterator::next` of `Tokenizer`. Trusted: it hands out the first pending item, a
/// token as the value that stands for it, and leaves the rest pending; with nothing
/// pending it returns `None` and nothing changes; the text stays the same. The
/// condition keeps the call from counting past `u32::MAX`: for the place of an error
/// the tokenizer counts the line breaks and the characters of a line in `u32`. Under
/// it the call does not panic, which `no_unwind` says.
#[verifier::external_body]
pub(crate) fn pull<'a>(r: &mut Tokenizer<'a>) -> (out: Option<Result<RawToken<'a>, LexError>>)
    requires
        text_len(*old(r)) < u32::MAX,
    ensures
        text_len(*final(r)) == text_len(*old(r)),
        match out {
            None => pending(*old(r)).len() == 0 && pending(*final(r)) == pending(*old(r)),
            Some(Ok(raw)) => pending(*old(r)).len() > 0 && pending(*old(r))[0] == Ok::<
                Token<'a>,
                LexError,
            >(lowered(raw)) && pending(*final(r)) == pending(*old(r)).skip(1),
            Some(Err(e)) => pending(*old(r)).len() > 0 && pending(*old(r))[0] == Err::<
                Token<'a>,
                LexError,
            >(e) && pending(*final(r)) == pending(*old(r)).skip(1),
        },
    no_unwind
{
    r.next()
}

/// Tells the variants of `xmlparser::Token` apart. Trusted: the plain value is of the
/// variant of the same name.
#[verifier::external_body]
fn raw_kind(raw: &RawToken<'_>) -> (kind: TokenKind)
    ensures
        kind == lowered(*raw).kind(),
{
    match raw {
        RawToken::Declaration { .. } => TokenKind::Declaration,
        RawToken::ProcessingInstruction { .. } => TokenKind::ProcessingInstruction,
        RawToken::Comment { .. } => TokenKind::Comment,
        RawToken::DtdStart { .. } => TokenKind::DtdStart,
        RawToken::EmptyDtd { .. } => TokenKind::EmptyDtd,
        RawToken::EntityDeclaration { .. } => TokenKind::EntityDeclaration,
        RawToken::DtdEnd { .. } => TokenKind::DtdEnd,
        RawToken::ElementStart { .. } => TokenKind::ElementStart,
        RawToken::Attribute { .. } => TokenKind::Attribute,
        RawToken::ElementEnd { .. } => TokenKind::ElementEnd,
        RawToken::Text { .. } => TokenKind::Text,
        RawToken::Cdata { .. } => TokenKind::Cdata,
    }
}

/// `Token::span` and `StrSpan::start`: the byte offset at which a token begins.
/// Trusted: the plain value holds that offset.
#[verifier::external_body]
fn raw_start(raw: &RawToken<'_>) -> (start: usize)
    ensures
        start == lowered(*raw).start(),
{
    raw.span().start()
}

/// The `prefix` and `local` fields of an `ElementStart` or `Attribute` token, each through
/// `StrSpan::as_str`. Trusted: the plain value holds these two strings.
#[verifier::external_body]
fn raw_qname<'a>(raw: &RawToken<'a>) -> (name: Option<(&'a str, &'a str)>)
    ensures
        name == lowered(*raw).qname(),
{
    match raw {
        RawToken::ElementStart { prefix, local, .. } => Some((prefix.as_str(), local.as_str())),
        RawToken::Attribute { prefix, local, .. } => Some((prefix.as_str(), local.as_str())),
        _ => None,
    }
}

/// The `end` field of an `ElementEnd` token, with the two spans of a closing tag through
/// `StrSpan::as_str`. Trusted: the plain value holds this end.
#[verifier::external_body]
fn raw_end<'a>(raw: &RawToken<'a>) -> (end: Option<ElementEnd<'a>>)
    ensures
        end == lowered(*raw).end(),
{
    match raw {
        RawToken::ElementEnd { end: RawEnd::Open, .. } => Some(ElementEnd::Open),
        RawToken::ElementEnd { end: RawEnd::Close(prefix, local), .. } => Some(
            ElementEnd::Close(prefix.as_str(), local.as_str()),
        ),
        RawToken::ElementEnd { end: RawEnd::Empty, .. } => Some(ElementEnd::Empty),
        _ => None,
    }
}

/// The `text` field of a `Comment`, `Text` or `Cdata` token and the `value` field of an
/// `Attribute` token, through `StrSpan::as_str`. Trusted: the plain value holds this
/// string.
#[verifier::external_body]
fn raw_text<'a>(raw: &RawToken<'a>) -> (text: Option<&'a str>)
    ensures
        text == lowered(*raw).payload(),
{
    match raw {
        RawToken::Comment { text, .. } => Some(text.as_str()),
        RawToken::Text { text } => Some(text.as_str()),
        RawToken::Cdata { text, .. } => Some(text.as_str()),
        RawToken::Attribute { value, .. } => Some(value.as_str()),
        _ => None,
    }
}

/// `Stream::from` and `Stream::gen_text_pos_from`: line and column of a byte offset.
/// Trusted: the row is one more than the bytes `\n` before the offset, the column one
/// more than the characters between the last of them and the offset, and an offset past
/// the end counts as the end. The two conditions keep the call from slicing the text
/// inside a character and from counting past `u32::MAX`.
#[verifier::external_body]
pub(crate) fn locate(text: &str, offset: usize) -> (pos: TextPos)
    requires
        text.spec_bytes().len() < u32::MAX,
        offset >= text.spec_bytes().len() || vstd::utf8::is_char_boundary(
            text.spec_bytes(),
            offset as int,
        ),
    ensures
        pos == text_pos(text@, offset),
{
    let pos = xmlparser::Stream::from(text).gen_text_pos_from(offset);
    TextPos { row: pos.row, col: pos.col }
}

/// `Display` of `xmlparser::Error`, through `ToString::to_string`: the error in words.
#[verifier::external_body]
pub(crate) fn lex_message(e: &LexError) -> (message: String)
    ensures
        message@ == lex_text(*e),
{
    e.to_string()
}

/// Turns a token of `xmlparser` into the plain value that stands for it, part by part.
pub(crate) fn lower<'a>(raw: &RawToken<'a>) -> (token: Token<'a>)
    ensures
        token == lowered(*raw),
{
    let start = raw_start(raw);
    match raw_kind(raw) {
        TokenKind::Declaration => Token::Declaration { start },
        TokenKind::ProcessingInstruction => Token::ProcessingInstruction { start },
        TokenKind::Comment => Token::Comment { text: raw_text(raw).unwrap(), start },
        TokenKind::DtdStart => Token::DtdStart { start },
        TokenKind::EmptyDtd => Token::EmptyDtd { start },
        TokenKind::EntityDeclaration => Token::EntityDeclaration { start },
        TokenKind::DtdEnd => Token::DtdEnd { start },
        TokenKind::ElementStart => {
            let (prefix, local) = raw_qname(raw).unwrap();
            Token::ElementStart { prefix, local, start }
        },
        TokenKind::Attribute => {
            let (prefix, local) = raw_qname(raw).unwrap();
            Token::Attribute { prefix, local, value: raw_text(raw).unwrap(), start }
        },
        TokenKind::ElementEnd => Token::ElementEnd { end: raw_end(raw).unwrap(), start },
        TokenKind::Text => Token::Text { text: raw_text(raw).unwrap(), start },
        TokenKind::Cdata => Token::Cdata { text: raw_text(raw).unwrap(), start },
    }
}

} // verus!
