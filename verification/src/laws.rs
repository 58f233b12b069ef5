//! What holds of the reader whatever the text: laws about depth, attributes, skipping
//! and confined readers, proved of the model that the reader follows.

use vstd::prelude::*;
use crate::error::Error;
use crate::lexer::Lexeme;
use crate::model::depth_along;
use crate::model::depth_behind;
use crate::model::is_attribute;
use crate::model::locatable;
use crate::model::position;
use crate::model::text_outcome;
use crate::model::closed;
use crate::model::opened;
use crate::model::Cursor;
use crate::model::Scope;
use crate::token::Token;

verus! {

/// Moving reads the pending items in order and leaves the text alone: after `n` moves
/// that each reached a token, the first `n` items are gone, all of them were tokens, and
/// the reader stands on the last of them.
pub proof fn lemma_moves_read_in_order(c: Cursor, n: nat)
    requires
        c.moves(n),
    ensures
        n <= c.pending.len(),
        c.moved(n).text == c.text,
        c.moved(n).pending == c.pending.skip(n as int),
        n > 0 ==> c.pending[n - 1] is Ok && c.moved(n).current == Some(c.pending[n - 1]->Ok_0),
        forall|j: nat| j <= n ==> c.moves(j),
    decreases n,
{
    if n > 0 {
        lemma_moves_read_in_order(c, (n - 1) as nat);
    }
}

/// A move changes the depth on `>` and on a closing tag and on no other token, and it
/// empties the attribute buffer on the name of a start tag and on no other token.
pub proof fn lemma_advance_keeps_depth_and_buffer(c: Cursor)
    ensures
        ({
            let (next, moved) = c.advance();
            match moved {
                Ok(Some(token)) => {
                    &&& token.is_open() ==> next.depth == c.depth + 1
                    &&& token.is_close() ==> next.depth == c.depth - 1
                    &&& !token.is_open() && !token.is_close() ==> next.depth == c.depth
                    &&& next.attrs == if token is ElementStart {
                        Seq::empty()
                    } else {
                        c.attrs
                    }
                },
                _ => next.depth == c.depth && next.attrs == c.attrs,
            }
        }),
{
}

/// A reader that refuses to read does not move. Every move is an error and changes
/// nothing; the reader, which set out on no token, stays on none.
pub proof fn lemma_refused_text_is_not_read(c: Cursor)
    requires
        c.refused,
    ensures
        c.pull() == (c, Err::<Option<Token>, Error>(Error::Unexpected(None))),
        c.advance() == (c, Err::<Option<Token>, Error>(Error::Unexpected(None))),
        c.advance_to_tag() == (c, Err::<Option<Token>, Error>(Error::Unexpected(None))),
        c.settled() ==> c.current is None && c.unexpected() == Error::Unexpected(None),
{
}

/// The token a settled reader stands on has a place wherever a place can be computed:
/// an error on that token carries line and column.
pub proof fn lemma_settled_reader_finds_places(c: Cursor)
    requires
        c.settled(),
        c.current is Some,
        locatable(c.text, c.current->Some_0.start()),
    ensures
        c.unexpected() == Error::Unexpected(
            Some(crate::lexer::text_pos(c.text, c.current->Some_0.start())),
        ),
{
}

/// The end of the input is final. With nothing pending, a move reports `None`, leaves
/// the reader on no token, and every further move does the same.
pub proof fn lemma_end_of_input_is_final(c: Cursor)
    requires
        !c.refused,
        c.pending.len() == 0,
    ensures
        c.advance() == (Cursor { current: None, ..c }, Ok::<Option<Token>, Error>(None)),
        c.advance().0.advance() == c.advance(),
{
}

/// The depth counts the elements that are open. After `n` moves it is the depth before,
/// plus the start tags completed since, minus the closing tags met since. So a reader
/// that sets out at depth 0 is back at depth 0 exactly when as many closing tags have
/// been met as start tags were completed.
pub proof fn lemma_depth_counts_open_elements(c: Cursor, n: nat)
    requires
        c.moves(n),
    ensures
        c.moved(n).depth + closed(c.pending.take(n as int)) == c.depth + opened(
            c.pending.take(n as int),
        ),
        c.depth == 0 ==> (c.moved(n).depth == 0 <==> opened(c.pending.take(n as int)) == closed(
            c.pending.take(n as int),
        )),
    decreases n,
{
    lemma_moves_read_in_order(c, n);
    if n > 0 {
        lemma_moves_read_in_order(c, (n - 1) as nat);
        lemma_depth_counts_open_elements(c, (n - 1) as nat);
        assert(c.pending.take(n as int).drop_last() =~= c.pending.take(n - 1));
    }
}

/// Where a run of items leads the depth, it has gone up by the start tags completed in
/// the run and down by the closing tags in it.
pub proof fn lemma_depth_along_counts(depth: nat, items: Seq<Lexeme>)
    requires
        depth_along(depth, items) is Some,
    ensures
        depth_along(depth, items)->Some_0 + closed(items) == depth + opened(items),
    decreases items.len(),
{
    if items.len() > 0 {
        lemma_depth_along_counts(depth, items.drop_last());
    }
}

/// The depth counts the elements that are open, whatever was asked of the reader. Let
/// the reader have come from `before` to `after` by any calls at all: each call reads
/// forward, as its contract says, and reading forward is transitive. If the depth
/// could follow every token read on the way, as it can in a well-formed text, then the
/// depth is the depth before, plus the start tags completed since, minus the closing
/// tags met since. It never falls below zero, and a reader that set out at depth 0 is
/// back at depth 0 exactly when as many closing tags have been read as start tags were
/// completed.
pub proof fn lemma_depth_counts_what_was_read(before: Cursor, after: Cursor)
    requires
        after.follows(before),
        depth_along(before.depth, after.consumed(before)) is Some,
    ensures
        after.depth + closed(after.consumed(before)) == before.depth + opened(
            after.consumed(before),
        ),
        before.depth == 0 ==> opened(after.consumed(before)) >= closed(after.consumed(before)),
        before.depth == 0 ==> (after.depth == 0 <==> opened(after.consumed(before)) == closed(
            after.consumed(before),
        )),
{
    lemma_depth_along_counts(before.depth, after.consumed(before));
}

/// The depth leaves an element only through its end. A reader that stands on the `>` of
/// a start tag met at depth `anchor` stays deeper than `anchor` on every token of the
/// content, and is back at `anchor` only on the token that ends the element. For the
/// outermost element, met at depth 0: the depth returns to 0 exactly when it closes.
pub proof fn lemma_depth_returns_when_element_ends(c: Cursor, anchor: nat, k: nat, j: nat)
    requires
        c.current matches Some(token) && token.is_open(),
        c.anchor() == Some(anchor),
        c.ends_at(anchor, k),
        j <= k,
    ensures
        c.moved(j).depth > anchor,
        c.moved(k + 1).depth == anchor,
    decreases j,
{
    lemma_moves_read_in_order(c, k + 1);
    if j > 0 {
        lemma_depth_returns_when_element_ends(c, anchor, k, (j - 1) as nat);
        lemma_moves_read_in_order(c, j);
    }
}

/// What `gather` does once `i` attributes of a run of `k` have gone into the buffer.
proof fn lemma_gather_from(c: Cursor, k: nat, i: nat)
    requires
        !c.refused,
        i <= k < c.pending.len(),
        forall|j: int| 0 <= j < k ==> is_attribute(#[trigger] c.pending[j]),
    ensures
        (Cursor {
            pending: c.pending.skip(i as int),
            attrs: c.attrs + c.pending.subrange(0, i as int).map_values(|x: Lexeme| x->Ok_0),
            ..c
        }).gather() == (Cursor {
            pending: c.pending.skip(k as int),
            attrs: c.attrs + c.pending.subrange(0, k as int).map_values(|x: Lexeme| x->Ok_0),
            ..c
        }).gather(),
    decreases k - i,
{
    if i < k {
        let here = Cursor {
            pending: c.pending.skip(i as int),
            attrs: c.attrs + c.pending.subrange(0, i as int).map_values(|x: Lexeme| x->Ok_0),
            ..c
        };
        let there = Cursor {
            pending: c.pending.skip((i + 1) as int),
            attrs: c.attrs + c.pending.subrange(0, (i + 1) as int).map_values(|x: Lexeme| x->Ok_0),
            ..c
        };
        let (next, pulled) = here.pull();
        let token = c.pending[i as int]->Ok_0;
        assert(Cursor { attrs: next.attrs.push(token), ..next } == there);
        lemma_gather_from(c, k, i + 1);
    }
}

/// The attributes of a start tag are the attribute tokens that follow its name. On the
/// name of a start tag, with `k` attributes pending and behind them a token that is
/// none, `fill` puts those `k` tokens at the end of the buffer, in their order, and
/// comes to rest on the token behind them.
pub proof fn lemma_fill_gathers_the_attributes(c: Cursor, k: nat)
    requires
        !c.refused,
        c.current matches Some(token) && token is ElementStart,
        k < c.pending.len(),
        forall|j: int| 0 <= j < k ==> is_attribute(#[trigger] c.pending[j]),
        c.pending[k as int] is Ok,
        !is_attribute(c.pending[k as int]),
        depth_behind(c.depth, c.pending[k as int]->Ok_0) is Some,
    ensures
        c.fill() == (
            Cursor {
                text: c.text,
                pending: c.pending.skip((k + 1) as int),
                current: Some(c.pending[k as int]->Ok_0),
                attrs: c.attrs + c.pending.subrange(0, k as int).map_values(|x: Lexeme| x->Ok_0),
                depth: depth_behind(c.depth, c.pending[k as int]->Ok_0)->Some_0,
                refused: false,
            },
            Ok::<(), Error>(()),
        ),
{
    lemma_gather_from(c, k, 0);
    assert(c.pending.skip(0) =~= c.pending);
    assert(c.pending.skip(k as int)[0] == c.pending[k as int]);
}

/// Gathering the attributes a second time changes nothing. Once `fill` has succeeded and
/// the reader has come to rest on the `>` or `/>` of the start tag, or the input has
/// ended on the name of the tag, another `fill` succeeds and leaves every part of the
/// reader as it is: the count, the names and the values of the attributes stay the same
/// however often they are asked for.
pub proof fn lemma_fill_is_idempotent(c: Cursor)
    requires
        c.fill().1 is Ok,
        ({
            let filled = c.fill().0;
            ||| filled.current matches Some(token) && (token.is_open() || token.is_empty_end())
            ||| filled.current matches Some(token) && token is ElementStart
                && filled.pending.len() == 0
        }),
    ensures
        c.fill().0.fill() == (c.fill().0, Ok::<(), Error>(())),
{
    lemma_fill_reads_forward(c);
}

/// In a tidy buffer every place holds an attribute: asked for the `i`th name or value,
/// the reader has one exactly if `i` is below the count.
pub proof fn lemma_attributes_are_consistent(c: Cursor, i: int)
    requires
        c.tidy(),
    ensures
        c.attribute_name(i) is Some <==> 0 <= i < c.attrs.len(),
        c.attribute_value(i) is Some <==> 0 <= i < c.attrs.len(),
{
}

/// An element is empty exactly if `/>` ends its start tag. On the name of a start tag,
/// with `k` attributes pending and behind them a token that is none, `is_empty_element`
/// gathers the attributes as `fill` does and tells whether that token is `/>`.
pub proof fn lemma_is_empty_element_asks_the_end_of_the_tag(c: Cursor, k: nat)
    requires
        !c.refused,
        c.current matches Some(token) && token is ElementStart,
        k < c.pending.len(),
        forall|j: int| 0 <= j < k ==> is_attribute(#[trigger] c.pending[j]),
        c.pending[k as int] is Ok,
        !is_attribute(c.pending[k as int]),
        depth_behind(c.depth, c.pending[k as int]->Ok_0) is Some,
    ensures
        c.is_empty_element() == (
            c.fill().0,
            Ok::<bool, Error>(c.pending[k as int]->Ok_0.is_empty_end()),
        ),
{
    lemma_fill_gathers_the_attributes(c, k);
}

/// What `advance_to_tag` does after `i` moves on the way to the `k`th token.
proof fn lemma_advance_to_tag_from(c: Cursor, k: nat, i: nat)
    requires
        c.moves(k + 1),
        i <= k,
        forall|j: int| 0 <= j < k ==> !((#[trigger] c.pending[j])->Ok_0 is ElementStart),
        c.pending[k as int]->Ok_0 is ElementStart,
    ensures
        c.moved(i).advance_to_tag() == (
            c.moved(k + 1),
            Ok::<Option<Token>, Error>(Some(c.pending[k as int]->Ok_0)),
        ),
    decreases k - i,
{
    lemma_moves_read_in_order(c, k + 1);
    assert(c.moves(i + 1));
    lemma_moves_read_in_order(c, i);
    lemma_moves_read_in_order(c, i + 1);
    if i < k {
        lemma_advance_to_tag_from(c, k, i + 1);
    }
}

/// Moving to the next start tag finds the first one. If the reader can move to the
/// `k`th pending token, that token is the name of a start tag and none before it is,
/// then `advance_to_tag` stops there: after `k + 1` moves, with that token in hand.
pub proof fn lemma_advance_to_tag_finds_the_first(c: Cursor, k: nat)
    requires
        c.moves(k + 1),
        forall|j: int| 0 <= j < k ==> !((#[trigger] c.pending[j])->Ok_0 is ElementStart),
        c.pending[k as int]->Ok_0 is ElementStart,
    ensures
        c.advance_to_tag() == (
            c.moved(k + 1),
            Ok::<Option<Token>, Error>(Some(c.pending[k as int]->Ok_0)),
        ),
{
    lemma_advance_to_tag_from(c, k, 0);
}

/// What `advance_to_tag` does after `i` moves where no start tag is left.
proof fn lemma_advance_to_tag_out_from(c: Cursor, i: nat)
    requires
        !c.refused,
        c.moves(c.pending.len()),
        i <= c.pending.len(),
        forall|j: int| i <= j < c.pending.len() ==> !((#[trigger] c.pending[j])->Ok_0 is ElementStart),
    ensures
        c.moved(i).advance_to_tag() == (
            Cursor { current: None, ..c.moved(c.pending.len()) },
            Ok::<Option<Token>, Error>(None),
        ),
    decreases c.pending.len() - i,
{
    lemma_moves_read_in_order(c, c.pending.len());
    lemma_moves_read_in_order(c, i);
    if i < c.pending.len() {
        assert(c.moves(i + 1));
        lemma_moves_read_in_order(c, i + 1);
        lemma_advance_to_tag_out_from(c, i + 1);
    }
}

/// Moving to the next start tag ends with the input where there is none. If the
/// reader can move over all that is pending and no name of a start tag is among it,
/// `advance_to_tag` reads it all, reports `None` and leaves the reader on no token.
pub proof fn lemma_advance_to_tag_runs_out(c: Cursor)
    requires
        !c.refused,
        c.moves(c.pending.len()),
        forall|j: int| 0 <= j < c.pending.len() ==> !((#[trigger] c.pending[j])->Ok_0 is ElementStart),
    ensures
        c.advance_to_tag() == (
            Cursor { current: None, ..c.moved(c.pending.len()) },
            Ok::<Option<Token>, Error>(None),
        ),
{
    lemma_advance_to_tag_out_from(c, 0);
}

/// The text seen after `i` moves, if the run of text is the token at `run`.
spec fn seen_after<'a>(c: Cursor<'a>, run: Option<nat>, i: nat) -> Option<&'a str> {
    match run {
        Some(at) if at < i => c.pending[at as int]->Ok_0.text_run(),
        _ => None,
    }
}

/// What `read_text` does after `i` moves on the way to the `k`th token.
proof fn lemma_read_text_from(c: Cursor, k: nat, run: Option<nat>, i: nat)
    requires
        c.moves(k + 1),
        i <= k,
        run matches Some(at) ==> at < k && c.pending[at as int]->Ok_0.is_text_run(),
        forall|j: nat| j < k && Some(j) != run ==> (#[trigger] c.pending[j as int])->Ok_0.is_quiet(),
        !c.pending[k as int]->Ok_0.is_quiet(),
        !(c.pending[k as int]->Ok_0 is Attribute),
        run is None ==> !c.pending[k as int]->Ok_0.is_text_run(),
    ensures
        c.moved(i).read_text(seen_after(c, run, i)) == (
            c.moved(k + 1),
            text_outcome(
                seen_after(c, run, k),
                c.pending[k as int]->Ok_0,
                c.moved(k + 1).unexpected(),
            ),
        ),
    decreases k - i,
{
    lemma_moves_read_in_order(c, k + 1);
    assert(c.moves(i + 1));
    lemma_moves_read_in_order(c, i);
    lemma_moves_read_in_order(c, i + 1);
    if i < k {
        lemma_read_text_from(c, k, run, i + 1);
    }
}

/// The text of an element is its one run of text. Let the reader stand inside a start
/// tag, behind its attributes, and let it be able to move to the `k`th pending token;
/// let the tokens before that one be comments, processing instructions and the `>` of
/// the start tag, but for at most one run of text, at `run`; and let the `k`th token be
/// none of these, or a second run of text. Then `element_text` stops on the `k`th
/// token. If that is the closing tag, the text is the run, or the empty string where
/// there was none. If it is `/>`, the element has no content and no text. Anything
/// else, a child element or a second run of text among it, is refused with an error at
/// that token: content that mixes text and elements has no text. What holds with
/// attributes still pending follows with `lemma_element_text_reads_the_attributes_first`.
pub proof fn lemma_element_text_is_the_one_run(c: Cursor, k: nat, run: Option<nat>)
    requires
        c.in_start_tag(),
        c.moves(k + 1),
        run matches Some(at) ==> at < k && c.pending[at as int]->Ok_0.is_text_run(),
        forall|j: nat| j < k && Some(j) != run ==> (#[trigger] c.pending[j as int])->Ok_0.is_quiet(),
        !c.pending[k as int]->Ok_0.is_quiet(),
        !(c.pending[k as int]->Ok_0 is Attribute),
        run is None ==> !c.pending[k as int]->Ok_0.is_text_run(),
    ensures
        c.element_text() == (
            c.moved(k + 1),
            text_outcome(
                match run {
                    Some(at) => c.pending[at as int]->Ok_0.text_run(),
                    None => None,
                },
                c.pending[k as int]->Ok_0,
                Error::Unexpected(position(c.text, Some(c.pending[k as int]->Ok_0))),
            ),
        ),
{
    lemma_read_text_from(c, k, run, 0);
    lemma_moves_read_in_order(c, k + 1);
}

/// What `read_text` does among the attributes of a start tag: `x` is the reader as it
/// stands, `g` the same reader still on the name of the tag.
proof fn lemma_read_text_among_attributes(x: Cursor, g: Cursor)
    requires
        g == (Cursor { current: g.current, ..x }),
        g.current matches Some(token) && token is ElementStart,
        g.gather().1 is Ok,
        ({
            let gathered = g.gather().0;
            ||| gathered.current matches Some(token) && (token.is_open() || token.is_empty_end())
            ||| forall|i: int| 0 <= i < g.pending.len() ==> is_attribute(#[trigger] g.pending[i])
        }),
    ensures
        x.read_text(None) == g.gather().0.element_text(),
    decreases x.pending.len(),
{
    if x.pending.len() > 0 {
        if let Ok(token) = x.pending[0] {
            if token is Attribute {
                let next = x.advance().0;
                let more = Cursor { attrs: next.attrs.push(token), ..next };
                let same = Cursor { current: g.current, ..more };
                assert(same == (Cursor { attrs: g.pull().0.attrs.push(token), ..g.pull().0 }));
                assert forall|i: int| 0 <= i < same.pending.len() implies is_attribute(
                    #[trigger] same.pending[i],
                ) == is_attribute(g.pending[i + 1]) by {}
                lemma_read_text_among_attributes(more, same);
            }
        }
    }
}

/// The text of an element does not depend on whether its attributes have been read.
/// On the name of a start tag on which `fill` succeeds and comes to rest on the `>` or
/// `/>` of the tag, or uses up the input, `element_text` does what it does behind
/// `fill`: the attributes go into the buffer, and the text is read from there on.
pub proof fn lemma_element_text_reads_the_attributes_first(c: Cursor)
    requires
        c.current matches Some(token) && token is ElementStart,
        c.fill().1 is Ok,
        ({
            let filled = c.fill().0;
            ||| filled.current matches Some(token) && (token.is_open() || token.is_empty_end())
            ||| forall|i: int| 0 <= i < c.pending.len() ==> is_attribute(#[trigger] c.pending[i])
        }),
    ensures
        c.element_text() == c.fill().0.element_text(),
{
    lemma_read_text_among_attributes(c, c);
}

/// What `seek_end` does from any token of the content on: the search goes on from where
/// `i` moves have led, with the current token and the attribute buffer left as they
/// were, and comes to rest where `k + 1` moves lead.
proof fn lemma_seek_from(c: Cursor, anchor: nat, k: nat, i: nat)
    requires
        c.ends_at(anchor, k),
        i <= k,
    ensures
        (Cursor { current: c.current, attrs: c.attrs, ..c.moved(i) }).seek_end(anchor) == (
            Cursor { attrs: c.attrs, ..c.moved(k + 1) },
            Ok::<(), Error>(()),
        ),
    decreases k - i,
{
    lemma_moves_read_in_order(c, k + 1);
    assert(c.moves(i + 1));
    if i < k {
        lemma_seek_from(c, anchor, k, i + 1);
    }
}

/// Skipping always lands on the end of the element. If the `k`th pending token is the
/// first to end an element at the depth at which the current start tag was met, then
/// `skip_element` succeeds and leaves the reader on that very token, at that depth, with
/// everything behind the token still pending. What lies between does not matter.
pub proof fn lemma_skip_lands_on_matching_end(c: Cursor, anchor: nat, k: nat)
    requires
        c.anchor() == Some(anchor),
        c.ends_at(anchor, k),
    ensures
        c.skip_element() == (
            Cursor { attrs: c.attrs, ..c.moved(k + 1) },
            Ok::<(), Error>(()),
        ),
        c.skip_element().0.depth == anchor,
        c.pending[k as int] is Ok,
        c.skip_element().0.current == Some(c.pending[k as int]->Ok_0),
        c.pending[k as int]->Ok_0.ends_element(),
        c.skip_element().0.pending == c.pending.skip((k + 1) as int),
{
    lemma_moves_read_in_order(c, k + 1);
    lemma_seek_from(c, anchor, k, 0);
}

/// A reader is settled before its first move, and every call keeps it so, since every
/// call reads forward. It refuses to read exactly if it was made for a text of
/// `u32::MAX` bytes or more; a reader made for given tokens never does.
pub proof fn lemma_start_is_settled(text: Seq<char>, tokens: Seq<Lexeme>)
    ensures
        Cursor::start(text).settled(),
        Cursor::start(text).tidy(),
        Cursor::start(text).refused <==> Cursor::too_long(text),
        Cursor::start_on(text, tokens).settled(),
        Cursor::start_on(text, tokens).tidy(),
        !Cursor::start_on(text, tokens).refused,
{
}

/// Inside a start tag a settled reader knows the depth at which the element was met:
/// a confined reader can be opened there, and `skip_element` does not refuse the place.
pub proof fn lemma_settled_reader_knows_its_element(c: Cursor)
    requires
        c.settled(),
        c.in_start_tag(),
    ensures
        c.anchor() is Some,
        Scope::open(c) is Ok,
        c.skip_element() == c.seek_end(c.anchor()->Some_0),
{
}

/// A confined reader yields the tokens of its element, one by one, as the reader
/// underneath would. Opened inside the start tag of an element whose end is the `k`th
/// pending token, its first `k + 1` moves are the moves of the reader underneath: they
/// hand out the pending tokens up to that end, and the end itself, and never report that
/// nothing is left. With the last of them the end is noted.
pub proof fn lemma_scope_yields_its_element(c: Cursor, anchor: nat, k: nat, n: nat)
    requires
        c.anchor() == Some(anchor),
        c.ends_at(anchor, k),
        n <= k + 1,
    ensures
        Scope::open(c) == Ok::<Scope, Error>(
            Scope { cursor: c, initial_depth: anchor, exhausted: false },
        ),
        Scope::open(c).unwrap().moved(n) == (Scope {
            cursor: c.moved(n),
            initial_depth: anchor,
            exhausted: n == k + 1,
        }),
        n > 0 ==> Scope::open(c).unwrap().moved((n - 1) as nat).advance().1 == Ok::<
            Option<Token>,
            Error,
        >(Some(c.pending[n - 1]->Ok_0)),
    decreases n,
{
    if n > 0 {
        lemma_scope_yields_its_element(c, anchor, k, (n - 1) as nat);
        lemma_moves_read_in_order(c, k + 1);
        assert(c.moves(n));
        lemma_moves_read_in_order(c, n);
        lemma_moves_read_in_order(c, (n - 1) as nat);
    }
}

/// A confined reader stops at the end of its element, and the reader underneath stays
/// there. Once the token that ends the element has been handed out, the end is noted,
/// and every further move reports that nothing is left and touches nothing: the reader
/// underneath stands on that token, and all that follows it is still pending. Whoever
/// goes on with the reader underneath meets the token behind the end next: none is
/// skipped, none comes twice.
pub proof fn lemma_scope_stops_at_its_end(c: Cursor, anchor: nat, k: nat, n: nat)
    requires
        c.anchor() == Some(anchor),
        c.ends_at(anchor, k),
        n > k + 1,
    ensures
        Scope::open(c).unwrap().moved(n) == (Scope {
            cursor: c.moved(k + 1),
            initial_depth: anchor,
            exhausted: true,
        }),
        Scope::open(c).unwrap().moved((n - 1) as nat).advance().1 == Ok::<
            Option<Token>,
            Error,
        >(None),
        c.moved(k + 1).current == Some(c.pending[k as int]->Ok_0),
        c.moved(k + 1).pending == c.pending.skip((k + 1) as int),
    decreases n,
{
    lemma_moves_read_in_order(c, k + 1);
    if n == k + 2 {
        lemma_scope_yields_its_element(c, anchor, k, k + 1);
    } else {
        lemma_scope_stops_at_its_end(c, anchor, k, (n - 1) as nat);
    }
}

/// A confined reader finds the start tags of its element. Opened inside the start tag
/// of an element whose end is the `k`th pending token and moved `i` times, it is sent
/// to the next start tag: if the first name of a start tag from the `i`th token on is
/// the `j`th, before the end, `advance_to_tag` stops there as the reader underneath
/// would, with that token in hand.
pub proof fn lemma_scope_finds_the_tags_of_its_element(
    c: Cursor,
    anchor: nat,
    k: nat,
    i: nat,
    j: nat,
)
    requires
        c.anchor() == Some(anchor),
        c.ends_at(anchor, k),
        i <= j <= k,
        c.pending[j as int]->Ok_0 is ElementStart,
        forall|m: int| i <= m < j ==> !((#[trigger] c.pending[m])->Ok_0 is ElementStart),
    ensures
        Scope::open(c).unwrap().moved(i).advance_to_tag() == (
            Scope { cursor: c.moved(j + 1), initial_depth: anchor, exhausted: false },
            Ok::<Option<Token>, Error>(Some(c.pending[j as int]->Ok_0)),
        ),
    decreases j - i,
{
    lemma_moves_read_in_order(c, k + 1);
    lemma_scope_yields_its_element(c, anchor, k, i);
    lemma_scope_yields_its_element(c, anchor, k, i + 1);
    if i < j {
        lemma_scope_finds_the_tags_of_its_element(c, anchor, k, i + 1, j);
    }
}

/// A confined reader runs out of start tags at the end of its element. Opened inside
/// the start tag of an element whose end is the `k`th pending token and moved `i`
/// times, with no name of a start tag from the `i`th token to the end, it is sent to
/// the next start tag: `advance_to_tag` reads on to the end of the element and no
/// further, reports `None`, and notes the end.
pub proof fn lemma_scope_runs_out_of_tags(c: Cursor, anchor: nat, k: nat, i: nat)
    requires
        c.anchor() == Some(anchor),
        c.ends_at(anchor, k),
        i <= k + 1,
        forall|m: int| i <= m <= k ==> !((#[trigger] c.pending[m])->Ok_0 is ElementStart),
    ensures
        Scope::open(c).unwrap().moved(i).advance_to_tag() == (
            Scope { cursor: c.moved(k + 1), initial_depth: anchor, exhausted: true },
            Ok::<Option<Token>, Error>(None),
        ),
    decreases k + 1 - i,
{
    lemma_moves_read_in_order(c, k + 1);
    lemma_scope_yields_its_element(c, anchor, k, i);
    if i <= k {
        lemma_scope_yields_its_element(c, anchor, k, i + 1);
        lemma_scope_runs_out_of_tags(c, anchor, k, i + 1);
    }
}

/// Confined readers nest. Let a confined reader that is not yet at its end stand inside
/// the start tag of an element further down, and let a second one be opened there and
/// moved until it reports that nothing is left. Then the reader underneath stands on the
/// end of the inner element, and the outer reader, going on from there, is not at its end:
/// its next move is the next move of the reader underneath, onto the token right behind
/// the inner element. So the outer reader meets every sibling of that element once.
pub proof fn lemma_scopes_nest(outer: Scope, inner_depth: nat, k: nat, n: nat)
    requires
        !outer.exhausted,
        outer.cursor.anchor() == Some(inner_depth),
        inner_depth > outer.initial_depth,
        outer.cursor.ends_at(inner_depth, k),
        n > k + 1,
    ensures
        ({
            let inner = Scope::open(outer.cursor).unwrap().moved(n);
            let resumed = Scope { cursor: inner.cursor, ..outer };
            &&& inner.exhausted
            &&& inner.cursor == outer.cursor.moved(k + 1)
            &&& inner.cursor.pending == outer.cursor.pending.skip((k + 1) as int)
            &&& resumed.advance().0.cursor == inner.cursor.advance().0
            &&& resumed.advance().1 == inner.cursor.advance().1
        }),
{
    lemma_scope_stops_at_its_end(outer.cursor, inner_depth, k, n);
}

/// Confined readers nest under `advance_to_tag` as well. Let the inner reader be sent
/// to the next start tag where none is left in its element: it stops on the end of its
/// element, and the outer reader, going on from there, is not at its end and moves as
/// the reader underneath moves.
pub proof fn lemma_scopes_nest_between_tags(outer: Scope, inner_depth: nat, k: nat, i: nat)
    requires
        !outer.exhausted,
        outer.cursor.anchor() == Some(inner_depth),
        inner_depth > outer.initial_depth,
        outer.cursor.ends_at(inner_depth, k),
        i <= k + 1,
        forall|m: int| i <= m <= k ==> !((#[trigger] outer.cursor.pending[m])->Ok_0 is ElementStart),
    ensures
        ({
            let inner = Scope::open(outer.cursor).unwrap().moved(i).advance_to_tag().0;
            let resumed = Scope { cursor: inner.cursor, ..outer };
            &&& inner.exhausted
            &&& inner.cursor == outer.cursor.moved(k + 1)
            &&& inner.cursor.pending == outer.cursor.pending.skip((k + 1) as int)
            &&& !resumed.at_end()
            &&& resumed.advance().0.cursor == inner.cursor.advance().0
            &&& resumed.advance().1 == inner.cursor.advance().1
        }),
{
    lemma_scope_runs_out_of_tags(outer.cursor, inner_depth, k, i);
    lemma_scope_stops_at_its_end(outer.cursor, inner_depth, k, k + 2);
}

/// A confined reader that has reported its end stays at its end: every further move
/// reports `None` and changes nothing, whatever the reader underneath still has
/// pending.
pub proof fn lemma_exhausted_scope_stays_exhausted(s: Scope)
    requires
        s.exhausted,
    ensures
        s.advance() == (s, Ok::<Option<Token>, Error>(None)),
        s.advance_to_tag() == (s, Ok::<Option<Token>, Error>(None)),
{
}

/// A reader that has not moved has read forward.
pub proof fn lemma_follows_itself(c: Cursor)
    ensures
        c.follows(c),
{
    assert(c.pending =~= c.pending.skip(0));
}

/// The depth along two runs of items, one after the other, is the depth along the
/// second from where the first leads.
pub proof fn lemma_depth_along_in_turn(depth: nat, first: Seq<Lexeme>, second: Seq<Lexeme>)
    ensures
        depth_along(depth, first + second) == match depth_along(depth, first) {
            Some(between) => depth_along(between, second),
            None => None,
        },
    decreases second.len(),
{
    if second.len() == 0 {
        assert(first + second =~= first);
    } else {
        lemma_depth_along_in_turn(depth, first, second.drop_last());
        assert((first + second).drop_last() =~= first + second.drop_last());
    }
}

/// Taking items is transitive.
pub proof fn lemma_reads_in_turn(first: Cursor, second: Cursor, third: Cursor)
    requires
        second.reads(first),
        third.reads(second),
    ensures
        third.reads(first),
{
    let n = first.pending.len() - second.pending.len();
    let m = second.pending.len() - third.pending.len();
    assert(third.pending =~= first.pending.skip(n + m));
    assert(third.consumed(first) =~= second.consumed(first) + third.consumed(second));
    lemma_depth_along_in_turn(first.depth, second.consumed(first), third.consumed(second));
}

/// Reading forward is transitive.
pub proof fn lemma_follows_in_turn(first: Cursor, second: Cursor, third: Cursor)
    requires
        second.follows(first),
        third.follows(second),
    ensures
        third.follows(first),
{
    lemma_reads_in_turn(first, second, third);
}

/// Taking one pending item reads it and leaves the current token and the buffer alone.
pub proof fn lemma_pull_reads_forward(c: Cursor)
    ensures
        c.pull().0.reads(c),
        c.pull().0.attrs == c.attrs,
        c.pull().0.current == c.current,
{
    reveal_with_fuel(depth_along, 2);
    let next = c.pull().0;
    if c.refused || c.pending.len() == 0 {
        assert(c.pending =~= c.pending.skip(0));
    } else {
        assert(next.consumed(c).last() == c.pending[0]);
    }
}

/// A move reads forward.
pub proof fn lemma_advance_reads_forward(c: Cursor)
    ensures
        c.advance().0.follows(c),
{
    lemma_pull_reads_forward(c);
}

/// Moving to the next start tag reads forward.
pub proof fn lemma_advance_to_tag_reads_forward(c: Cursor)
    ensures
        c.advance_to_tag().0.follows(c),
    decreases c.pending.len(),
{
    lemma_advance_reads_forward(c);
    let (next, moved) = c.advance();
    if moved matches Ok(Some(token)) && !(token is ElementStart) {
        lemma_advance_to_tag_reads_forward(next);
        lemma_follows_in_turn(c, next, next.advance_to_tag().0);
    }
}

/// Gathering attributes reads forward, and puts nothing but attributes into the buffer.
pub proof fn lemma_fill_reads_forward(c: Cursor)
    ensures
        c.gather().0.follows(c),
        c.fill().0.follows(c),
    decreases c.pending.len(),
{
    lemma_pull_reads_forward(c);
    let (next, pulled) = c.pull();
    if let Ok(Some(token)) = pulled {
        if token is Attribute {
            let more = Cursor { attrs: next.attrs.push(token), ..next };
            lemma_fill_reads_forward(more);
            lemma_follows_in_turn(c, more, more.gather().0);
        }
    }
    assert(c.pending =~= c.pending.skip(0));
}

/// Passing over attributes reads forward, and so does asking whether the element is
/// empty.
pub proof fn lemma_is_empty_element_reads_forward(c: Cursor)
    ensures
        c.pass_attributes().0.follows(c),
        c.is_empty_element().0.follows(c),
    decreases c.pending.len(),
{
    lemma_advance_reads_forward(c);
    lemma_fill_reads_forward(c);
    let (next, moved) = c.advance();
    if let Ok(Some(token)) = moved {
        if token is Attribute {
            lemma_is_empty_element_reads_forward(next);
            lemma_follows_in_turn(c, next, next.pass_attributes().0);
        }
    }
}

/// Reading on to the end of an element reads forward, whatever was seen before.
pub proof fn lemma_read_text_reads_forward(c: Cursor, seen: Option<&str>)
    ensures
        c.read_text(seen).0.follows(c),
    decreases c.pending.len(),
{
    lemma_advance_reads_forward(c);
    let (next, moved) = c.advance();
    if let Ok(Some(token)) = moved {
        match token {
            Token::Text { text, .. } | Token::Cdata { text, .. } => {
                lemma_read_text_reads_forward(next, Some(text));
                lemma_follows_in_turn(c, next, next.read_text(Some(text)).0);
            },
            Token::Attribute { .. } => {
                let more = Cursor { attrs: next.attrs.push(token), ..next };
                lemma_read_text_reads_forward(more, seen);
                lemma_follows_in_turn(c, more, more.read_text(seen).0);
            },
            _ => {
                lemma_read_text_reads_forward(next, seen);
                lemma_follows_in_turn(c, next, next.read_text(seen).0);
            },
        }
    }
}

/// Reading the text of an element reads forward.
pub proof fn lemma_element_text_reads_forward(c: Cursor)
    ensures
        c.element_text().0.follows(c),
{
    lemma_read_text_reads_forward(c, None);
    assert(c.pending =~= c.pending.skip(0));
}

/// Looking for the end of an element reads on and leaves the buffer alone.
pub proof fn lemma_seek_end_reads_forward(c: Cursor, anchor: nat)
    ensures
        c.seek_end(anchor).0.reads(c),
        c.seek_end(anchor).0.attrs == c.attrs,
    decreases c.pending.len(),
{
    lemma_pull_reads_forward(c);
    let (next, pulled) = c.pull();
    if let Ok(Some(token)) = pulled {
        lemma_seek_end_reads_forward(next, anchor);
        lemma_reads_in_turn(c, next, next.seek_end(anchor).0);
    }
}

/// Looking for the end of an element does not leave the element another way. From a
/// depth above `anchor` the search comes to rest on a token that ends an element, or
/// still deeper than `anchor`.
pub proof fn lemma_seek_end_stays_inside(c: Cursor, anchor: nat)
    requires
        c.depth > anchor,
    ensures
        ({
            let found = c.seek_end(anchor).0;
            ||| found.depth > anchor
            ||| found.current matches Some(token) && token.ends_element()
        }),
    decreases c.pending.len(),
{
    let (next, pulled) = c.pull();
    if let Ok(Some(token)) = pulled {
        if !(Cursor { current: Some(token), ..next }).at_end_of(anchor) {
            lemma_seek_end_stays_inside(next, anchor);
        }
    }
}

/// Looking for the end of an element leaves the reader on the token it stood on, or
/// on a token that ends an element.
pub proof fn lemma_seek_end_keeps_current(c: Cursor, anchor: nat)
    ensures
        ({
            let found = c.seek_end(anchor).0;
            ||| found.current == c.current
            ||| found.current matches Some(token) && token.ends_element()
        }),
    decreases c.pending.len(),
{
    let (next, pulled) = c.pull();
    if let Ok(Some(token)) = pulled {
        lemma_seek_end_keeps_current(next, anchor);
    }
}

/// Skipping an element reads forward and leaves the buffer alone.
pub proof fn lemma_skip_element_reads_forward(c: Cursor)
    ensures
        c.skip_element().0.follows(c),
        c.skip_element().0.attrs == c.attrs,
{
    assert(c.pending =~= c.pending.skip(0));
    if let Some(anchor) = c.anchor() {
        lemma_seek_end_reads_forward(c, anchor);
        lemma_seek_end_keeps_current(c, anchor);
        if c.depth > anchor {
            lemma_seek_end_stays_inside(c, anchor);
        }
    }
}

/// A confined reader reads forward with the reader underneath, and keeps the depth at
/// which it was opened.
pub proof fn lemma_scope_reads_forward(s: Scope)
    ensures
        s.advance().0.cursor.follows(s.cursor),
        s.advance().0.initial_depth == s.initial_depth,
        s.advance_to_tag().0.cursor.follows(s.cursor),
        s.advance_to_tag().0.initial_depth == s.initial_depth,
    decreases s.cursor.pending.len(),
{
    lemma_advance_reads_forward(s.cursor);
    assert(s.cursor.pending =~= s.cursor.pending.skip(0));
    let (next, moved) = s.advance();
    if let Ok(Some(token)) = moved {
        if !(token is ElementStart) {
            lemma_scope_reads_forward(next);
            lemma_follows_in_turn(s.cursor, next.cursor, next.advance_to_tag().0.cursor);
        }
    }
}

} // verus!
