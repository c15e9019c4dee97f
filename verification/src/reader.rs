//! A cursor over the tokens of a document, and the rules that every element
//! decoder shares: how a tag is recognised, how text is decoded, and what an
//! event means that is no child of the element.

use crate::error::{outcome, ErrorView, EventKind, ParseError};
use crate::text::{blank, bytes_eq, decode, is_blank, text_view, trim, trimmed, utf8_text};
use crate::xml::{kind_of, unescape, unescaped, StartTag, Token, XmlEvent};
use vstd::prelude::*;
use vstd::utf8::encode_utf8;

verus! {

/// A forward-only cursor over a token stream.
pub struct EventReader<'a> {
    pub tokens: &'a [Token],
    pub position: usize,
}

/// The token at `pos`, if the stream has one there.
pub open spec fn token_at(tokens: Seq<Token>, pos: nat) -> Option<Token> {
    if pos < tokens.len() {
        Some(tokens[pos as int])
    } else {
        None
    }
}

/// The position behind the token at `pos`: one further, unless the stream is
/// over.
pub open spec fn after(tokens: Seq<Token>, pos: nat) -> nat {
    if pos < tokens.len() {
        pos + 1
    } else {
        pos
    }
}

/// Where decoding goes on after a child whose tag stood at `pos` and that
/// left the cursor at `next`. A child leaves the cursor behind its own tag and
/// within the stream.
pub open spec fn resume(tokens: Seq<Token>, pos: nat, next: nat) -> nat {
    if pos < next <= tokens.len() {
        next
    } else {
        pos + 1
    }
}

/// Whether the raw name `name` is the element name `element`.
pub open spec fn named(name: Seq<u8>, element: Seq<char>) -> bool {
    name == encode_utf8(element)
}

/// Whether `token` is the opening tag of an element called `element`.
pub open spec fn opens(token: Option<Token>, element: Seq<char>) -> bool {
    token matches Some(t) && t.event matches XmlEvent::Start(tag) && named(tag.name@, element)
}

/// Whether `token` is a self-closing tag of an element called `element`.
pub open spec fn empties(token: Option<Token>, element: Seq<char>) -> bool {
    token matches Some(t) && t.event matches XmlEvent::Empty(tag) && named(tag.name@, element)
}

/// The tag that an opening or self-closing `token` holds.
pub open spec fn tag_of(token: Option<Token>) -> StartTag {
    match token {
        Some(t) => match t.event {
            XmlEvent::Start(tag) => tag,
            XmlEvent::Empty(tag) => tag,
            _ => arbitrary(),
        },
        None => arbitrary(),
    }
}

/// The text of a character-data event or of an attribute value: the bytes
/// decoded as UTF-8, with references resolved.
pub open spec fn text_of(raw: Seq<u8>) -> Option<Seq<char>> {
    match utf8_text(raw) {
        Some(s) => unescaped(s),
        None => None,
    }
}

/// The text of a CDATA section: the bytes decoded as UTF-8 and trimmed of
/// surrounding white space. Nothing in it is a reference.
pub open spec fn cdata_of(raw: Seq<u8>) -> Option<Seq<char>> {
    match utf8_text(raw) {
        Some(s) => Some(trimmed(s)),
        None => None,
    }
}

/// What an event means to an element that it is no child of.
pub enum Verdict {
    /// The element's own end tag.
    Closed,
    /// White space between children.
    Ignored,
    /// Anything else.
    Failed(ErrorView),
}

/// The meaning of `token` inside the element `element`, once it is known to
/// be none of the element's children.
pub open spec fn verdict(element: Seq<char>, token: Option<Token>) -> Verdict {
    match token {
        None => Verdict::Failed(ErrorView::PrematureEof { element }),
        Some(t) => match t.event {
            XmlEvent::End(name) => if named(name@, element) {
                Verdict::Closed
            } else {
                Verdict::Failed(
                    ErrorView::UnexpectedEvent {
                        element,
                        observed: EventKind::End,
                        offset: t.offset,
                    },
                )
            },
            XmlEvent::Eof => Verdict::Failed(ErrorView::PrematureEof { element }),
            XmlEvent::Malformed => Verdict::Failed(ErrorView::Xml),
            XmlEvent::Text(raw) => match text_of(raw@) {
                None => Verdict::Failed(ErrorView::Xml),
                Some(s) => if is_blank(s) {
                    Verdict::Ignored
                } else {
                    Verdict::Failed(
                        ErrorView::UnexpectedEvent {
                            element,
                            observed: EventKind::Text,
                            offset: t.offset,
                        },
                    )
                },
            },
            _ => Verdict::Failed(
                ErrorView::UnexpectedEvent {
                    element,
                    observed: kind_of(t.event),
                    offset: t.offset,
                },
            ),
        },
    }
}

/// What a decoder owes: it leaves the tokens as they are, moves the cursor
/// forwards only and not beyond the stream, and ends with the cursor and the
/// outcome that `expected` states.
pub open spec fn decodes<T: View>(
    before: EventReader,
    after: EventReader,
    r: Result<T, ParseError>,
    expected: (Result<T::V, ErrorView>, nat),
) -> bool {
    &&& after.tokens == before.tokens
    &&& after.position >= before.position
    &&& after.position <= after.tokens@.len() || after.position == before.position
    &&& after.position == expected.1
    &&& outcome(r) == expected.0
}

/// The views of a sequence of values.
pub open spec fn views<T: View>(items: Seq<T>) -> Seq<T::V> {
    items.map_values(|item: T| item@)
}

/// The view of an optional value.
pub open spec fn option_view<T: View>(item: Option<T>) -> Option<T::V> {
    match item {
        Some(x) => Some(x@),
        None => None,
    }
}

/// The views of a sequence with one more item are the views of the sequence
/// with the view of the item.
pub proof fn lemma_views_push<T: View>(items: Seq<T>, item: T)
    ensures
        views(items.push(item)) == views(items).push(item@),
{
    assert(views(items.push(item)) =~= views(items).push(item@));
}

impl<'a> EventReader<'a> {
    /// A cursor at the start of `tokens`.
    pub fn new(tokens: &'a [Token]) -> (reader: EventReader<'a>)
        ensures
            reader.tokens == tokens,
            reader.position == 0,
    {
        EventReader { tokens, position: 0 }
    }

    /// Hands out the next token and moves behind it. At the end of the stream
    /// there is none, and the cursor stays.
    pub fn read_event(&mut self) -> (token: Option<&'a Token>)
        ensures
            final(self).tokens == old(self).tokens,
            final(self).position == after(old(self).tokens@, old(self).position as nat),
            match token {
                Some(t) => token_at(old(self).tokens@, old(self).position as nat) == Some(*t),
                None => token_at(old(self).tokens@, old(self).position as nat) is None,
            },
    {
        if self.position < self.tokens.len() {
            let token = &self.tokens[self.position];
            self.position = self.position + 1;
            Some(token)
        } else {
            None
        }
    }

    /// The position in the input behind the last token that was handed out;
    /// zero before the first.
    pub fn buffer_position(&self) -> (offset: u64)
        ensures
            offset == if 0 < self.position <= self.tokens@.len() {
                self.tokens@[self.position - 1].offset
            } else {
                0
            },
    {
        if 0 < self.position && self.position <= self.tokens.len() {
            self.tokens[self.position - 1].offset
        } else {
            0
        }
    }
}

/// Whether the raw name `name` is the element name `element`.
pub fn name_is(name: &Vec<u8>, element: &str) -> (b: bool)
    ensures
        b == named(name@, element@),
{
    bytes_eq(name.as_slice(), element.as_bytes())
}

/// The tag of `token`, if `token` opens an element called `element`.
pub fn opening<'a>(token: Option<&'a Token>, element: &str) -> (tag: Option<&'a StartTag>)
    ensures
        match tag {
            Some(t) => token matches Some(tok) && opens(Some(*tok), element@) && *t == tag_of(
                Some(*tok),
            ),
            None => token matches Some(tok) ==> !opens(Some(*tok), element@),
        },
{
    match token {
        Some(t) => match &t.event {
            XmlEvent::Start(tag) => if name_is(&tag.name, element) {
                Some(tag)
            } else {
                None
            },
            _ => None,
        },
        None => None,
    }
}

/// The tag of `token`, if `token` is a self-closing tag called `element`.
pub fn self_closing<'a>(token: Option<&'a Token>, element: &str) -> (tag: Option<&'a StartTag>)
    ensures
        match tag {
            Some(t) => token matches Some(tok) && empties(Some(*tok), element@) && *t == tag_of(
                Some(*tok),
            ),
            None => token matches Some(tok) ==> !empties(Some(*tok), element@),
        },
{
    match token {
        Some(t) => match &t.event {
            XmlEvent::Empty(tag) => if name_is(&tag.name, element) {
                Some(tag)
            } else {
                None
            },
            _ => None,
        },
        None => None,
    }
}

/// Decodes character data or an attribute value.
pub fn decode_text(raw: &[u8]) -> (text: Option<String>)
    ensures
        text_view(text) == text_of(raw@),
{
    match decode(raw) {
        Some(s) => unescape(s.as_str()),
        None => None,
    }
}

/// Decodes the content of a CDATA section.
pub fn decode_cdata(raw: &[u8]) -> (text: Option<String>)
    ensures
        text_view(text) == cdata_of(raw@),
{
    match decode(raw) {
        Some(s) => Some(trim(s.as_str())),
        None => None,
    }
}

/// Judges an event that is no child of the element `element`: `Ok(true)` for
/// the element's end tag, `Ok(false)` for white space to pass over.
pub fn judge(element: &str, token: Option<&Token>) -> (r: Result<bool, ParseError>)
    ensures
        match r {
            Ok(closed) => if closed {
                token matches Some(t) && verdict(element@, Some(*t)) is Closed
            } else {
                token matches Some(t) && verdict(element@, Some(*t)) is Ignored
            },
            Err(e) => match token {
                Some(t) => verdict(element@, Some(*t)) == Verdict::Failed(e@),
                None => verdict(element@, None) == Verdict::Failed(e@),
            },
        },
{
    match token {
        None => Err(ParseError::premature_eof(element)),
        Some(t) => match &t.event {
            XmlEvent::End(name) => if name_is(name, element) {
                Ok(true)
            } else {
                Err(ParseError::unexpected_event(element, EventKind::End, t.offset))
            },
            XmlEvent::Eof => Err(ParseError::premature_eof(element)),
            XmlEvent::Malformed => Err(ParseError::xml()),
            XmlEvent::Text(raw) => match decode_text(raw.as_slice()) {
                None => Err(ParseError::xml()),
                Some(s) => if blank(s.as_str()) {
                    Ok(false)
                } else {
                    Err(ParseError::unexpected_event(element, EventKind::Text, t.offset))
                },
            },
            other => Err(ParseError::unexpected_event(element, other.kind(), t.offset)),
        },
    }
}

} // verus!
