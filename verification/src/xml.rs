//! The token stream of an XML document. The tokenizer is the `quick_xml`
//! reader; this module turns what it yields into plain values and names the
//! results that the decoders are stated over.

use crate::error::EventKind;
use quick_xml::events::Event::{CData, Comment, Decl, DocType, Empty, End, Eof, Start, Text, PI};
use vstd::prelude::*;
use vstd::slice::slice_to_vec;

verus! {

#[verifier::external_type_specification]
#[verifier::external_body]
#[verifier::reject_recursive_types(R)]
pub struct ExReader<R>(quick_xml::Reader<R>);

#[verifier::external_type_specification]
#[verifier::external_body]
pub struct ExBytesStart<'a>(quick_xml::events::BytesStart<'a>);

/// One item of a tag's attribute list, before any decoding.
#[derive(Clone, Debug, PartialEq, Eq)]
pub enum RawAttribute {
    /// A name and the bytes between the quotes of its value.
    Pair { key: Vec<u8>, value: Vec<u8> },
    /// A piece of the list that is no `name="value"` pair, or that repeats a
    /// name.
    Malformed,
}

impl RawAttribute {
    /// The item `key="value"`, with the name and the value as they stand in
    /// the document.
    pub fn pair(key: &[u8], value: &[u8]) -> (a: RawAttribute)
        ensures
            a matches RawAttribute::Pair { key: k, value: v } && k@ == key@ && v@ == value@,
    {
        RawAttribute::Pair { key: slice_to_vec(key), value: slice_to_vec(value) }
    }

    /// An item that is no pair.
    pub fn malformed() -> (a: RawAttribute)
        ensures
            a is Malformed,
    {
        RawAttribute::Malformed
    }
}

/// An opening or a self-closing tag: its name and its attribute list.
#[derive(Clone, Debug, PartialEq, Eq)]
pub struct StartTag {
    pub name: Vec<u8>,
    pub attributes: Vec<RawAttribute>,
}

/// What the tokenizer found.
#[derive(Clone, Debug, PartialEq, Eq)]
pub enum XmlEvent {
    /// `<name ...>`
    Start(StartTag),
    /// `<name .../>`
    Empty(StartTag),
    /// `</name>`, with the name.
    End(Vec<u8>),
    /// Character data between markup, still escaped.
    Text(Vec<u8>),
    /// The content of a `<![CDATA[...]]>` section.
    CData(Vec<u8>),
    /// `<!-- ... -->`
    Comment,
    /// `<?xml ...?>`
    Decl,
    /// `<?target ...?>`
    PI,
    /// `<!DOCTYPE ...>`
    DocType,
    /// The end of the input.
    Eof,
    /// The input is no well-formed XML from here on.
    Malformed,
}

/// An event and the position in the input just behind it.
#[derive(Clone, Debug, PartialEq, Eq)]
pub struct Token {
    pub event: XmlEvent,
    pub offset: u64,
}

/// The kind of an event.
pub open spec fn kind_of(event: XmlEvent) -> EventKind {
    match event {
        XmlEvent::Start(_) => EventKind::Start,
        XmlEvent::Empty(_) => EventKind::Empty,
        XmlEvent::End(_) => EventKind::End,
        XmlEvent::Text(_) => EventKind::Text,
        XmlEvent::CData(_) => EventKind::CData,
        XmlEvent::Comment => EventKind::Comment,
        XmlEvent::Decl => EventKind::Decl,
        XmlEvent::PI => EventKind::PI,
        XmlEvent::DocType => EventKind::DocType,
        XmlEvent::Eof => EventKind::Eof,
        XmlEvent::Malformed => EventKind::Malformed,
    }
}

/// Whether the stream ends with this event.
pub open spec fn is_terminal(event: XmlEvent) -> bool {
    event is Eof || event is Malformed
}

impl XmlEvent {
    /// The kind of the event.
    pub fn kind(&self) -> (k: EventKind)
        ensures
            k == kind_of(*self),
    {
        match self {
            XmlEvent::Start(_) => EventKind::Start,
            XmlEvent::Empty(_) => EventKind::Empty,
            XmlEvent::End(_) => EventKind::End,
            XmlEvent::Text(_) => EventKind::Text,
            XmlEvent::CData(_) => EventKind::CData,
            XmlEvent::Comment => EventKind::Comment,
            XmlEvent::Decl => EventKind::Decl,
            XmlEvent::PI => EventKind::PI,
            XmlEvent::DocType => EventKind::DocType,
            XmlEvent::Eof => EventKind::Eof,
            XmlEvent::Malformed => EventKind::Malformed,
        }
    }
}

/// Whether the stream ends with its first terminal event: it is not empty,
/// its last event is the end of the input or an error, and no event before
/// is.
pub open spec fn well_ended(tokens: Seq<Token>) -> bool {
    &&& tokens.len() > 0
    &&& is_terminal(tokens.last().event)
    &&& forall|i: int| 0 <= i < tokens.len() - 1 ==> !is_terminal(#[trigger] tokens[i].event)
}

/// The tokens of the document `input`: what a `quick_xml` reader with its
/// default configuration yields on these bytes, event by event, each with
/// the position of the reader behind it, up to and including the first end
/// of input or the first error.
pub uninterp spec fn xml_tokens(input: Seq<u8>) -> Seq<Token>;

/// The tokens that `reader` yields from where it stands, up to and including
/// the first end of input or the first error.
pub uninterp spec fn pending_tokens(reader: quick_xml::Reader<&[u8]>) -> Seq<Token>;

/// The position of `reader` in its input.
pub uninterp spec fn reader_offset(reader: quick_xml::Reader<&[u8]>) -> u64;

/// The text that `raw` stands for once its character and entity references
/// are resolved, as `quick_xml::escape::unescape` does it; `None` where that
/// fails.
pub uninterp spec fn unescaped(raw: Seq<char>) -> Option<Seq<char>>;

/// `quick_xml::Reader::from_reader` on a byte slice. A new reader has the
/// whole document before it. Every call of `read_event` takes bytes from the
/// input or reports its end, so the tokens to come end with the end of the
/// input or with an error.
#[verifier::external_body]
fn open_reader<'a>(input: &'a [u8]) -> (reader: quick_xml::Reader<&'a [u8]>)
    ensures
        pending_tokens(reader) == xml_tokens(input@),
        well_ended(pending_tokens(reader)),
{
    quick_xml::Reader::from_reader(input)
}

/// `BytesStart::name` and `BytesStart::attributes`: the name of a tag and the
/// items of its attribute list, each as the iterator gives it. Nothing is
/// claimed of them here.
#[verifier::external_body]
fn raw_tag(e: &quick_xml::events::BytesStart) -> (tag: StartTag) {
    StartTag {
        name: e.name().as_ref().to_vec(),
        attributes: e.attributes().map(
            |a| match a {
                Ok(a) => RawAttribute::pair(a.key.as_ref(), &a.value),
                Err(_) => RawAttribute::malformed(),
            },
        ).collect(),
    }
}

/// `quick_xml::Reader::read_event` on a byte slice. The event is that of the
/// first token to come, and the reader then stands where that token says.
/// Unless the event ends the stream, the tokens behind it are those that the
/// reader yields from there.
#[verifier::external_body]
fn next_event(reader: &mut quick_xml::Reader<&[u8]>) -> (event: XmlEvent)
    requires
        pending_tokens(*old(reader)).len() > 0,
    ensures
        event == pending_tokens(*old(reader))[0].event,
        reader_offset(*final(reader)) == pending_tokens(*old(reader))[0].offset,
        !is_terminal(event) ==> pending_tokens(*final(reader)) == pending_tokens(
            *old(reader),
        ).skip(1),
{
    match reader.read_event() {
        Ok(Start(e)) => XmlEvent::Start(raw_tag(&e)),
        Ok(Empty(e)) => XmlEvent::Empty(raw_tag(&e)),
        Ok(End(e)) => XmlEvent::End(e.to_vec()),
        Ok(Text(e)) => XmlEvent::Text(e.to_vec()),
        Ok(CData(e)) => XmlEvent::CData(e.to_vec()),
        Ok(Comment(_)) => XmlEvent::Comment,
        Ok(Decl(_)) => XmlEvent::Decl,
        Ok(PI(_)) => XmlEvent::PI,
        Ok(DocType(_)) => XmlEvent::DocType,
        Ok(Eof) => XmlEvent::Eof,
        Err(_) => XmlEvent::Malformed,
    }
}

/// `quick_xml::Reader::buffer_position`: the position of the reader in its
/// input.
#[verifier::external_body]
fn position(reader: &quick_xml::Reader<&[u8]>) -> (offset: u64)
    ensures
        offset == reader_offset(*reader),
{
    reader.buffer_position()
}

/// `quick_xml::escape::unescape`: resolves the character references and the
/// predefined entities of `raw`.
#[verifier::external_body]
pub(crate) fn unescape(raw: &str) -> (text: Option<String>)
    ensures
        crate::text::text_view(text) == unescaped(raw@),
{
    match quick_xml::escape::unescape(raw) {
        Ok(text) => Some(text.into_owned()),
        Err(_) => None,
    }
}

/// Reads the document `input` into its tokens. The stream that comes out
/// ends with the end of the input or with the first error.
pub fn tokenize(input: &[u8]) -> (tokens: Vec<Token>)
    ensures
        tokens@ == xml_tokens(input@),
        well_ended(tokens@),
{
    let mut reader = open_reader(input);
    let mut tokens: Vec<Token> = Vec::new();
    loop
        invariant_except_break
            well_ended(pending_tokens(reader)),
            forall|i: int| 0 <= i < tokens@.len() ==> !is_terminal(#[trigger] tokens@[i].event),
            tokens@ + pending_tokens(reader) == xml_tokens(input@),
        ensures
            tokens@ == xml_tokens(input@),
            well_ended(tokens@),
        decreases pending_tokens(reader).len(),
    {
        let ghost before = pending_tokens(reader);
        let event = next_event(&mut reader);
        let offset = position(&reader);
        let done = match event {
            XmlEvent::Eof => true,
            XmlEvent::Malformed => true,
            _ => false,
        };
        tokens.push(Token { event, offset });
        proof {
            assert(before =~= seq![before[0]] + before.skip(1));
            if done {
                assert(before.len() == 1);
                assert(before.skip(1) =~= Seq::empty());
                assert(tokens@ =~= xml_tokens(input@));
            } else {
                assert(before.len() >= 2);
                assert(before.skip(1).last() == before.last());
                assert(forall|i: int|
                    0 <= i < before.skip(1).len() - 1 ==> before.skip(1)[i] == before[i + 1]);
                assert(tokens@ + pending_tokens(reader) =~= xml_tokens(input@));
            }
        }
        if done {
            break ;
        }
    }
    tokens
}

} // verus!
