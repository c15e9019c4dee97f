//! A named point in time of a file.

use crate::error::{outcome, ErrorView, ParseError};
use crate::reader::{decodes, EventReader};
use crate::utils::{attribute_map, attributes_to_map, read_text_of, required, text_content, AttrMap};
use crate::xml::{StartTag, Token};
use vstd::prelude::*;

verus! {

/// `<timestamp name="...">text</timestamp>`
#[derive(Debug, PartialEq)]
pub struct Timestamp {
    pub name: String,
    pub text: String,
}

/// The mathematical value of [`Timestamp`].
pub struct TimestampView {
    pub name: Seq<char>,
    pub text: Seq<char>,
}

impl View for Timestamp {
    type V = TimestampView;

    open spec fn view(&self) -> TimestampView {
        TimestampView { name: self.name@, text: self.text@ }
    }
}

/// The timestamp that the attributes `map` and the text `text` make.
pub open spec fn timestamp_from(map: Map<Seq<char>, Seq<char>>, text: Seq<char>) -> Result<
    TimestampView,
    ErrorView,
> {
    match required(map, "timestamp"@, "name"@) {
        Ok(name) => Ok(TimestampView { name, text }),
        Err(e) => Err(e),
    }
}

/// The timestamp that the tag `tag` opens, and where its decoding ends.
pub open spec fn decode_timestamp(tag: StartTag, tokens: Seq<Token>, pos: nat) -> (
    Result<TimestampView, ErrorView>,
    nat,
) {
    match attribute_map(tag.attributes@) {
        None => (Err(ErrorView::MalformedAttribute), pos),
        Some(map) => {
            let (text, next) = text_content("timestamp"@, tokens, pos, Seq::empty());
            match text {
                Err(e) => (Err(e), next),
                Ok(text) => (timestamp_from(map, text), next),
            }
        },
    }
}

impl Timestamp {
    /// Makes a timestamp of its attributes and of what its body held.
    fn assemble(map: &AttrMap, text: String) -> (r: Result<Timestamp, ParseError>)
        ensures
            outcome(r) == timestamp_from(map@, text@),
    {
        let name = map.require("timestamp", "name")?;
        Ok(Timestamp { name, text })
    }

    /// Decodes the timestamp whose opening tag `e` has just been read.
    pub fn parse_one(e: &StartTag, reader: &mut EventReader) -> (r: Result<
        Timestamp,
        ParseError,
    >)
        ensures
            decodes(
                *old(reader),
                *final(reader),
                r,
                decode_timestamp(*e, old(reader).tokens@, old(reader).position as nat),
            ),
    {
        let map = attributes_to_map(e)?;
        let text = read_text_of("timestamp", reader)?;
        Timestamp::assemble(&map, text)
    }
}

} // verus!
