//! A named slot of a model without structured children.

use crate::error::{outcome, ErrorView, ParseError};
use crate::reader::{
    after, decodes, empties, judge, self_closing, token_at, verdict, EventReader, Verdict,
};
use crate::utils::{attribute_map, attributes_to_map, required, AttrMap};
use crate::xml::{StartTag, Token};
use vstd::prelude::*;

verus! {

/// `<multiField name="..." type="..."/>`
#[derive(Debug, PartialEq)]
pub struct MultiField {
    pub name: String,
    pub dtype: String,
}

/// The mathematical value of [`MultiField`].
pub struct MultiFieldView {
    pub name: Seq<char>,
    pub dtype: Seq<char>,
}

impl View for MultiField {
    type V = MultiFieldView;

    open spec fn view(&self) -> MultiFieldView {
        MultiFieldView { name: self.name@, dtype: self.dtype@ }
    }
}

/// The body of a multi field from `pos` on: `<empty/>` markers and white
/// space up to the end tag. It holds nothing.
pub open spec fn multi_field_body(tokens: Seq<Token>, pos: nat) -> (Result<(), ErrorView>, nat)
    decreases tokens.len() - pos,
{
    let token = token_at(tokens, pos);
    if empties(token, "empty"@) {
        multi_field_body(tokens, pos + 1)
    } else {
        match verdict("multiField"@, token) {
            Verdict::Closed => (Ok(()), pos + 1),
            Verdict::Ignored => multi_field_body(tokens, pos + 1),
            Verdict::Failed(e) => (Err(e), after(tokens, pos)),
        }
    }
}

/// The multi field that the attributes `map` make.
pub open spec fn multi_field_from(map: Map<Seq<char>, Seq<char>>) -> Result<
    MultiFieldView,
    ErrorView,
> {
    match required(map, "multiField"@, "name"@) {
        Err(e) => Err(e),
        Ok(name) => match required(map, "multiField"@, "type"@) {
            Err(e) => Err(e),
            Ok(dtype) => Ok(MultiFieldView { name, dtype }),
        },
    }
}

/// The multi field that the tag `tag` opens, and where its decoding ends.
pub open spec fn decode_multi_field(tag: StartTag, tokens: Seq<Token>, pos: nat) -> (
    Result<MultiFieldView, ErrorView>,
    nat,
) {
    match attribute_map(tag.attributes@) {
        None => (Err(ErrorView::MalformedAttribute), pos),
        Some(map) => {
            let (body, next) = multi_field_body(tokens, pos);
            match body {
                Err(e) => (Err(e), next),
                Ok(_) => (multi_field_from(map), next),
            }
        },
    }
}

/// The multi field that a self-closing tag `tag` stands for.
pub open spec fn decode_multi_field_empty(tag: StartTag) -> Result<MultiFieldView, ErrorView> {
    match attribute_map(tag.attributes@) {
        None => Err(ErrorView::MalformedAttribute),
        Some(map) => multi_field_from(map),
    }
}

impl MultiField {
    /// Makes a multi field of its attributes.
    fn assemble(map: &AttrMap) -> (r: Result<MultiField, ParseError>)
        ensures
            outcome(r) == multi_field_from(map@),
    {
        let name = map.require("multiField", "name")?;
        let dtype = map.require("multiField", "type")?;
        Ok(MultiField { name, dtype })
    }

    /// Decodes the multi field whose opening tag `e` has just been read.
    pub fn parse_one(e: &StartTag, reader: &mut EventReader) -> (r: Result<
        MultiField,
        ParseError,
    >)
        ensures
            decodes(
                *old(reader),
                *final(reader),
                r,
                decode_multi_field(*e, old(reader).tokens@, old(reader).position as nat),
            ),
    {
        let map = attributes_to_map(e)?;
        loop
            invariant
                reader.tokens == old(reader).tokens,
                reader.position >= old(reader).position,
                reader.position <= reader.tokens@.len() || reader.position == old(
                    reader,
                ).position,
                multi_field_body(reader.tokens@, reader.position as nat) == multi_field_body(
                    old(reader).tokens@,
                    old(reader).position as nat,
                ),
                attribute_map(e.attributes@) == Some(map@),
            decreases reader.tokens@.len() - reader.position,
        {
            let token = reader.read_event();
            if self_closing(token, "empty").is_some() {
                continue ;
            }
            if judge("multiField", token)? {
                return MultiField::assemble(&map);
            }
        }
    }

    /// Decodes the multi field that the self-closing tag `e` stands for.
    pub fn parse_one_empty(e: &StartTag) -> (r: Result<MultiField, ParseError>)
        ensures
            outcome(r) == decode_multi_field_empty(*e),
    {
        let map = attributes_to_map(e)?;
        MultiField::assemble(&map)
    }
}

} // verus!
