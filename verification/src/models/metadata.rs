//! A section of metadata items.

use super::commons::{decode_item, Item, ItemView};
use crate::error::{outcome, ErrorView, ParseError};
use crate::reader::{
    after, decodes, judge, lemma_views_push, opening, opens, resume, tag_of, token_at, verdict,
    views, EventReader, Verdict,
};
use crate::utils::{attribute_map, attributes_to_map, required, AttrMap};
use crate::xml::{StartTag, Token};
use vstd::prelude::*;

verus! {

/// `<metadata section="...">` with its items.
#[derive(Debug, PartialEq)]
pub struct Metadata {
    pub section: String,
    pub items: Vec<Item>,
}

/// The mathematical value of [`Metadata`].
pub struct MetadataView {
    pub section: Seq<char>,
    pub items: Seq<ItemView>,
}

impl View for Metadata {
    type V = MetadataView;

    open spec fn view(&self) -> MetadataView {
        MetadataView { section: self.section@, items: views(self.items@) }
    }
}

/// The items of a metadata section from `pos` on, after `acc`.
pub open spec fn metadata_items(tokens: Seq<Token>, pos: nat, acc: Seq<ItemView>) -> (
    Result<Seq<ItemView>, ErrorView>,
    nat,
)
    decreases tokens.len() - pos,
{
    let token = token_at(tokens, pos);
    if opens(token, "item"@) {
        let (child, next) = decode_item(tag_of(token), tokens, pos + 1);
        match child {
            Err(e) => (Err(e), next),
            Ok(c) => metadata_items(tokens, resume(tokens, pos, next), acc.push(c)),
        }
    } else {
        match verdict("metadata"@, token) {
            Verdict::Closed => (Ok(acc), pos + 1),
            Verdict::Ignored => metadata_items(tokens, pos + 1, acc),
            Verdict::Failed(e) => (Err(e), after(tokens, pos)),
        }
    }
}

/// The metadata section that the attributes `map` and the items make.
pub open spec fn metadata_from(map: Map<Seq<char>, Seq<char>>, items: Seq<ItemView>) -> Result<
    MetadataView,
    ErrorView,
> {
    match required(map, "metadata"@, "section"@) {
        Ok(section) => Ok(MetadataView { section, items }),
        Err(e) => Err(e),
    }
}

/// The metadata section that the tag `tag` opens, and where its decoding
/// ends.
pub open spec fn decode_metadata(tag: StartTag, tokens: Seq<Token>, pos: nat) -> (
    Result<MetadataView, ErrorView>,
    nat,
) {
    match attribute_map(tag.attributes@) {
        None => (Err(ErrorView::MalformedAttribute), pos),
        Some(map) => {
            let (items, next) = metadata_items(tokens, pos, Seq::empty());
            match items {
                Err(e) => (Err(e), next),
                Ok(items) => (metadata_from(map, items), next),
            }
        },
    }
}

impl Metadata {
    /// Makes a metadata section of its attributes and of what its body held.
    fn assemble(map: &AttrMap, items: Vec<Item>) -> (r: Result<Metadata, ParseError>)
        ensures
            outcome(r) == metadata_from(map@, views(items@)),
    {
        let section = map.require("metadata", "section")?;
        Ok(Metadata { section, items })
    }

    /// Decodes the metadata section whose opening tag `e` has just been read.
    pub fn parse_one(e: &StartTag, reader: &mut EventReader) -> (r: Result<Metadata, ParseError>)
        ensures
            decodes(
                *old(reader),
                *final(reader),
                r,
                decode_metadata(*e, old(reader).tokens@, old(reader).position as nat),
            ),
    {
        let map = attributes_to_map(e)?;
        let mut items: Vec<Item> = Vec::new();
        proof {
            assert(views(items@) =~= Seq::empty());
        }
        loop
            invariant
                reader.tokens == old(reader).tokens,
                reader.position >= old(reader).position,
                reader.position <= reader.tokens@.len() || reader.position == old(
                    reader,
                ).position,
                metadata_items(reader.tokens@, reader.position as nat, views(items@))
                    == metadata_items(
                    old(reader).tokens@,
                    old(reader).position as nat,
                    Seq::empty(),
                ),
                attribute_map(e.attributes@) == Some(map@),
            decreases reader.tokens@.len() - reader.position,
        {
            let token = reader.read_event();
            if let Some(tag) = opening(token, "item") {
                let item = Item::parse_one(tag, reader)?;
                proof {
                    lemma_views_push(items@, item);
                }
                items.push(item);
                continue ;
            }
            if judge("metadata", token)? {
                return Metadata::assemble(&map, items);
            }
        }
    }
}

} // verus!
