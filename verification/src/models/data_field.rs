//! A named slot of a model that refers to raw data sources.

use super::source::{decode_source, Source, SourceView};
use crate::error::{outcome, ErrorView, ParseError};
use crate::reader::{
    after, decodes, empties, judge, lemma_views_push, self_closing, tag_of, token_at, verdict,
    views, EventReader, Verdict,
};
use crate::utils::{attribute_map, attributes_to_map, required, AttrMap};
use crate::xml::{StartTag, Token};
use vstd::prelude::*;

verus! {

/// `<dataField name="..." type="...">` with its sources.
#[derive(Debug, PartialEq)]
pub struct DataField {
    pub name: String,
    pub dtype: String,
    pub sources: Vec<Source>,
}

/// The mathematical value of [`DataField`].
pub struct DataFieldView {
    pub name: Seq<char>,
    pub dtype: Seq<char>,
    pub sources: Seq<SourceView>,
}

impl View for DataField {
    type V = DataFieldView;

    open spec fn view(&self) -> DataFieldView {
        DataFieldView { name: self.name@, dtype: self.dtype@, sources: views(self.sources@) }
    }
}

/// The sources of a data field from `pos` on, after `acc`.
pub open spec fn data_field_sources(tokens: Seq<Token>, pos: nat, acc: Seq<SourceView>) -> (
    Result<Seq<SourceView>, ErrorView>,
    nat,
)
    decreases tokens.len() - pos,
{
    let token = token_at(tokens, pos);
    if empties(token, "source"@) {
        match decode_source(tag_of(token)) {
            Err(e) => (Err(e), pos + 1),
            Ok(source) => data_field_sources(tokens, pos + 1, acc.push(source)),
        }
    } else {
        match verdict("dataField"@, token) {
            Verdict::Closed => (Ok(acc), pos + 1),
            Verdict::Ignored => data_field_sources(tokens, pos + 1, acc),
            Verdict::Failed(e) => (Err(e), after(tokens, pos)),
        }
    }
}

/// The data field that the attributes `map` and the sources make.
pub open spec fn data_field_from(
    map: Map<Seq<char>, Seq<char>>,
    sources: Seq<SourceView>,
) -> Result<DataFieldView, ErrorView> {
    match required(map, "dataField"@, "name"@) {
        Err(e) => Err(e),
        Ok(name) => match required(map, "dataField"@, "type"@) {
            Err(e) => Err(e),
            Ok(dtype) => Ok(DataFieldView { name, dtype, sources }),
        },
    }
}

/// The data field that the tag `tag` opens, and where its decoding ends.
pub open spec fn decode_data_field(tag: StartTag, tokens: Seq<Token>, pos: nat) -> (
    Result<DataFieldView, ErrorView>,
    nat,
) {
    match attribute_map(tag.attributes@) {
        None => (Err(ErrorView::MalformedAttribute), pos),
        Some(map) => {
            let (sources, next) = data_field_sources(tokens, pos, Seq::empty());
            match sources {
                Err(e) => (Err(e), next),
                Ok(sources) => (data_field_from(map, sources), next),
            }
        },
    }
}

/// The data field that a self-closing tag `tag` stands for: one without
/// sources.
pub open spec fn decode_data_field_empty(tag: StartTag) -> Result<DataFieldView, ErrorView> {
    match attribute_map(tag.attributes@) {
        None => Err(ErrorView::MalformedAttribute),
        Some(map) => data_field_from(map, Seq::empty()),
    }
}

impl DataField {
    /// Makes a data field of its attributes and of what its body held.
    fn assemble(map: &AttrMap, sources: Vec<Source>) -> (r: Result<DataField, ParseError>)
        ensures
            outcome(r) == data_field_from(map@, views(sources@)),
    {
        let name = map.require("dataField", "name")?;
        let dtype = map.require("dataField", "type")?;
        Ok(DataField { name, dtype, sources })
    }

    /// Decodes the data field whose opening tag `e` has just been read.
    pub fn parse_one(e: &StartTag, reader: &mut EventReader) -> (r: Result<DataField, ParseError>)
        ensures
            decodes(
                *old(reader),
                *final(reader),
                r,
                decode_data_field(*e, old(reader).tokens@, old(reader).position as nat),
            ),
    {
        let map = attributes_to_map(e)?;
        let mut sources: Vec<Source> = Vec::new();
        proof {
            assert(views(sources@) =~= Seq::empty());
        }
        loop
            invariant
                reader.tokens == old(reader).tokens,
                reader.position >= old(reader).position,
                reader.position <= reader.tokens@.len() || reader.position == old(
                    reader,
                ).position,
                data_field_sources(reader.tokens@, reader.position as nat, views(sources@))
                    == data_field_sources(
                    old(reader).tokens@,
                    old(reader).position as nat,
                    Seq::empty(),
                ),
                attribute_map(e.attributes@) == Some(map@),
            decreases reader.tokens@.len() - reader.position,
        {
            let token = reader.read_event();
            if let Some(tag) = self_closing(token, "source") {
                let source = Source::parse_one(tag)?;
                proof {
                    lemma_views_push(sources@, source);
                }
                sources.push(source);
                continue ;
            }
            if judge("dataField", token)? {
                return DataField::assemble(&map, sources);
            }
        }
    }

    /// Decodes the data field that the self-closing tag `e` stands for.
    pub fn parse_one_empty(e: &StartTag) -> (r: Result<DataField, ParseError>)
        ensures
            outcome(r) == decode_data_field_empty(*e),
    {
        let map = attributes_to_map(e)?;
        let sources: Vec<Source> = Vec::new();
        proof {
            assert(views(sources@) =~= Seq::empty());
        }
        DataField::assemble(&map, sources)
    }
}

} // verus!
