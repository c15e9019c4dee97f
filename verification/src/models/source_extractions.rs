//! The extractions that a report was made from.

use crate::error::{outcome, ErrorView, ParseError};
use crate::reader::{
    after, decodes, empties, judge, lemma_views_push, self_closing, tag_of, token_at, verdict,
    views, EventReader, Verdict,
};
use crate::utils::{attribute_map, attributes_to_map, required, required_number};
use crate::xml::{StartTag, Token};
use vstd::prelude::*;

verus! {

/// `<sourceExtractions>` with its extractions.
#[derive(Debug, PartialEq)]
pub struct SourceExtractions {
    pub infos: Vec<ExtractionInfo>,
}

/// `<extractionInfo id="..." name="..." .../>`
#[derive(Debug, PartialEq)]
pub struct ExtractionInfo {
    pub id: u32,
    pub name: String,
    pub is_custom_name: String,
    pub dtype: String,
    pub device_name: String,
    pub full_name: String,
    pub index: u32,
    pub is_partial_data: String,
}

/// The mathematical value of [`ExtractionInfo`].
pub struct ExtractionInfoView {
    pub id: u32,
    pub name: Seq<char>,
    pub is_custom_name: Seq<char>,
    pub dtype: Seq<char>,
    pub device_name: Seq<char>,
    pub full_name: Seq<char>,
    pub index: u32,
    pub is_partial_data: Seq<char>,
}

/// The mathematical value of [`SourceExtractions`].
pub struct SourceExtractionsView {
    pub infos: Seq<ExtractionInfoView>,
}

impl View for ExtractionInfo {
    type V = ExtractionInfoView;

    open spec fn view(&self) -> ExtractionInfoView {
        ExtractionInfoView {
            id: self.id,
            name: self.name@,
            is_custom_name: self.is_custom_name@,
            dtype: self.dtype@,
            device_name: self.device_name@,
            full_name: self.full_name@,
            index: self.index,
            is_partial_data: self.is_partial_data@,
        }
    }
}

impl View for SourceExtractions {
    type V = SourceExtractionsView;

    open spec fn view(&self) -> SourceExtractionsView {
        SourceExtractionsView { infos: views(self.infos@) }
    }
}

/// The name, the name flag, the type and the device name of an extraction,
/// the first four of its texts.
pub open spec fn extraction_names(map: Map<Seq<char>, Seq<char>>) -> Result<
    (Seq<char>, Seq<char>, Seq<char>, Seq<char>),
    ErrorView,
> {
    match required(map, "extractionInfo"@, "name"@) {
        Err(e) => Err(e),
        Ok(name) => match required(map, "extractionInfo"@, "isCustomName"@) {
            Err(e) => Err(e),
            Ok(is_custom_name) => match required(map, "extractionInfo"@, "type"@) {
                Err(e) => Err(e),
                Ok(dtype) => match required(map, "extractionInfo"@, "deviceName"@) {
                    Err(e) => Err(e),
                    Ok(device_name) => Ok((name, is_custom_name, dtype, device_name)),
                },
            },
        },
    }
}

/// The extraction that the attributes `map` make. The first attribute that
/// is missing or no number fails it, in the order `id`, `name`,
/// `isCustomName`, `type`, `deviceName`, `fullName`, `index`,
/// `IsPartialData`.
pub open spec fn extraction_info_from(map: Map<Seq<char>, Seq<char>>) -> Result<
    ExtractionInfoView,
    ErrorView,
> {
    match required_number(map, "extractionInfo"@, "id"@, u32::MAX as nat) {
        Err(e) => Err(e),
        Ok(id) => match extraction_names(map) {
            Err(e) => Err(e),
            Ok(names) => match required(map, "extractionInfo"@, "fullName"@) {
                Err(e) => Err(e),
                Ok(full_name) => match required_number(
                    map,
                    "extractionInfo"@,
                    "index"@,
                    u32::MAX as nat,
                ) {
                    Err(e) => Err(e),
                    Ok(index) => match required(map, "extractionInfo"@, "IsPartialData"@) {
                        Err(e) => Err(e),
                        Ok(is_partial_data) => Ok(
                            ExtractionInfoView {
                                id: id as u32,
                                name: names.0,
                                is_custom_name: names.1,
                                dtype: names.2,
                                device_name: names.3,
                                full_name,
                                index: index as u32,
                                is_partial_data,
                            },
                        ),
                    },
                },
            },
        },
    }
}

/// The extraction that the self-closing tag `tag` stands for.
pub open spec fn decode_extraction_info(tag: StartTag) -> Result<ExtractionInfoView, ErrorView> {
    match attribute_map(tag.attributes@) {
        None => Err(ErrorView::MalformedAttribute),
        Some(map) => extraction_info_from(map),
    }
}

/// The extractions of the element from `pos` on, after `acc`.
pub open spec fn source_extractions_infos(
    tokens: Seq<Token>,
    pos: nat,
    acc: Seq<ExtractionInfoView>,
) -> (Result<Seq<ExtractionInfoView>, ErrorView>, nat)
    decreases tokens.len() - pos,
{
    let token = token_at(tokens, pos);
    if empties(token, "extractionInfo"@) {
        match decode_extraction_info(tag_of(token)) {
            Err(e) => (Err(e), pos + 1),
            Ok(c) => source_extractions_infos(tokens, pos + 1, acc.push(c)),
        }
    } else {
        match verdict("sourceExtractions"@, token) {
            Verdict::Closed => (Ok(acc), pos + 1),
            Verdict::Ignored => source_extractions_infos(tokens, pos + 1, acc),
            Verdict::Failed(e) => (Err(e), after(tokens, pos)),
        }
    }
}

/// What the element `sourceExtractions` decodes to, and where its decoding
/// ends, when the cursor stands at `pos` behind its opening tag.
pub open spec fn decode_source_extractions(tokens: Seq<Token>, pos: nat) -> (
    Result<SourceExtractionsView, ErrorView>,
    nat,
) {
    let (infos, next) = source_extractions_infos(tokens, pos, Seq::empty());
    match infos {
        Err(e) => (Err(e), next),
        Ok(infos) => (Ok(SourceExtractionsView { infos }), next),
    }
}

impl ExtractionInfo {
    /// Decodes the extraction that the self-closing tag `e` stands for.
    pub fn parse_one(e: &StartTag) -> (r: Result<ExtractionInfo, ParseError>)
        ensures
            outcome(r) == decode_extraction_info(*e),
    {
        let map = attributes_to_map(e)?;
        let id = map.require_u32("extractionInfo", "id")?;
        let name = map.require("extractionInfo", "name")?;
        let is_custom_name = map.require("extractionInfo", "isCustomName")?;
        let dtype = map.require("extractionInfo", "type")?;
        let device_name = map.require("extractionInfo", "deviceName")?;
        let full_name = map.require("extractionInfo", "fullName")?;
        let index = map.require_u32("extractionInfo", "index")?;
        let is_partial_data = map.require("extractionInfo", "IsPartialData")?;
        Ok(
            ExtractionInfo {
                id,
                name,
                is_custom_name,
                dtype,
                device_name,
                full_name,
                index,
                is_partial_data,
            },
        )
    }
}

impl SourceExtractions {
    /// Decodes the element `sourceExtractions` whose opening tag has just
    /// been read.
    pub fn parse_one(reader: &mut EventReader) -> (r: Result<SourceExtractions, ParseError>)
        ensures
            decodes(
                *old(reader),
                *final(reader),
                r,
                decode_source_extractions(old(reader).tokens@, old(reader).position as nat),
            ),
    {
        let mut infos: Vec<ExtractionInfo> = Vec::new();
        proof {
            assert(views(infos@) =~= Seq::empty());
        }
        loop
            invariant
                reader.tokens == old(reader).tokens,
                reader.position >= old(reader).position,
                reader.position <= reader.tokens@.len() || reader.position == old(
                    reader,
                ).position,
                source_extractions_infos(reader.tokens@, reader.position as nat, views(infos@))
                    == source_extractions_infos(
                    old(reader).tokens@,
                    old(reader).position as nat,
                    Seq::empty(),
                ),
            decreases reader.tokens@.len() - reader.position,
        {
            let token = reader.read_event();
            if let Some(tag) = self_closing(token, "extractionInfo") {
                let info = ExtractionInfo::parse_one(tag)?;
                proof {
                    lemma_views_push(infos@, info);
                }
                infos.push(info);
                continue ;
            }
            if judge("sourceExtractions", token)? {
                return Ok(SourceExtractions { infos });
            }
        }
    }
}

} // verus!
