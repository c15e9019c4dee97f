//! The decoded records of a report, by type.

use super::model_type::{decode_model_type, ModelType, ModelTypeView};
use crate::error::{ErrorView, ParseError};
use crate::reader::{
    after, decodes, judge, lemma_views_push, opening, opens, resume, tag_of, token_at, verdict,
    views, EventReader, Verdict,
};
use crate::xml::Token;
use vstd::prelude::*;

verus! {

/// `<decodedData>` with its model types.
#[derive(Debug, PartialEq)]
pub struct DecodedData {
    pub model_types: Vec<ModelType>,
}

/// The mathematical value of [`DecodedData`].
pub struct DecodedDataView {
    pub model_types: Seq<ModelTypeView>,
}

impl View for DecodedData {
    type V = DecodedDataView;

    open spec fn view(&self) -> DecodedDataView {
        DecodedDataView { model_types: views(self.model_types@) }
    }
}

/// The model types of the element from `pos` on, after `acc`.
pub open spec fn decoded_data_model_types(
    tokens: Seq<Token>,
    pos: nat,
    acc: Seq<ModelTypeView>,
) -> (
    Result<Seq<ModelTypeView>, ErrorView>,
    nat,
)
    decreases tokens.len() - pos,
{
    let token = token_at(tokens, pos);
    if opens(token, "modelType"@) {
        let (child, next) = decode_model_type(tag_of(token), tokens, pos + 1);
        match child {
            Err(e) => (Err(e), next),
            Ok(c) => decoded_data_model_types(tokens, resume(tokens, pos, next), acc.push(c)),
        }
    } else {
        match verdict("decodedData"@, token) {
            Verdict::Closed => (Ok(acc), pos + 1),
            Verdict::Ignored => decoded_data_model_types(tokens, pos + 1, acc),
            Verdict::Failed(e) => (Err(e), after(tokens, pos)),
        }
    }
}

/// What the element `decodedData` decodes to, and where its decoding ends,
/// when the cursor stands at `pos` behind its opening tag.
pub open spec fn decode_decoded_data(tokens: Seq<Token>, pos: nat) -> (
    Result<DecodedDataView, ErrorView>,
    nat,
) {
    let (model_types, next) = decoded_data_model_types(tokens, pos, Seq::empty());
    match model_types {
        Err(e) => (Err(e), next),
        Ok(model_types) => (Ok(DecodedDataView { model_types }), next),
    }
}

impl DecodedData {
    /// Decodes the element `decodedData` whose opening tag has just been read.
    pub fn parse_one(reader: &mut EventReader) -> (r: Result<DecodedData, ParseError>)
        ensures
            decodes(
                *old(reader),
                *final(reader),
                r,
                decode_decoded_data(old(reader).tokens@, old(reader).position as nat),
            ),
    {
        let mut model_types: Vec<ModelType> = Vec::new();
        proof {
            assert(views(model_types@) =~= Seq::empty());
        }
        loop
            invariant
                reader.tokens == old(reader).tokens,
                reader.position >= old(reader).position,
                reader.position <= reader.tokens@.len() || reader.position == old(
                    reader,
                ).position,
                decoded_data_model_types(
                    reader.tokens@,
                    reader.position as nat,
                    views(model_types@),
                ) == decoded_data_model_types(
                    old(reader).tokens@,
                    old(reader).position as nat,
                    Seq::empty(),
                ),
            decreases reader.tokens@.len() - reader.position,
        {
            let token = reader.read_event();
            if let Some(tag) = opening(token, "modelType") {
                let item = ModelType::parse_one(tag, reader)?;
                proof {
                    lemma_views_push(model_types@, item);
                }
                model_types.push(item);
                continue ;
            }
            if judge("decodedData", token)? {
                return Ok(DecodedData { model_types });
            }
        }
    }
}

} // verus!
