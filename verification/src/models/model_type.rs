//! The models of one type.

use super::model::{decode_model, Model, ModelView};
use crate::error::{outcome, ErrorView, ParseError};
use crate::reader::{
    after, decodes, judge, lemma_views_push, opening, opens, resume, tag_of, token_at, verdict,
    views, EventReader, Verdict,
};
use crate::utils::{attribute_map, attributes_to_map, required};
use crate::xml::{StartTag, Token};
use vstd::prelude::*;

verus! {

/// `<modelType type="...">` with its models.
#[derive(Debug, PartialEq)]
pub struct ModelType {
    pub dtype: String,
    pub models: Vec<Model>,
}

/// The mathematical value of [`ModelType`].
pub struct ModelTypeView {
    pub dtype: Seq<char>,
    pub models: Seq<ModelView>,
}

impl View for ModelType {
    type V = ModelTypeView;

    open spec fn view(&self) -> ModelTypeView {
        ModelTypeView { dtype: self.dtype@, models: views(self.models@) }
    }
}

/// The models of a model type from `pos` on, after `acc`.
pub open spec fn model_type_models(tokens: Seq<Token>, pos: nat, acc: Seq<ModelView>) -> (
    Result<Seq<ModelView>, ErrorView>,
    nat,
)
    decreases tokens.len() - pos,
{
    let token = token_at(tokens, pos);
    if opens(token, "model"@) {
        let (child, next) = decode_model(tag_of(token), tokens, pos + 1);
        match child {
            Err(e) => (Err(e), next),
            Ok(c) => model_type_models(tokens, resume(tokens, pos, next), acc.push(c)),
        }
    } else {
        match verdict("modelType"@, token) {
            Verdict::Closed => (Ok(acc), pos + 1),
            Verdict::Ignored => model_type_models(tokens, pos + 1, acc),
            Verdict::Failed(e) => (Err(e), after(tokens, pos)),
        }
    }
}

/// The model type that the tag `tag` and the models make. The attributes of
/// the tag are looked at only once its body has been read.
pub open spec fn model_type_from(tag: StartTag, models: Seq<ModelView>) -> Result<
    ModelTypeView,
    ErrorView,
> {
    match attribute_map(tag.attributes@) {
        None => Err(ErrorView::MalformedAttribute),
        Some(map) => match required(map, "modelType"@, "type"@) {
            Ok(dtype) => Ok(ModelTypeView { dtype, models }),
            Err(e) => Err(e),
        },
    }
}

/// The model type that the tag `tag` opens, and where its decoding ends.
pub open spec fn decode_model_type(tag: StartTag, tokens: Seq<Token>, pos: nat) -> (
    Result<ModelTypeView, ErrorView>,
    nat,
) {
    let (models, next) = model_type_models(tokens, pos, Seq::empty());
    match models {
        Err(e) => (Err(e), next),
        Ok(models) => (model_type_from(tag, models), next),
    }
}

impl ModelType {
    /// Makes a model type of its attributes and of what its body held.
    fn assemble(e: &StartTag, models: Vec<Model>) -> (r: Result<ModelType, ParseError>)
        ensures
            outcome(r) == model_type_from(*e, views(models@)),
    {
        let map = attributes_to_map(e)?;
        let dtype = map.require("modelType", "type")?;
        Ok(ModelType { dtype, models })
    }

    /// Decodes the model type whose opening tag `e` has just been read.
    pub fn parse_one(e: &StartTag, reader: &mut EventReader) -> (r: Result<
        ModelType,
        ParseError,
    >)
        ensures
            decodes(
                *old(reader),
                *final(reader),
                r,
                decode_model_type(*e, old(reader).tokens@, old(reader).position as nat),
            ),
    {
        let mut models: Vec<Model> = Vec::new();
        proof {
            assert(views(models@) =~= Seq::empty());
        }
        loop
            invariant
                reader.tokens == old(reader).tokens,
                reader.position >= old(reader).position,
                reader.position <= reader.tokens@.len() || reader.position == old(
                    reader,
                ).position,
                model_type_models(reader.tokens@, reader.position as nat, views(models@))
                    == model_type_models(
                    old(reader).tokens@,
                    old(reader).position as nat,
                    Seq::empty(),
                ),
            decreases reader.tokens@.len() - reader.position,
        {
            let token = reader.read_event();
            if let Some(tag) = opening(token, "model") {
                let model = Model::parse_one(tag, reader)?;
                proof {
                    lemma_views_push(models@, model);
                }
                models.push(model);
                continue ;
            }
            if judge("modelType", token)? {
                return ModelType::assemble(e, models);
            }
        }
    }
}

} // verus!
