//! A model and the two slots that hold further models. The three are decoded
//! by mutual recursion: a model holds model fields, a model field holds
//! models.

use super::commons::{decode_field, decode_field_empty, Field, FieldView};
use super::data_field::{decode_data_field, decode_data_field_empty, DataField, DataFieldView};
use super::multi_field::{decode_multi_field, decode_multi_field_empty, MultiField, MultiFieldView};
use crate::error::{outcome, ErrorView, ParseError};
use crate::reader::{
    after, decodes, empties, judge, lemma_views_push, opening, opens, resume, self_closing,
    tag_of, token_at, verdict, views, EventReader, Verdict,
};
use crate::utils::{attribute_map, attributes_to_map, required, required_number, AttrMap};
use crate::xml::{StartTag, Token};
use vstd::prelude::*;

verus! {

/// A decoded record: its attributes and its children, each kind in the order
/// in which it stood in the document.
#[derive(Debug, PartialEq)]
pub struct Model {
    pub dtype: String,
    pub id: String,
    pub deleted_state: String,
    pub decoding_confidence: String,
    pub is_related: String,
    pub extraction_id: u64,
    pub fields: Vec<Field>,
    pub multi_model_fields: Vec<MultiModelField>,
    pub model_fields: Vec<ModelField>,
    pub data_fields: Vec<DataField>,
    pub multi_fields: Vec<MultiField>,
}

/// A named slot that holds models.
#[derive(Debug, PartialEq)]
pub struct ModelField {
    pub name: String,
    pub dtype: String,
    pub models: Vec<Model>,
}

/// A named slot that holds several models.
#[derive(Debug, PartialEq)]
pub struct MultiModelField {
    pub name: String,
    pub dtype: String,
    pub models: Vec<Model>,
}

/// The mathematical value of [`Model`].
pub struct ModelView {
    pub dtype: Seq<char>,
    pub id: Seq<char>,
    pub deleted_state: Seq<char>,
    pub decoding_confidence: Seq<char>,
    pub is_related: Seq<char>,
    pub extraction_id: u64,
    pub fields: Seq<FieldView>,
    pub multi_model_fields: Seq<MultiModelFieldView>,
    pub model_fields: Seq<ModelFieldView>,
    pub data_fields: Seq<DataFieldView>,
    pub multi_fields: Seq<MultiFieldView>,
}

/// The mathematical value of [`ModelField`].
pub struct ModelFieldView {
    pub name: Seq<char>,
    pub dtype: Seq<char>,
    pub models: Seq<ModelView>,
}

/// The mathematical value of [`MultiModelField`].
pub struct MultiModelFieldView {
    pub name: Seq<char>,
    pub dtype: Seq<char>,
    pub models: Seq<ModelView>,
}

/// The mathematical value of a model.
pub open spec fn model_view(m: Model) -> ModelView
    decreases m,
{
    ModelView {
        dtype: m.dtype@,
        id: m.id@,
        deleted_state: m.deleted_state@,
        decoding_confidence: m.decoding_confidence@,
        is_related: m.is_related@,
        extraction_id: m.extraction_id,
        fields: views(m.fields@),
        multi_model_fields: multi_model_field_views(m.multi_model_fields@),
        model_fields: model_field_views(m.model_fields@),
        data_fields: views(m.data_fields@),
        multi_fields: views(m.multi_fields@),
    }
}

/// The values of a sequence of models.
pub open spec fn model_views(models: Seq<Model>) -> Seq<ModelView>
    decreases models,
{
    Seq::new(
        models.len(),
        |i: int|
            if 0 <= i < models.len() {
                model_view(models[i])
            } else {
                arbitrary()
            },
    )
}

/// The mathematical value of a model field.
pub open spec fn model_field_view(f: ModelField) -> ModelFieldView
    decreases f,
{
    ModelFieldView { name: f.name@, dtype: f.dtype@, models: model_views(f.models@) }
}

/// The values of a sequence of model fields.
pub open spec fn model_field_views(fields: Seq<ModelField>) -> Seq<ModelFieldView>
    decreases fields,
{
    Seq::new(
        fields.len(),
        |i: int|
            if 0 <= i < fields.len() {
                model_field_view(fields[i])
            } else {
                arbitrary()
            },
    )
}

/// The mathematical value of a multi model field.
pub open spec fn multi_model_field_view(f: MultiModelField) -> MultiModelFieldView
    decreases f,
{
    MultiModelFieldView { name: f.name@, dtype: f.dtype@, models: model_views(f.models@) }
}

/// The values of a sequence of multi model fields.
pub open spec fn multi_model_field_views(fields: Seq<MultiModelField>) -> Seq<
    MultiModelFieldView,
>
    decreases fields,
{
    Seq::new(
        fields.len(),
        |i: int|
            if 0 <= i < fields.len() {
                multi_model_field_view(fields[i])
            } else {
                arbitrary()
            },
    )
}

impl View for Model {
    type V = ModelView;

    open spec fn view(&self) -> ModelView {
        model_view(*self)
    }
}

impl View for ModelField {
    type V = ModelFieldView;

    open spec fn view(&self) -> ModelFieldView {
        model_field_view(*self)
    }
}

impl View for MultiModelField {
    type V = MultiModelFieldView;

    open spec fn view(&self) -> MultiModelFieldView {
        multi_model_field_view(*self)
    }
}

/// The values of a sequence of models are the views of its models.
pub proof fn lemma_model_views(models: Seq<Model>)
    ensures
        model_views(models) == views(models),
{
    assert(model_views(models) =~= views(models));
}

/// The values of a sequence of model fields are the views of its fields.
pub proof fn lemma_model_field_views(fields: Seq<ModelField>)
    ensures
        model_field_views(fields) == views(fields),
{
    assert(model_field_views(fields) =~= views(fields));
}

/// The values of a sequence of multi model fields are the views of its
/// fields.
pub proof fn lemma_multi_model_field_views(fields: Seq<MultiModelField>)
    ensures
        multi_model_field_views(fields) == views(fields),
{
    assert(multi_model_field_views(fields) =~= views(fields));
}

/// The children of a model, each kind in document order.
pub struct ModelChildren {
    pub fields: Seq<FieldView>,
    pub multi_model_fields: Seq<MultiModelFieldView>,
    pub model_fields: Seq<ModelFieldView>,
    pub data_fields: Seq<DataFieldView>,
    pub multi_fields: Seq<MultiFieldView>,
}

/// No children.
pub open spec fn no_children() -> ModelChildren {
    ModelChildren {
        fields: Seq::empty(),
        multi_model_fields: Seq::empty(),
        model_fields: Seq::empty(),
        data_fields: Seq::empty(),
        multi_fields: Seq::empty(),
    }
}

/// The model that the attributes `map` and the children make. The first
/// required attribute that is missing fails it, in the order `type`, `id`,
/// `deleted_state`, `decoding_confidence`, `isrelated`, `extractionId`.
pub open spec fn model_from(map: Map<Seq<char>, Seq<char>>, children: ModelChildren) -> Result<
    ModelView,
    ErrorView,
> {
    match required(map, "model"@, "type"@) {
        Err(e) => Err(e),
        Ok(dtype) => match required(map, "model"@, "id"@) {
            Err(e) => Err(e),
            Ok(id) => match required(map, "model"@, "deleted_state"@) {
                Err(e) => Err(e),
                Ok(deleted_state) => match required(map, "model"@, "decoding_confidence"@) {
                    Err(e) => Err(e),
                    Ok(decoding_confidence) => match required(map, "model"@, "isrelated"@) {
                        Err(e) => Err(e),
                        Ok(is_related) => match required_number(
                            map,
                            "model"@,
                            "extractionId"@,
                            u64::MAX as nat,
                        ) {
                            Err(e) => Err(e),
                            Ok(n) => Ok(
                                ModelView {
                                    dtype,
                                    id,
                                    deleted_state,
                                    decoding_confidence,
                                    is_related,
                                    extraction_id: n as u64,
                                    fields: children.fields,
                                    multi_model_fields: children.multi_model_fields,
                                    model_fields: children.model_fields,
                                    data_fields: children.data_fields,
                                    multi_fields: children.multi_fields,
                                },
                            ),
                        },
                    },
                },
            },
        },
    }
}

/// The model field that the attributes `map` and the models make.
pub open spec fn model_field_from(map: Map<Seq<char>, Seq<char>>, models: Seq<ModelView>) -> Result<
    ModelFieldView,
    ErrorView,
> {
    match required(map, "modelField"@, "name"@) {
        Err(e) => Err(e),
        Ok(name) => match required(map, "modelField"@, "type"@) {
            Err(e) => Err(e),
            Ok(dtype) => Ok(ModelFieldView { name, dtype, models }),
        },
    }
}

/// The multi model field that the attributes `map` and the models make.
pub open spec fn multi_model_field_from(
    map: Map<Seq<char>, Seq<char>>,
    models: Seq<ModelView>,
) -> Result<MultiModelFieldView, ErrorView> {
    match required(map, "multiModelField"@, "name"@) {
        Err(e) => Err(e),
        Ok(name) => match required(map, "multiModelField"@, "type"@) {
            Err(e) => Err(e),
            Ok(dtype) => Ok(MultiModelFieldView { name, dtype, models }),
        },
    }
}

/// The model field that a self-closing tag `tag` stands for: one without
/// models.
pub open spec fn decode_model_field_empty(tag: StartTag) -> Result<ModelFieldView, ErrorView> {
    match attribute_map(tag.attributes@) {
        None => Err(ErrorView::MalformedAttribute),
        Some(map) => model_field_from(map, Seq::empty()),
    }
}

/// The multi model field that a self-closing tag `tag` stands for: one
/// without models.
pub open spec fn decode_multi_model_field_empty(tag: StartTag) -> Result<
    MultiModelFieldView,
    ErrorView,
> {
    match attribute_map(tag.attributes@) {
        None => Err(ErrorView::MalformedAttribute),
        Some(map) => multi_model_field_from(map, Seq::empty()),
    }
}

/// The model that the tag `tag` opens, and where its decoding ends, when the
/// cursor stands at `pos` behind the tag.
pub open spec fn decode_model(tag: StartTag, tokens: Seq<Token>, pos: nat) -> (
    Result<ModelView, ErrorView>,
    nat,
)
    decreases tokens.len() - pos, 1nat,
{
    match attribute_map(tag.attributes@) {
        None => (Err(ErrorView::MalformedAttribute), pos),
        Some(map) => {
            let (children, next) = model_children(tokens, pos, no_children());
            match children {
                Err(e) => (Err(e), next),
                Ok(children) => (model_from(map, children), next),
            }
        },
    }
}

/// The children of a model from `pos` on, after `acc`. Each of the five
/// kinds of child is taken as an opening or as a self-closing tag and added
/// to its own sequence; white space is passed over; the end tag of the model
/// ends it; anything else fails.
pub open spec fn model_children(tokens: Seq<Token>, pos: nat, acc: ModelChildren) -> (
    Result<ModelChildren, ErrorView>,
    nat,
)
    decreases tokens.len() - pos, 0nat,
{
    let token = token_at(tokens, pos);
    if opens(token, "multiModelField"@) {
        let (child, next) = decode_multi_model_field(tag_of(token), tokens, pos + 1);
        match child {
            Err(e) => (Err(e), next),
            Ok(c) => model_children(
                tokens,
                resume(tokens, pos, next),
                ModelChildren { multi_model_fields: acc.multi_model_fields.push(c), ..acc },
            ),
        }
    } else if empties(token, "multiModelField"@) {
        match decode_multi_model_field_empty(tag_of(token)) {
            Err(e) => (Err(e), pos + 1),
            Ok(c) => model_children(
                tokens,
                pos + 1,
                ModelChildren { multi_model_fields: acc.multi_model_fields.push(c), ..acc },
            ),
        }
    } else if opens(token, "multiField"@) {
        let (child, next) = decode_multi_field(tag_of(token), tokens, pos + 1);
        match child {
            Err(e) => (Err(e), next),
            Ok(c) => model_children(
                tokens,
                resume(tokens, pos, next),
                ModelChildren { multi_fields: acc.multi_fields.push(c), ..acc },
            ),
        }
    } else if empties(token, "multiField"@) {
        match decode_multi_field_empty(tag_of(token)) {
            Err(e) => (Err(e), pos + 1),
            Ok(c) => model_children(
                tokens,
                pos + 1,
                ModelChildren { multi_fields: acc.multi_fields.push(c), ..acc },
            ),
        }
    } else if opens(token, "field"@) {
        let (child, next) = decode_field(tag_of(token), tokens, pos + 1);
        match child {
            Err(e) => (Err(e), next),
            Ok(c) => model_children(
                tokens,
                resume(tokens, pos, next),
                ModelChildren { fields: acc.fields.push(c), ..acc },
            ),
        }
    } else if empties(token, "field"@) {
        match decode_field_empty(tag_of(token)) {
            Err(e) => (Err(e), pos + 1),
            Ok(c) => model_children(
                tokens,
                pos + 1,
                ModelChildren { fields: acc.fields.push(c), ..acc },
            ),
        }
    } else if opens(token, "modelField"@) {
        let (child, next) = decode_model_field(tag_of(token), tokens, pos + 1);
        match child {
            Err(e) => (Err(e), next),
            Ok(c) => model_children(
                tokens,
                resume(tokens, pos, next),
                ModelChildren { model_fields: acc.model_fields.push(c), ..acc },
            ),
        }
    } else if empties(token, "modelField"@) {
        match decode_model_field_empty(tag_of(token)) {
            Err(e) => (Err(e), pos + 1),
            Ok(c) => model_children(
                tokens,
                pos + 1,
                ModelChildren { model_fields: acc.model_fields.push(c), ..acc },
            ),
        }
    } else if opens(token, "dataField"@) {
        let (child, next) = decode_data_field(tag_of(token), tokens, pos + 1);
        match child {
            Err(e) => (Err(e), next),
            Ok(c) => model_children(
                tokens,
                resume(tokens, pos, next),
                ModelChildren { data_fields: acc.data_fields.push(c), ..acc },
            ),
        }
    } else if empties(token, "dataField"@) {
        match decode_data_field_empty(tag_of(token)) {
            Err(e) => (Err(e), pos + 1),
            Ok(c) => model_children(
                tokens,
                pos + 1,
                ModelChildren { data_fields: acc.data_fields.push(c), ..acc },
            ),
        }
    } else {
        match verdict("model"@, token) {
            Verdict::Closed => (Ok(acc), pos + 1),
            Verdict::Ignored => model_children(tokens, pos + 1, acc),
            Verdict::Failed(e) => (Err(e), after(tokens, pos)),
        }
    }
}

/// The model field that the tag `tag` opens, and where its decoding ends.
pub open spec fn decode_model_field(tag: StartTag, tokens: Seq<Token>, pos: nat) -> (
    Result<ModelFieldView, ErrorView>,
    nat,
)
    decreases tokens.len() - pos, 1nat,
{
    match attribute_map(tag.attributes@) {
        None => (Err(ErrorView::MalformedAttribute), pos),
        Some(map) => {
            let (models, next) = model_field_models(tokens, pos, Seq::empty());
            match models {
                Err(e) => (Err(e), next),
                Ok(models) => (model_field_from(map, models), next),
            }
        },
    }
}

/// The models of a model field from `pos` on, after `acc`. An `<empty/>`
/// marker adds nothing.
pub open spec fn model_field_models(tokens: Seq<Token>, pos: nat, acc: Seq<ModelView>) -> (
    Result<Seq<ModelView>, ErrorView>,
    nat,
)
    decreases tokens.len() - pos, 0nat,
{
    let token = token_at(tokens, pos);
    if opens(token, "model"@) {
        let (child, next) = decode_model(tag_of(token), tokens, pos + 1);
        match child {
            Err(e) => (Err(e), next),
            Ok(m) => model_field_models(tokens, resume(tokens, pos, next), acc.push(m)),
        }
    } else if empties(token, "empty"@) {
        model_field_models(tokens, pos + 1, acc)
    } else {
        match verdict("modelField"@, token) {
            Verdict::Closed => (Ok(acc), pos + 1),
            Verdict::Ignored => model_field_models(tokens, pos + 1, acc),
            Verdict::Failed(e) => (Err(e), after(tokens, pos)),
        }
    }
}

/// The multi model field that the tag `tag` opens, and where its decoding
/// ends.
pub open spec fn decode_multi_model_field(tag: StartTag, tokens: Seq<Token>, pos: nat) -> (
    Result<MultiModelFieldView, ErrorView>,
    nat,
)
    decreases tokens.len() - pos, 1nat,
{
    match attribute_map(tag.attributes@) {
        None => (Err(ErrorView::MalformedAttribute), pos),
        Some(map) => {
            let (models, next) = multi_model_field_models(tokens, pos, Seq::empty());
            match models {
                Err(e) => (Err(e), next),
                Ok(models) => (multi_model_field_from(map, models), next),
            }
        },
    }
}

/// The models of a multi model field from `pos` on, after `acc`.
pub open spec fn multi_model_field_models(tokens: Seq<Token>, pos: nat, acc: Seq<ModelView>) -> (
    Result<Seq<ModelView>, ErrorView>,
    nat,
)
    decreases tokens.len() - pos, 0nat,
{
    let token = token_at(tokens, pos);
    if opens(token, "model"@) {
        let (child, next) = decode_model(tag_of(token), tokens, pos + 1);
        match child {
            Err(e) => (Err(e), next),
            Ok(m) => multi_model_field_models(tokens, resume(tokens, pos, next), acc.push(m)),
        }
    } else {
        match verdict("multiModelField"@, token) {
            Verdict::Closed => (Ok(acc), pos + 1),
            Verdict::Ignored => multi_model_field_models(tokens, pos + 1, acc),
            Verdict::Failed(e) => (Err(e), after(tokens, pos)),
        }
    }
}

impl ModelField {
    /// Makes a model field of its attributes and of what its body held.
    fn assemble(map: &AttrMap, models: Vec<Model>) -> (r: Result<ModelField, ParseError>)
        ensures
            outcome(r) == model_field_from(map@, views(models@)),
    {
        let name = map.require("modelField", "name")?;
        let dtype = map.require("modelField", "type")?;
        proof {
            lemma_model_views(models@);
        }
        Ok(ModelField { name, dtype, models })
    }

    /// Decodes the model field whose opening tag `e` has just been read.
    pub fn parse_one(e: &StartTag, reader: &mut EventReader) -> (r: Result<
        ModelField,
        ParseError,
    >)
        ensures
            decodes(
                *old(reader),
                *final(reader),
                r,
                decode_model_field(*e, old(reader).tokens@, old(reader).position as nat),
            ),
        decreases old(reader).tokens@.len() - old(reader).position,
    {
        let map = attributes_to_map(e)?;
        let mut models: Vec<Model> = Vec::new();
        proof {
            assert(views(models@) =~= Seq::empty());
        }
        loop
            invariant
                reader.tokens == old(reader).tokens,
                reader.position >= old(reader).position,
                reader.position <= reader.tokens@.len() || reader.position == old(
                    reader,
                ).position,
                model_field_models(reader.tokens@, reader.position as nat, views(models@))
                    == model_field_models(
                    old(reader).tokens@,
                    old(reader).position as nat,
                    Seq::empty(),
                ),
                attribute_map(e.attributes@) == Some(map@),
            decreases reader.tokens@.len() - reader.position,
        {
            let token = reader.read_event();
            if let Some(tag) = opening(token, "model") {
                let model = Model::parse_one(tag, reader)?;
                proof {
                    lemma_views_push(models@, model);
                }
                models.push(model);
                continue ;
            }
            if self_closing(token, "empty").is_some() {
                continue ;
            }
            if judge("modelField", token)? {
                return ModelField::assemble(&map, models);
            }
        }
    }

    /// Decodes the model field that the self-closing tag `e` stands for.
    pub fn parse_one_empty(e: &StartTag) -> (r: Result<ModelField, ParseError>)
        ensures
            outcome(r) == decode_model_field_empty(*e),
    {
        let map = attributes_to_map(e)?;
        let models: Vec<Model> = Vec::new();
        proof {
            assert(views(models@) =~= Seq::empty());
        }
        ModelField::assemble(&map, models)
    }
}

impl MultiModelField {
    /// Makes a multi model field of its attributes and of what its body held.
    fn assemble(map: &AttrMap, models: Vec<Model>) -> (r: Result<MultiModelField, ParseError>)
        ensures
            outcome(r) == multi_model_field_from(map@, views(models@)),
    {
        let name = map.require("multiModelField", "name")?;
        let dtype = map.require("multiModelField", "type")?;
        proof {
            lemma_model_views(models@);
        }
        Ok(MultiModelField { name, dtype, models })
    }

    /// Decodes the multi model field whose opening tag `e` has just been
    /// read.
    pub fn parse_one(e: &StartTag, reader: &mut EventReader) -> (r: Result<
        MultiModelField,
        ParseError,
    >)
        ensures
            decodes(
                *old(reader),
                *final(reader),
                r,
                decode_multi_model_field(*e, old(reader).tokens@, old(reader).position as nat),
            ),
        decreases old(reader).tokens@.len() - old(reader).position,
    {
        let map = attributes_to_map(e)?;
        let mut models: Vec<Model> = Vec::new();
        proof {
            assert(views(models@) =~= Seq::empty());
        }
        loop
            invariant
                reader.tokens == old(reader).tokens,
                reader.position >= old(reader).position,
                reader.position <= reader.tokens@.len() || reader.position == old(
                    reader,
                ).position,
                multi_model_field_models(reader.tokens@, reader.position as nat, views(models@))
                    == multi_model_field_models(
                    old(reader).tokens@,
                    old(reader).position as nat,
                    Seq::empty(),
                ),
                attribute_map(e.attributes@) == Some(map@),
            decreases reader.tokens@.len() - reader.position,
        {
            let token = reader.read_event();
            if let Some(tag) = opening(token, "model") {
                let model = Model::parse_one(tag, reader)?;
                proof {
                    lemma_views_push(models@, model);
                }
                models.push(model);
                continue ;
            }
            if judge("multiModelField", token)? {
                return MultiModelField::assemble(&map, models);
            }
        }
    }

    /// Decodes the multi model field that the self-closing tag `e` stands
    /// for.
    pub fn parse_one_empty(e: &StartTag) -> (r: Result<MultiModelField, ParseError>)
        ensures
            outcome(r) == decode_multi_model_field_empty(*e),
    {
        let map = attributes_to_map(e)?;
        let models: Vec<Model> = Vec::new();
        proof {
            assert(views(models@) =~= Seq::empty());
        }
        MultiModelField::assemble(&map, models)
    }
}

/// The children of a model as the decoder gathers them.
struct Gathered {
    fields: Vec<Field>,
    multi_model_fields: Vec<MultiModelField>,
    model_fields: Vec<ModelField>,
    data_fields: Vec<DataField>,
    multi_fields: Vec<MultiField>,
}

impl View for Gathered {
    type V = ModelChildren;

    closed spec fn view(&self) -> ModelChildren {
        ModelChildren {
            fields: views(self.fields@),
            multi_model_fields: views(self.multi_model_fields@),
            model_fields: views(self.model_fields@),
            data_fields: views(self.data_fields@),
            multi_fields: views(self.multi_fields@),
        }
    }
}

impl Gathered {
    /// Nothing gathered yet.
    fn new() -> (g: Gathered)
        ensures
            g@ == no_children(),
    {
        let g = Gathered {
            fields: Vec::new(),
            multi_model_fields: Vec::new(),
            model_fields: Vec::new(),
            data_fields: Vec::new(),
            multi_fields: Vec::new(),
        };
        proof {
            assert(g@.fields =~= Seq::empty());
            assert(g@.multi_model_fields =~= Seq::empty());
            assert(g@.model_fields =~= Seq::empty());
            assert(g@.data_fields =~= Seq::empty());
            assert(g@.multi_fields =~= Seq::empty());
        }
        g
    }

    /// Takes in one more field.
    fn add_field(&mut self, child: Field)
        ensures
            final(self)@ == (
                ModelChildren { fields: old(self)@.fields.push(child@), ..old(self)@ }
            ),
    {
        proof {
            lemma_views_push(self.fields@, child);
        }
        self.fields.push(child);
    }

    /// Takes in one more multi model field.
    fn add_multi_model_field(&mut self, child: MultiModelField)
        ensures
            final(self)@ == (ModelChildren {
                multi_model_fields: old(self)@.multi_model_fields.push(child@),
                ..old(self)@
            }),
    {
        proof {
            lemma_views_push(self.multi_model_fields@, child);
        }
        self.multi_model_fields.push(child);
    }

    /// Takes in one more model field.
    fn add_model_field(&mut self, child: ModelField)
        ensures
            final(self)@ == (ModelChildren {
                model_fields: old(self)@.model_fields.push(child@),
                ..old(self)@
            }),
    {
        proof {
            lemma_views_push(self.model_fields@, child);
        }
        self.model_fields.push(child);
    }

    /// Takes in one more data field.
    fn add_data_field(&mut self, child: DataField)
        ensures
            final(self)@ == (ModelChildren {
                data_fields: old(self)@.data_fields.push(child@),
                ..old(self)@
            }),
    {
        proof {
            lemma_views_push(self.data_fields@, child);
        }
        self.data_fields.push(child);
    }

    /// Takes in one more multi field.
    fn add_multi_field(&mut self, child: MultiField)
        ensures
            final(self)@ == (ModelChildren {
                multi_fields: old(self)@.multi_fields.push(child@),
                ..old(self)@
            }),
    {
        proof {
            lemma_views_push(self.multi_fields@, child);
        }
        self.multi_fields.push(child);
    }
}

impl Model {
    /// Makes a model of its attributes and of what its body held.
    fn assemble(map: &AttrMap, children: Gathered) -> (r: Result<Model, ParseError>)
        ensures
            outcome(r) == model_from(map@, children@),
    {
        let dtype = map.require("model", "type")?;
        let id = map.require("model", "id")?;
        let deleted_state = map.require("model", "deleted_state")?;
        let decoding_confidence = map.require("model", "decoding_confidence")?;
        let is_related = map.require("model", "isrelated")?;
        let extraction_id = map.require_u64("model", "extractionId")?;
        proof {
            lemma_model_field_views(children.model_fields@);
            lemma_multi_model_field_views(children.multi_model_fields@);
        }
        Ok(
            Model {
                dtype,
                id,
                deleted_state,
                decoding_confidence,
                is_related,
                extraction_id,
                fields: children.fields,
                multi_model_fields: children.multi_model_fields,
                model_fields: children.model_fields,
                data_fields: children.data_fields,
                multi_fields: children.multi_fields,
            },
        )
    }

    /// Decodes the model whose opening tag `e` has just been read, through
    /// its end tag.
    pub fn parse_one(e: &StartTag, reader: &mut EventReader) -> (r: Result<Model, ParseError>)
        ensures
            decodes(
                *old(reader),
                *final(reader),
                r,
                decode_model(*e, old(reader).tokens@, old(reader).position as nat),
            ),
        decreases old(reader).tokens@.len() - old(reader).position,
    {
        let map = attributes_to_map(e)?;
        let mut children = Gathered::new();
        loop
            invariant
                reader.tokens == old(reader).tokens,
                reader.position >= old(reader).position,
                reader.position <= reader.tokens@.len() || reader.position == old(
                    reader,
                ).position,
                model_children(reader.tokens@, reader.position as nat, children@)
                    == model_children(
                    old(reader).tokens@,
                    old(reader).position as nat,
                    no_children(),
                ),
                attribute_map(e.attributes@) == Some(map@),
            decreases reader.tokens@.len() - reader.position,
        {
            let token = reader.read_event();
            if let Some(tag) = opening(token, "multiModelField") {
                let child = MultiModelField::parse_one(tag, reader)?;
                children.add_multi_model_field(child);
                continue ;
            }
            if let Some(tag) = self_closing(token, "multiModelField") {
                let child = MultiModelField::parse_one_empty(tag)?;
                children.add_multi_model_field(child);
                continue ;
            }
            if let Some(tag) = opening(token, "multiField") {
                let child = MultiField::parse_one(tag, reader)?;
                children.add_multi_field(child);
                continue ;
            }
            if let Some(tag) = self_closing(token, "multiField") {
                let child = MultiField::parse_one_empty(tag)?;
                children.add_multi_field(child);
                continue ;
            }
            if let Some(tag) = opening(token, "field") {
                let child = Field::parse_one(tag, reader)?;
                children.add_field(child);
                continue ;
            }
            if let Some(tag) = self_closing(token, "field") {
                let child = Field::parse_one_empty(tag)?;
                children.add_field(child);
                continue ;
            }
            if let Some(tag) = opening(token, "modelField") {
                let child = ModelField::parse_one(tag, reader)?;
                children.add_model_field(child);
                continue ;
            }
            if let Some(tag) = self_closing(token, "modelField") {
                let child = ModelField::parse_one_empty(tag)?;
                children.add_model_field(child);
                continue ;
            }
            if let Some(tag) = opening(token, "dataField") {
                let child = DataField::parse_one(tag, reader)?;
                children.add_data_field(child);
                continue ;
            }
            if let Some(tag) = self_closing(token, "dataField") {
                let child = DataField::parse_one_empty(tag)?;
                children.add_data_field(child);
                continue ;
            }
            if judge("model", token)? {
                return Model::assemble(&map, children);
            }
        }
    }
}

} // verus!
