//! Cut streams that hold a model, a field, a value or one of the slots of a
//! model.

use super::{advances, closed, cut_law, innermost, lemma_named_element, lemma_open_stack_split};
use super::{open_element, open_stack, within};
use crate::error::ErrorView;
use crate::models::commons::{
    decode_field, decode_field_empty, decode_value, field_content, FieldContent,
};
use crate::models::data_field::{data_field_sources, decode_data_field, decode_data_field_empty};
use crate::models::model::{
    decode_model, decode_model_field, decode_model_field_empty, decode_multi_model_field,
    decode_multi_model_field_empty, model_children, model_field_models,
    multi_model_field_models, no_children, ModelChildren, ModelView,
};
use crate::models::multi_field::{decode_multi_field, decode_multi_field_empty, multi_field_body};
use crate::models::source::{decode_source, SourceView};
use crate::reader::{cdata_of, empties, opens, tag_of, text_of, token_at, verdict};
use crate::utils::{attribute_map, text_content};
use crate::xml::{StartTag, Token, XmlEvent};
use vstd::prelude::*;

verus! {

/// The text accumulator leaves the cursor within the stream, behind what it
/// has read, and a text that it reads closes its element.
pub proof fn lemma_text_content_advances(
    element: Seq<char>,
    tokens: Seq<Token>,
    pos: nat,
    acc: Seq<char>,
    stack: Seq<Seq<u8>>,
)
    ensures
        advances(tokens, pos, text_content(element, tokens, pos, acc).1),
        text_content(element, tokens, pos, acc).0 is Ok ==> open_stack(
            tokens,
            pos,
            text_content(element, tokens, pos, acc).1,
            stack,
        ) == closed(stack),
    decreases tokens.len() - pos,
{
    let token = token_at(tokens, pos);
    assert(open_stack(tokens, pos + 1, pos + 1, closed(stack)) == closed(stack));
    if let Some(t) = token {
        match t.event {
            XmlEvent::Text(raw) => {
                if let Some(s) = text_of(raw@) {
                    lemma_text_content_advances(element, tokens, pos + 1, acc + s, stack);
                }
            },
            XmlEvent::CData(raw) => {
                if let Some(s) = cdata_of(raw@) {
                    lemma_text_content_advances(element, tokens, pos + 1, acc + s, stack);
                }
            },
            _ => {},
        }
    }
}

/// The text accumulator on a cut stream.
pub proof fn lemma_text_content_cut(
    element: Seq<char>,
    tokens: Seq<Token>,
    pos: nat,
    acc: Seq<char>,
    k: nat,
    root: Seq<char>,
    stack: Seq<Seq<u8>>,
)
    requires
        k <= tokens.len(),
        innermost(root, stack) == element,
    ensures
        cut_law(
            text_content(element, tokens, pos, acc),
            text_content(element, tokens.take(k as int), pos, acc),
            pos,
            k,
            innermost(root, open_stack(tokens, pos, k, stack)),
        ),
    decreases tokens.len() - pos,
{
    let short = tokens.take(k as int);
    let token = token_at(tokens, pos);
    lemma_text_content_advances(element, tokens, pos, acc, stack);
    if pos < k {
        assert(token_at(short, pos) == token);
        match tokens[pos as int].event {
            XmlEvent::Text(raw) => {
                if let Some(s) = text_of(raw@) {
                    lemma_text_content_cut(element, tokens, pos + 1, acc + s, k, root, stack);
                }
            },
            XmlEvent::CData(raw) => {
                if let Some(s) = cdata_of(raw@) {
                    lemma_text_content_cut(element, tokens, pos + 1, acc + s, k, root, stack);
                }
            },
            _ => {},
        }
    } else if pos >= tokens.len() && k == tokens.len() {
        assert(short =~= tokens);
    }
}

/// The value decoder leaves the cursor within the stream, and a value that it
/// decodes closes its element.
pub proof fn lemma_decode_value_within(
    tag: StartTag,
    tokens: Seq<Token>,
    pos: nat,
    stack: Seq<Seq<u8>>,
)
    ensures
        within(tokens, pos, decode_value(tag, tokens, pos).1),
        decode_value(tag, tokens, pos).0 is Ok ==> open_stack(
            tokens,
            pos,
            decode_value(tag, tokens, pos).1,
            stack,
        ) == closed(stack),
{
    if attribute_map(tag.attributes@) is Some {
        lemma_text_content_advances("value"@, tokens, pos, Seq::empty(), stack);
    }
}

/// The value decoder on a cut stream.
pub proof fn lemma_decode_value_cut(
    tag: StartTag,
    tokens: Seq<Token>,
    pos: nat,
    k: nat,
    root: Seq<char>,
    stack: Seq<Seq<u8>>,
)
    requires
        k <= tokens.len(),
        innermost(root, stack) == "value"@,
    ensures
        cut_law(
            decode_value(tag, tokens, pos),
            decode_value(tag, tokens.take(k as int), pos),
            pos,
            k,
            innermost(root, open_stack(tokens, pos, k, stack)),
        ),
{
    if attribute_map(tag.attributes@) is Some {
        lemma_text_content_cut("value"@, tokens, pos, Seq::empty(), k, root, stack);
    }
}

/// The body of a field leaves the cursor within the stream, behind what it has
/// read, and a body that decodes closes its element.
pub proof fn lemma_field_content_advances(
    tokens: Seq<Token>,
    pos: nat,
    acc: FieldContent,
    stack: Seq<Seq<u8>>,
)
    ensures
        advances(tokens, pos, field_content(tokens, pos, acc).1),
        field_content(tokens, pos, acc).0 is Ok ==> open_stack(
            tokens,
            pos,
            field_content(tokens, pos, acc).1,
            stack,
        ) == closed(stack),
    decreases tokens.len() - pos,
{
    let token = token_at(tokens, pos);
    let end = field_content(tokens, pos, acc).1;
    assert(open_stack(tokens, pos + 1, pos + 1, closed(stack)) == closed(stack));
    if empties(token, "empty"@) {
        lemma_field_content_advances(tokens, pos + 1, acc, stack);
    } else if opens(token, "value"@) {
        let inner = stack.push(tag_of(token).name@);
        lemma_named_element(tag_of(token).name@, "value"@, stack, Seq::empty());
        lemma_decode_value_within(tag_of(token), tokens, pos + 1, inner);
        let (child, next) = decode_value(tag_of(token), tokens, pos + 1);
        if let Ok(c) = child {
            lemma_field_content_advances(
                tokens,
                next,
                FieldContent { text: acc.text, value: Some(c) },
                stack,
            );
            lemma_open_stack_split(tokens, pos + 1, next, end, inner);
        }
    } else {
        if let Some(t) = token {
            match t.event {
                XmlEvent::Text(raw) => {
                    if let Some(s) = text_of(raw@) {
                        lemma_field_content_advances(
                            tokens,
                            pos + 1,
                            FieldContent { text: acc.text + s, value: acc.value },
                            stack,
                        );
                    }
                },
                XmlEvent::CData(raw) => {
                    if let Some(s) = cdata_of(raw@) {
                        lemma_field_content_advances(
                            tokens,
                            pos + 1,
                            FieldContent { text: acc.text + s, value: acc.value },
                            stack,
                        );
                    }
                },
                _ => {},
            }
        }
    }
}

/// The body of a field on a cut stream.
pub proof fn lemma_field_content_cut(
    tokens: Seq<Token>,
    pos: nat,
    acc: FieldContent,
    k: nat,
    root: Seq<char>,
    stack: Seq<Seq<u8>>,
)
    requires
        k <= tokens.len(),
        innermost(root, stack) == "field"@,
    ensures
        cut_law(
            field_content(tokens, pos, acc),
            field_content(tokens.take(k as int), pos, acc),
            pos,
            k,
            innermost(root, open_stack(tokens, pos, k, stack)),
        ),
    decreases tokens.len() - pos,
{
    let short = tokens.take(k as int);
    let token = token_at(tokens, pos);
    lemma_field_content_advances(tokens, pos, acc, stack);
    if pos < k {
        assert(token_at(short, pos) == token);
        if empties(token, "empty"@) {
            lemma_field_content_cut(tokens, pos + 1, acc, k, root, stack);
        } else if opens(token, "value"@) {
            let inner = stack.push(tag_of(token).name@);
            lemma_named_element(tag_of(token).name@, "value"@, stack, root);
            lemma_decode_value_within(tag_of(token), tokens, pos + 1, inner);
            lemma_decode_value_cut(tag_of(token), tokens, pos + 1, k, root, inner);
            let (child, next) = decode_value(tag_of(token), tokens, pos + 1);
            if let Ok(c) = child {
                lemma_field_content_advances(
                    tokens,
                    next,
                    FieldContent { text: acc.text, value: Some(c) },
                    stack,
                );
                if next <= k {
                    lemma_field_content_cut(
                        tokens,
                        next,
                        FieldContent { text: acc.text, value: Some(c) },
                        k,
                        root,
                        stack,
                    );
                    lemma_open_stack_split(tokens, pos + 1, next, k, inner);
                }
            }
        } else {
            match tokens[pos as int].event {
                XmlEvent::Text(raw) => {
                    if let Some(s) = text_of(raw@) {
                        lemma_field_content_cut(
                            tokens,
                            pos + 1,
                            FieldContent { text: acc.text + s, value: acc.value },
                            k,
                            root,
                            stack,
                        );
                    }
                },
                XmlEvent::CData(raw) => {
                    if let Some(s) = cdata_of(raw@) {
                        lemma_field_content_cut(
                            tokens,
                            pos + 1,
                            FieldContent { text: acc.text + s, value: acc.value },
                            k,
                            root,
                            stack,
                        );
                    }
                },
                _ => {},
            }
        }
    } else if pos >= tokens.len() && k == tokens.len() {
        assert(short =~= tokens);
    }
}

/// The field decoder leaves the cursor within the stream, and a field that it
/// decodes closes its element.
pub proof fn lemma_decode_field_within(
    tag: StartTag,
    tokens: Seq<Token>,
    pos: nat,
    stack: Seq<Seq<u8>>,
)
    ensures
        within(tokens, pos, decode_field(tag, tokens, pos).1),
        decode_field(tag, tokens, pos).0 is Ok ==> open_stack(
            tokens,
            pos,
            decode_field(tag, tokens, pos).1,
            stack,
        ) == closed(stack),
{
    if attribute_map(tag.attributes@) is Some {
        lemma_field_content_advances(
            tokens,
            pos,
            FieldContent { text: Seq::empty(), value: None },
            stack,
        );
    }
}

/// The field decoder on a cut stream.
pub proof fn lemma_decode_field_cut(
    tag: StartTag,
    tokens: Seq<Token>,
    pos: nat,
    k: nat,
    root: Seq<char>,
    stack: Seq<Seq<u8>>,
)
    requires
        k <= tokens.len(),
        innermost(root, stack) == "field"@,
    ensures
        cut_law(
            decode_field(tag, tokens, pos),
            decode_field(tag, tokens.take(k as int), pos),
            pos,
            k,
            innermost(root, open_stack(tokens, pos, k, stack)),
        ),
{
    if attribute_map(tag.attributes@) is Some {
        lemma_field_content_cut(
            tokens,
            pos,
            FieldContent { text: Seq::empty(), value: None },
            k,
            root,
            stack,
        );
    }
}

/// The body of a data field leaves the cursor within the stream, behind what
/// it has read, and a body that decodes closes its element.
pub proof fn lemma_data_field_sources_advances(
    tokens: Seq<Token>,
    pos: nat,
    acc: Seq<SourceView>,
    stack: Seq<Seq<u8>>,
)
    ensures
        advances(tokens, pos, data_field_sources(tokens, pos, acc).1),
        data_field_sources(tokens, pos, acc).0 is Ok ==> open_stack(
            tokens,
            pos,
            data_field_sources(tokens, pos, acc).1,
            stack,
        ) == closed(stack),
    decreases tokens.len() - pos,
{
    let token = token_at(tokens, pos);
    assert(open_stack(tokens, pos + 1, pos + 1, closed(stack)) == closed(stack));
    if empties(token, "source"@) {
        if let Ok(c) = decode_source(tag_of(token)) {
            lemma_data_field_sources_advances(tokens, pos + 1, acc.push(c), stack);
        }
    } else {
        if verdict("dataField"@, token) is Ignored {
            lemma_data_field_sources_advances(tokens, pos + 1, acc, stack);
        }
    }
}

/// The body of a data field on a cut stream.
pub proof fn lemma_data_field_sources_cut(
    tokens: Seq<Token>,
    pos: nat,
    acc: Seq<SourceView>,
    k: nat,
    root: Seq<char>,
    stack: Seq<Seq<u8>>,
)
    requires
        k <= tokens.len(),
        innermost(root, stack) == "dataField"@,
    ensures
        cut_law(
            data_field_sources(tokens, pos, acc),
            data_field_sources(tokens.take(k as int), pos, acc),
            pos,
            k,
            innermost(root, open_stack(tokens, pos, k, stack)),
        ),
    decreases tokens.len() - pos,
{
    let short = tokens.take(k as int);
    let token = token_at(tokens, pos);
    lemma_data_field_sources_advances(tokens, pos, acc, stack);
    if pos < k {
        assert(token_at(short, pos) == token);
        if empties(token, "source"@) {
            if let Ok(c) = decode_source(tag_of(token)) {
                lemma_data_field_sources_cut(tokens, pos + 1, acc.push(c), k, root, stack);
            }
        } else {
            if verdict("dataField"@, token) is Ignored {
                lemma_data_field_sources_cut(tokens, pos + 1, acc, k, root, stack);
            }
        }
    } else if pos >= tokens.len() && k == tokens.len() {
        assert(short =~= tokens);
    }
}

/// The data field decoder leaves the cursor within the stream, and a data
/// field that it decodes closes its element.
pub proof fn lemma_decode_data_field_within(
    tag: StartTag,
    tokens: Seq<Token>,
    pos: nat,
    stack: Seq<Seq<u8>>,
)
    ensures
        within(tokens, pos, decode_data_field(tag, tokens, pos).1),
        decode_data_field(tag, tokens, pos).0 is Ok ==> open_stack(
            tokens,
            pos,
            decode_data_field(tag, tokens, pos).1,
            stack,
        ) == closed(stack),
{
    if attribute_map(tag.attributes@) is Some {
        lemma_data_field_sources_advances(tokens, pos, Seq::empty(), stack);
    }
}

/// The data field decoder on a cut stream.
pub proof fn lemma_decode_data_field_cut(
    tag: StartTag,
    tokens: Seq<Token>,
    pos: nat,
    k: nat,
    root: Seq<char>,
    stack: Seq<Seq<u8>>,
)
    requires
        k <= tokens.len(),
        innermost(root, stack) == "dataField"@,
    ensures
        cut_law(
            decode_data_field(tag, tokens, pos),
            decode_data_field(tag, tokens.take(k as int), pos),
            pos,
            k,
            innermost(root, open_stack(tokens, pos, k, stack)),
        ),
{
    if attribute_map(tag.attributes@) is Some {
        lemma_data_field_sources_cut(tokens, pos, Seq::empty(), k, root, stack);
    }
}

/// The body of a multi field leaves the cursor within the stream, behind what
/// it has read, and a body that decodes closes its element.
pub proof fn lemma_multi_field_body_advances(tokens: Seq<Token>, pos: nat, stack: Seq<Seq<u8>>)
    ensures
        advances(tokens, pos, multi_field_body(tokens, pos).1),
        multi_field_body(tokens, pos).0 is Ok ==> open_stack(
            tokens,
            pos,
            multi_field_body(tokens, pos).1,
            stack,
        ) == closed(stack),
    decreases tokens.len() - pos,
{
    let token = token_at(tokens, pos);
    assert(open_stack(tokens, pos + 1, pos + 1, closed(stack)) == closed(stack));
    if empties(token, "empty"@) {
        lemma_multi_field_body_advances(tokens, pos + 1, stack);
    } else {
        if verdict("multiField"@, token) is Ignored {
            lemma_multi_field_body_advances(tokens, pos + 1, stack);
        }
    }
}

/// The body of a multi field on a cut stream.
pub proof fn lemma_multi_field_body_cut(
    tokens: Seq<Token>,
    pos: nat,
    k: nat,
    root: Seq<char>,
    stack: Seq<Seq<u8>>,
)
    requires
        k <= tokens.len(),
        innermost(root, stack) == "multiField"@,
    ensures
        cut_law(
            multi_field_body(tokens, pos),
            multi_field_body(tokens.take(k as int), pos),
            pos,
            k,
            innermost(root, open_stack(tokens, pos, k, stack)),
        ),
    decreases tokens.len() - pos,
{
    let short = tokens.take(k as int);
    let token = token_at(tokens, pos);
    lemma_multi_field_body_advances(tokens, pos, stack);
    if pos < k {
        assert(token_at(short, pos) == token);
        if empties(token, "empty"@) {
            lemma_multi_field_body_cut(tokens, pos + 1, k, root, stack);
        } else {
            if verdict("multiField"@, token) is Ignored {
                lemma_multi_field_body_cut(tokens, pos + 1, k, root, stack);
            }
        }
    } else if pos >= tokens.len() && k == tokens.len() {
        assert(short =~= tokens);
    }
}

/// The multi field decoder leaves the cursor within the stream, and a multi
/// field that it decodes closes its element.
pub proof fn lemma_decode_multi_field_within(
    tag: StartTag,
    tokens: Seq<Token>,
    pos: nat,
    stack: Seq<Seq<u8>>,
)
    ensures
        within(tokens, pos, decode_multi_field(tag, tokens, pos).1),
        decode_multi_field(tag, tokens, pos).0 is Ok ==> open_stack(
            tokens,
            pos,
            decode_multi_field(tag, tokens, pos).1,
            stack,
        ) == closed(stack),
{
    if attribute_map(tag.attributes@) is Some {
        lemma_multi_field_body_advances(tokens, pos, stack);
    }
}

/// The multi field decoder on a cut stream.
pub proof fn lemma_decode_multi_field_cut(
    tag: StartTag,
    tokens: Seq<Token>,
    pos: nat,
    k: nat,
    root: Seq<char>,
    stack: Seq<Seq<u8>>,
)
    requires
        k <= tokens.len(),
        innermost(root, stack) == "multiField"@,
    ensures
        cut_law(
            decode_multi_field(tag, tokens, pos),
            decode_multi_field(tag, tokens.take(k as int), pos),
            pos,
            k,
            innermost(root, open_stack(tokens, pos, k, stack)),
        ),
{
    if attribute_map(tag.attributes@) is Some {
        lemma_multi_field_body_cut(tokens, pos, k, root, stack);
    }
}

/// The body of a model leaves the cursor within the stream, behind what it has
/// read, and a body that decodes closes its element.
pub proof fn lemma_model_children_advances(
    tokens: Seq<Token>,
    pos: nat,
    acc: ModelChildren,
    stack: Seq<Seq<u8>>,
)
    ensures
        advances(tokens, pos, model_children(tokens, pos, acc).1),
        model_children(tokens, pos, acc).0 is Ok ==> open_stack(
            tokens,
            pos,
            model_children(tokens, pos, acc).1,
            stack,
        ) == closed(stack),
    decreases tokens.len() - pos, 0nat,
{
    let token = token_at(tokens, pos);
    let end = model_children(tokens, pos, acc).1;
    assert(open_stack(tokens, pos + 1, pos + 1, closed(stack)) == closed(stack));
    if opens(token, "multiModelField"@) {
        let inner = stack.push(tag_of(token).name@);
        lemma_named_element(tag_of(token).name@, "multiModelField"@, stack, Seq::empty());
        lemma_decode_multi_model_field_within(tag_of(token), tokens, pos + 1, inner);
        let (child, next) = decode_multi_model_field(tag_of(token), tokens, pos + 1);
        if let Ok(c) = child {
            lemma_model_children_advances(
                tokens,
                next,
                ModelChildren { multi_model_fields: acc.multi_model_fields.push(c), ..acc },
                stack,
            );
            lemma_open_stack_split(tokens, pos + 1, next, end, inner);
        }
    } else if empties(token, "multiModelField"@) {
        if let Ok(c) = decode_multi_model_field_empty(tag_of(token)) {
            lemma_model_children_advances(
                tokens,
                pos + 1,
                ModelChildren { multi_model_fields: acc.multi_model_fields.push(c), ..acc },
                stack,
            );
        }
    } else if opens(token, "multiField"@) {
        let inner = stack.push(tag_of(token).name@);
        lemma_named_element(tag_of(token).name@, "multiField"@, stack, Seq::empty());
        lemma_decode_multi_field_within(tag_of(token), tokens, pos + 1, inner);
        let (child, next) = decode_multi_field(tag_of(token), tokens, pos + 1);
        if let Ok(c) = child {
            lemma_model_children_advances(
                tokens,
                next,
                ModelChildren { multi_fields: acc.multi_fields.push(c), ..acc },
                stack,
            );
            lemma_open_stack_split(tokens, pos + 1, next, end, inner);
        }
    } else if empties(token, "multiField"@) {
        if let Ok(c) = decode_multi_field_empty(tag_of(token)) {
            lemma_model_children_advances(
                tokens,
                pos + 1,
                ModelChildren { multi_fields: acc.multi_fields.push(c), ..acc },
                stack,
            );
        }
    } else if opens(token, "field"@) {
        let inner = stack.push(tag_of(token).name@);
        lemma_named_element(tag_of(token).name@, "field"@, stack, Seq::empty());
        lemma_decode_field_within(tag_of(token), tokens, pos + 1, inner);
        let (child, next) = decode_field(tag_of(token), tokens, pos + 1);
        if let Ok(c) = child {
            lemma_model_children_advances(
                tokens,
                next,
                ModelChildren { fields: acc.fields.push(c), ..acc },
                stack,
            );
            lemma_open_stack_split(tokens, pos + 1, next, end, inner);
        }
    } else if empties(token, "field"@) {
        if let Ok(c) = decode_field_empty(tag_of(token)) {
            lemma_model_children_advances(
                tokens,
                pos + 1,
                ModelChildren { fields: acc.fields.push(c), ..acc },
                stack,
            );
        }
    } else if opens(token, "modelField"@) {
        let inner = stack.push(tag_of(token).name@);
        lemma_named_element(tag_of(token).name@, "modelField"@, stack, Seq::empty());
        lemma_decode_model_field_within(tag_of(token), tokens, pos + 1, inner);
        let (child, next) = decode_model_field(tag_of(token), tokens, pos + 1);
        if let Ok(c) = child {
            lemma_model_children_advances(
                tokens,
                next,
                ModelChildren { model_fields: acc.model_fields.push(c), ..acc },
                stack,
            );
            lemma_open_stack_split(tokens, pos + 1, next, end, inner);
        }
    } else if empties(token, "modelField"@) {
        if let Ok(c) = decode_model_field_empty(tag_of(token)) {
            lemma_model_children_advances(
                tokens,
                pos + 1,
                ModelChildren { model_fields: acc.model_fields.push(c), ..acc },
                stack,
            );
        }
    } else if opens(token, "dataField"@) {
        let inner = stack.push(tag_of(token).name@);
        lemma_named_element(tag_of(token).name@, "dataField"@, stack, Seq::empty());
        lemma_decode_data_field_within(tag_of(token), tokens, pos + 1, inner);
        let (child, next) = decode_data_field(tag_of(token), tokens, pos + 1);
        if let Ok(c) = child {
            lemma_model_children_advances(
                tokens,
                next,
                ModelChildren { data_fields: acc.data_fields.push(c), ..acc },
                stack,
            );
            lemma_open_stack_split(tokens, pos + 1, next, end, inner);
        }
    } else if empties(token, "dataField"@) {
        if let Ok(c) = decode_data_field_empty(tag_of(token)) {
            lemma_model_children_advances(
                tokens,
                pos + 1,
                ModelChildren { data_fields: acc.data_fields.push(c), ..acc },
                stack,
            );
        }
    } else {
        if verdict("model"@, token) is Ignored {
            lemma_model_children_advances(tokens, pos + 1, acc, stack);
        }
    }
}

/// The body of a model on a cut stream.
pub proof fn lemma_model_children_cut(
    tokens: Seq<Token>,
    pos: nat,
    acc: ModelChildren,
    k: nat,
    root: Seq<char>,
    stack: Seq<Seq<u8>>,
)
    requires
        k <= tokens.len(),
        innermost(root, stack) == "model"@,
    ensures
        cut_law(
            model_children(tokens, pos, acc),
            model_children(tokens.take(k as int), pos, acc),
            pos,
            k,
            innermost(root, open_stack(tokens, pos, k, stack)),
        ),
    decreases tokens.len() - pos, 0nat,
{
    let short = tokens.take(k as int);
    let token = token_at(tokens, pos);
    lemma_model_children_advances(tokens, pos, acc, stack);
    if pos < k {
        assert(token_at(short, pos) == token);
        if opens(token, "multiModelField"@) {
            let inner = stack.push(tag_of(token).name@);
            lemma_named_element(tag_of(token).name@, "multiModelField"@, stack, root);
            lemma_decode_multi_model_field_within(tag_of(token), tokens, pos + 1, inner);
            lemma_decode_multi_model_field_cut(tag_of(token), tokens, pos + 1, k, root, inner);
            let (child, next) = decode_multi_model_field(tag_of(token), tokens, pos + 1);
            if let Ok(c) = child {
                lemma_model_children_advances(
                    tokens,
                    next,
                    ModelChildren { multi_model_fields: acc.multi_model_fields.push(c), ..acc },
                    stack,
                );
                if next <= k {
                    lemma_model_children_cut(
                        tokens,
                        next,
                        ModelChildren { multi_model_fields: acc.multi_model_fields.push(c), ..acc },
                        k,
                        root,
                        stack,
                    );
                    lemma_open_stack_split(tokens, pos + 1, next, k, inner);
                }
            }
        } else if empties(token, "multiModelField"@) {
            if let Ok(c) = decode_multi_model_field_empty(tag_of(token)) {
                lemma_model_children_cut(
                    tokens,
                    pos + 1,
                    ModelChildren { multi_model_fields: acc.multi_model_fields.push(c), ..acc },
                    k,
                    root,
                    stack,
                );
            }
        } else if opens(token, "multiField"@) {
            let inner = stack.push(tag_of(token).name@);
            lemma_named_element(tag_of(token).name@, "multiField"@, stack, root);
            lemma_decode_multi_field_within(tag_of(token), tokens, pos + 1, inner);
            lemma_decode_multi_field_cut(tag_of(token), tokens, pos + 1, k, root, inner);
            let (child, next) = decode_multi_field(tag_of(token), tokens, pos + 1);
            if let Ok(c) = child {
                lemma_model_children_advances(
                    tokens,
                    next,
                    ModelChildren { multi_fields: acc.multi_fields.push(c), ..acc },
                    stack,
                );
                if next <= k {
                    lemma_model_children_cut(
                        tokens,
                        next,
                        ModelChildren { multi_fields: acc.multi_fields.push(c), ..acc },
                        k,
                        root,
                        stack,
                    );
                    lemma_open_stack_split(tokens, pos + 1, next, k, inner);
                }
            }
        } else if empties(token, "multiField"@) {
            if let Ok(c) = decode_multi_field_empty(tag_of(token)) {
                lemma_model_children_cut(
                    tokens,
                    pos + 1,
                    ModelChildren { multi_fields: acc.multi_fields.push(c), ..acc },
                    k,
                    root,
                    stack,
                );
            }
        } else if opens(token, "field"@) {
            let inner = stack.push(tag_of(token).name@);
            lemma_named_element(tag_of(token).name@, "field"@, stack, root);
            lemma_decode_field_within(tag_of(token), tokens, pos + 1, inner);
            lemma_decode_field_cut(tag_of(token), tokens, pos + 1, k, root, inner);
            let (child, next) = decode_field(tag_of(token), tokens, pos + 1);
            if let Ok(c) = child {
                lemma_model_children_advances(
                    tokens,
                    next,
                    ModelChildren { fields: acc.fields.push(c), ..acc },
                    stack,
                );
                if next <= k {
                    lemma_model_children_cut(
                        tokens,
                        next,
                        ModelChildren { fields: acc.fields.push(c), ..acc },
                        k,
                        root,
                        stack,
                    );
                    lemma_open_stack_split(tokens, pos + 1, next, k, inner);
                }
            }
        } else if empties(token, "field"@) {
            if let Ok(c) = decode_field_empty(tag_of(token)) {
                lemma_model_children_cut(
                    tokens,
                    pos + 1,
                    ModelChildren { fields: acc.fields.push(c), ..acc },
                    k,
                    root,
                    stack,
                );
            }
        } else if opens(token, "modelField"@) {
            let inner = stack.push(tag_of(token).name@);
            lemma_named_element(tag_of(token).name@, "modelField"@, stack, root);
            lemma_decode_model_field_within(tag_of(token), tokens, pos + 1, inner);
            lemma_decode_model_field_cut(tag_of(token), tokens, pos + 1, k, root, inner);
            let (child, next) = decode_model_field(tag_of(token), tokens, pos + 1);
            if let Ok(c) = child {
                lemma_model_children_advances(
                    tokens,
                    next,
                    ModelChildren { model_fields: acc.model_fields.push(c), ..acc },
                    stack,
                );
                if next <= k {
                    lemma_model_children_cut(
                        tokens,
                        next,
                        ModelChildren { model_fields: acc.model_fields.push(c), ..acc },
                        k,
                        root,
                        stack,
                    );
                    lemma_open_stack_split(tokens, pos + 1, next, k, inner);
                }
            }
        } else if empties(token, "modelField"@) {
            if let Ok(c) = decode_model_field_empty(tag_of(token)) {
                lemma_model_children_cut(
                    tokens,
                    pos + 1,
                    ModelChildren { model_fields: acc.model_fields.push(c), ..acc },
                    k,
                    root,
                    stack,
                );
            }
        } else if opens(token, "dataField"@) {
            let inner = stack.push(tag_of(token).name@);
            lemma_named_element(tag_of(token).name@, "dataField"@, stack, root);
            lemma_decode_data_field_within(tag_of(token), tokens, pos + 1, inner);
            lemma_decode_data_field_cut(tag_of(token), tokens, pos + 1, k, root, inner);
            let (child, next) = decode_data_field(tag_of(token), tokens, pos + 1);
            if let Ok(c) = child {
                lemma_model_children_advances(
                    tokens,
                    next,
                    ModelChildren { data_fields: acc.data_fields.push(c), ..acc },
                    stack,
                );
                if next <= k {
                    lemma_model_children_cut(
                        tokens,
                        next,
                        ModelChildren { data_fields: acc.data_fields.push(c), ..acc },
                        k,
                        root,
                        stack,
                    );
                    lemma_open_stack_split(tokens, pos + 1, next, k, inner);
                }
            }
        } else if empties(token, "dataField"@) {
            if let Ok(c) = decode_data_field_empty(tag_of(token)) {
                lemma_model_children_cut(
                    tokens,
                    pos + 1,
                    ModelChildren { data_fields: acc.data_fields.push(c), ..acc },
                    k,
                    root,
                    stack,
                );
            }
        } else {
            if verdict("model"@, token) is Ignored {
                lemma_model_children_cut(tokens, pos + 1, acc, k, root, stack);
            }
        }
    } else if pos >= tokens.len() && k == tokens.len() {
        assert(short =~= tokens);
    }
}

/// The model decoder leaves the cursor within the stream, and a model that it
/// decodes closes its element.
pub proof fn lemma_decode_model_within(
    tag: StartTag,
    tokens: Seq<Token>,
    pos: nat,
    stack: Seq<Seq<u8>>,
)
    ensures
        within(tokens, pos, decode_model(tag, tokens, pos).1),
        decode_model(tag, tokens, pos).0 is Ok ==> open_stack(
            tokens,
            pos,
            decode_model(tag, tokens, pos).1,
            stack,
        ) == closed(stack),
    decreases tokens.len() - pos, 1nat,
{
    if attribute_map(tag.attributes@) is Some {
        lemma_model_children_advances(tokens, pos, no_children(), stack);
    }
}

/// The model decoder on a cut stream.
pub proof fn lemma_decode_model_cut(
    tag: StartTag,
    tokens: Seq<Token>,
    pos: nat,
    k: nat,
    root: Seq<char>,
    stack: Seq<Seq<u8>>,
)
    requires
        k <= tokens.len(),
        innermost(root, stack) == "model"@,
    ensures
        cut_law(
            decode_model(tag, tokens, pos),
            decode_model(tag, tokens.take(k as int), pos),
            pos,
            k,
            innermost(root, open_stack(tokens, pos, k, stack)),
        ),
    decreases tokens.len() - pos, 1nat,
{
    if attribute_map(tag.attributes@) is Some {
        lemma_model_children_cut(tokens, pos, no_children(), k, root, stack);
    }
}

/// The body of a model field leaves the cursor within the stream, behind what
/// it has read, and a body that decodes closes its element.
pub proof fn lemma_model_field_models_advances(
    tokens: Seq<Token>,
    pos: nat,
    acc: Seq<ModelView>,
    stack: Seq<Seq<u8>>,
)
    ensures
        advances(tokens, pos, model_field_models(tokens, pos, acc).1),
        model_field_models(tokens, pos, acc).0 is Ok ==> open_stack(
            tokens,
            pos,
            model_field_models(tokens, pos, acc).1,
            stack,
        ) == closed(stack),
    decreases tokens.len() - pos, 0nat,
{
    let token = token_at(tokens, pos);
    let end = model_field_models(tokens, pos, acc).1;
    assert(open_stack(tokens, pos + 1, pos + 1, closed(stack)) == closed(stack));
    if opens(token, "model"@) {
        let inner = stack.push(tag_of(token).name@);
        lemma_named_element(tag_of(token).name@, "model"@, stack, Seq::empty());
        lemma_decode_model_within(tag_of(token), tokens, pos + 1, inner);
        let (child, next) = decode_model(tag_of(token), tokens, pos + 1);
        if let Ok(c) = child {
            lemma_model_field_models_advances(tokens, next, acc.push(c), stack);
            lemma_open_stack_split(tokens, pos + 1, next, end, inner);
        }
    } else if empties(token, "empty"@) {
        lemma_model_field_models_advances(tokens, pos + 1, acc, stack);
    } else {
        if verdict("modelField"@, token) is Ignored {
            lemma_model_field_models_advances(tokens, pos + 1, acc, stack);
        }
    }
}

/// The body of a model field on a cut stream.
pub proof fn lemma_model_field_models_cut(
    tokens: Seq<Token>,
    pos: nat,
    acc: Seq<ModelView>,
    k: nat,
    root: Seq<char>,
    stack: Seq<Seq<u8>>,
)
    requires
        k <= tokens.len(),
        innermost(root, stack) == "modelField"@,
    ensures
        cut_law(
            model_field_models(tokens, pos, acc),
            model_field_models(tokens.take(k as int), pos, acc),
            pos,
            k,
            innermost(root, open_stack(tokens, pos, k, stack)),
        ),
    decreases tokens.len() - pos, 0nat,
{
    let short = tokens.take(k as int);
    let token = token_at(tokens, pos);
    lemma_model_field_models_advances(tokens, pos, acc, stack);
    if pos < k {
        assert(token_at(short, pos) == token);
        if opens(token, "model"@) {
            let inner = stack.push(tag_of(token).name@);
            lemma_named_element(tag_of(token).name@, "model"@, stack, root);
            lemma_decode_model_within(tag_of(token), tokens, pos + 1, inner);
            lemma_decode_model_cut(tag_of(token), tokens, pos + 1, k, root, inner);
            let (child, next) = decode_model(tag_of(token), tokens, pos + 1);
            if let Ok(c) = child {
                lemma_model_field_models_advances(tokens, next, acc.push(c), stack);
                if next <= k {
                    lemma_model_field_models_cut(tokens, next, acc.push(c), k, root, stack);
                    lemma_open_stack_split(tokens, pos + 1, next, k, inner);
                }
            }
        } else if empties(token, "empty"@) {
            lemma_model_field_models_cut(tokens, pos + 1, acc, k, root, stack);
        } else {
            if verdict("modelField"@, token) is Ignored {
                lemma_model_field_models_cut(tokens, pos + 1, acc, k, root, stack);
            }
        }
    } else if pos >= tokens.len() && k == tokens.len() {
        assert(short =~= tokens);
    }
}

/// The model field decoder leaves the cursor within the stream, and a model
/// field that it decodes closes its element.
pub proof fn lemma_decode_model_field_within(
    tag: StartTag,
    tokens: Seq<Token>,
    pos: nat,
    stack: Seq<Seq<u8>>,
)
    ensures
        within(tokens, pos, decode_model_field(tag, tokens, pos).1),
        decode_model_field(tag, tokens, pos).0 is Ok ==> open_stack(
            tokens,
            pos,
            decode_model_field(tag, tokens, pos).1,
            stack,
        ) == closed(stack),
    decreases tokens.len() - pos, 1nat,
{
    if attribute_map(tag.attributes@) is Some {
        lemma_model_field_models_advances(tokens, pos, Seq::empty(), stack);
    }
}

/// The model field decoder on a cut stream.
pub proof fn lemma_decode_model_field_cut(
    tag: StartTag,
    tokens: Seq<Token>,
    pos: nat,
    k: nat,
    root: Seq<char>,
    stack: Seq<Seq<u8>>,
)
    requires
        k <= tokens.len(),
        innermost(root, stack) == "modelField"@,
    ensures
        cut_law(
            decode_model_field(tag, tokens, pos),
            decode_model_field(tag, tokens.take(k as int), pos),
            pos,
            k,
            innermost(root, open_stack(tokens, pos, k, stack)),
        ),
    decreases tokens.len() - pos, 1nat,
{
    if attribute_map(tag.attributes@) is Some {
        lemma_model_field_models_cut(tokens, pos, Seq::empty(), k, root, stack);
    }
}

/// The body of a multi model field leaves the cursor within the stream, behind
/// what it has read, and a body that decodes closes its element.
pub proof fn lemma_multi_model_field_models_advances(
    tokens: Seq<Token>,
    pos: nat,
    acc: Seq<ModelView>,
    stack: Seq<Seq<u8>>,
)
    ensures
        advances(tokens, pos, multi_model_field_models(tokens, pos, acc).1),
        multi_model_field_models(tokens, pos, acc).0 is Ok ==> open_stack(
            tokens,
            pos,
            multi_model_field_models(tokens, pos, acc).1,
            stack,
        ) == closed(stack),
    decreases tokens.len() - pos, 0nat,
{
    let token = token_at(tokens, pos);
    let end = multi_model_field_models(tokens, pos, acc).1;
    assert(open_stack(tokens, pos + 1, pos + 1, closed(stack)) == closed(stack));
    if opens(token, "model"@) {
        let inner = stack.push(tag_of(token).name@);
        lemma_named_element(tag_of(token).name@, "model"@, stack, Seq::empty());
        lemma_decode_model_within(tag_of(token), tokens, pos + 1, inner);
        let (child, next) = decode_model(tag_of(token), tokens, pos + 1);
        if let Ok(c) = child {
            lemma_multi_model_field_models_advances(tokens, next, acc.push(c), stack);
            lemma_open_stack_split(tokens, pos + 1, next, end, inner);
        }
    } else {
        if verdict("multiModelField"@, token) is Ignored {
            lemma_multi_model_field_models_advances(tokens, pos + 1, acc, stack);
        }
    }
}

/// The body of a multi model field on a cut stream.
pub proof fn lemma_multi_model_field_models_cut(
    tokens: Seq<Token>,
    pos: nat,
    acc: Seq<ModelView>,
    k: nat,
    root: Seq<char>,
    stack: Seq<Seq<u8>>,
)
    requires
        k <= tokens.len(),
        innermost(root, stack) == "multiModelField"@,
    ensures
        cut_law(
            multi_model_field_models(tokens, pos, acc),
            multi_model_field_models(tokens.take(k as int), pos, acc),
            pos,
            k,
            innermost(root, open_stack(tokens, pos, k, stack)),
        ),
    decreases tokens.len() - pos, 0nat,
{
    let short = tokens.take(k as int);
    let token = token_at(tokens, pos);
    lemma_multi_model_field_models_advances(tokens, pos, acc, stack);
    if pos < k {
        assert(token_at(short, pos) == token);
        if opens(token, "model"@) {
            let inner = stack.push(tag_of(token).name@);
            lemma_named_element(tag_of(token).name@, "model"@, stack, root);
            lemma_decode_model_within(tag_of(token), tokens, pos + 1, inner);
            lemma_decode_model_cut(tag_of(token), tokens, pos + 1, k, root, inner);
            let (child, next) = decode_model(tag_of(token), tokens, pos + 1);
            if let Ok(c) = child {
                lemma_multi_model_field_models_advances(tokens, next, acc.push(c), stack);
                if next <= k {
                    lemma_multi_model_field_models_cut(tokens, next, acc.push(c), k, root, stack);
                    lemma_open_stack_split(tokens, pos + 1, next, k, inner);
                }
            }
        } else {
            if verdict("multiModelField"@, token) is Ignored {
                lemma_multi_model_field_models_cut(tokens, pos + 1, acc, k, root, stack);
            }
        }
    } else if pos >= tokens.len() && k == tokens.len() {
        assert(short =~= tokens);
    }
}

/// The multi model field decoder leaves the cursor within the stream, and a
/// multi model field that it decodes closes its element.
pub proof fn lemma_decode_multi_model_field_within(
    tag: StartTag,
    tokens: Seq<Token>,
    pos: nat,
    stack: Seq<Seq<u8>>,
)
    ensures
        within(tokens, pos, decode_multi_model_field(tag, tokens, pos).1),
        decode_multi_model_field(tag, tokens, pos).0 is Ok ==> open_stack(
            tokens,
            pos,
            decode_multi_model_field(tag, tokens, pos).1,
            stack,
        ) == closed(stack),
    decreases tokens.len() - pos, 1nat,
{
    if attribute_map(tag.attributes@) is Some {
        lemma_multi_model_field_models_advances(tokens, pos, Seq::empty(), stack);
    }
}

/// The multi model field decoder on a cut stream.
pub proof fn lemma_decode_multi_model_field_cut(
    tag: StartTag,
    tokens: Seq<Token>,
    pos: nat,
    k: nat,
    root: Seq<char>,
    stack: Seq<Seq<u8>>,
)
    requires
        k <= tokens.len(),
        innermost(root, stack) == "multiModelField"@,
    ensures
        cut_law(
            decode_multi_model_field(tag, tokens, pos),
            decode_multi_model_field(tag, tokens.take(k as int), pos),
            pos,
            k,
            innermost(root, open_stack(tokens, pos, k, stack)),
        ),
    decreases tokens.len() - pos, 1nat,
{
    if attribute_map(tag.attributes@) is Some {
        lemma_multi_model_field_models_cut(tokens, pos, Seq::empty(), k, root, stack);
    }
}

/// A model that decodes on a whole stream does not decode on a stream that
/// ends inside it: there the decoder fails with `PrematureEof`, and the
/// failure names the innermost element that the cut leaves open.
pub proof fn lemma_truncated_model(tag: StartTag, tokens: Seq<Token>, pos: nat, k: nat)
    requires
        k <= tokens.len(),
        decode_model(tag, tokens, pos).0 is Ok,
        pos <= k < decode_model(tag, tokens, pos).1,
    ensures
        decode_model(tag, tokens.take(k as int), pos).0 == Err::<ModelView, ErrorView>(
            ErrorView::PrematureEof { element: open_element("model"@, tokens, pos, k) },
        ),
{
    lemma_decode_model_cut(tag, tokens, pos, k, "model"@, Seq::empty());
}

/// What stands behind a model has no part in what the model decodes to: a
/// stream cut behind the point where the decoder ends gives the same outcome
/// and the same end.
pub proof fn lemma_model_reads_no_further(tag: StartTag, tokens: Seq<Token>, pos: nat, k: nat)
    requires
        decode_model(tag, tokens, pos).1 <= k <= tokens.len(),
    ensures
        decode_model(tag, tokens.take(k as int), pos) == decode_model(tag, tokens, pos),
{
    lemma_decode_model_cut(tag, tokens, pos, k, "model"@, Seq::empty());
}

} // verus!
