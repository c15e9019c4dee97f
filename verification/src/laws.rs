//! What holds of the decoders whatever the document: theorems over the
//! functions that the decoders are proved against.

use crate::error::{outcome, ErrorView, ParseError};
use crate::models::commons::{
    decode_field, decode_field_empty, decode_value, field_content, FieldContent,
};
use crate::models::data_field::{decode_data_field, decode_data_field_empty};
use crate::models::model::{
    decode_model, decode_model_field, decode_model_field_empty, decode_multi_model_field,
    decode_multi_model_field_empty,
};
use crate::models::multi_field::{decode_multi_field, decode_multi_field_empty};
use crate::reader::{cdata_of, decodes, named, text_of, token_at, EventReader};
use crate::report::first_project;
use crate::text::{is_whitespace, without_whitespace};
use crate::utils::{attribute_map, text_content};
use crate::xml::{xml_tokens, StartTag, Token, XmlEvent};
use vstd::prelude::*;

verus! {

/// Whether `r` is the failure `e`.
pub open spec fn fails_with<T>(r: Result<T, ErrorView>, e: ErrorView) -> bool {
    r matches Err(x) && x == e
}

/// Whether the stream is over at `pos`: nothing is left, or what is left is
/// the end of the input.
pub open spec fn ends_at(tokens: Seq<Token>, pos: nat) -> bool {
    match token_at(tokens, pos) {
        None => true,
        Some(t) => t.event is Eof,
    }
}

/// Whether the token at `pos` is an end tag called `element`.
pub open spec fn closes_at(tokens: Seq<Token>, pos: nat, element: Seq<char>) -> bool {
    token_at(tokens, pos) matches Some(t) && t.event matches XmlEvent::End(name) && named(
        name@,
        element,
    )
}

/// The text of a decoded field holds no white space, whether the field has a
/// nested value or not.
pub proof fn lemma_field_text_has_no_whitespace(tag: StartTag, tokens: Seq<Token>, pos: nat)
    ensures
        decode_field(tag, tokens, pos).0 matches Ok(field) ==> forall|i: int|
            0 <= i < field.text.len() ==> !is_whitespace(#[trigger] field.text[i]),
        decode_field_empty(tag) matches Ok(field) ==> field.text.len() == 0,
{
    if let Ok(field) = decode_field(tag, tokens, pos).0 {
        let map = attribute_map(tag.attributes@)->0;
        let content = field_content(
            tokens,
            pos,
            FieldContent { text: Seq::empty(), value: None },
        ).0->Ok_0;
        assert(field.text == without_whitespace(content.text));
        assert forall|i: int| 0 <= i < field.text.len() implies !is_whitespace(
            #[trigger] field.text[i],
        ) by {
            content.text.lemma_filter_pred(|c: char| !is_whitespace(c), i);
        }
    }
    if let Ok(field) = decode_field_empty(tag) {
        assert(field.text == without_whitespace(Seq::<char>::empty()));
        Seq::<char>::empty().lemma_filter_len(|c: char| !is_whitespace(c));
    }
}

/// What one segment of a leaf adds to its text: character data as it is
/// unescaped, a CDATA section trimmed of the white space around it.
pub open spec fn segment_text(event: XmlEvent) -> Option<Seq<char>> {
    match event {
        XmlEvent::Text(raw) => text_of(raw@),
        XmlEvent::CData(raw) => cdata_of(raw@),
        _ => None,
    }
}

/// The texts of the segments `tokens[from..to]`, one after the other.
pub open spec fn joined(tokens: Seq<Token>, from: nat, to: nat) -> Seq<char>
    decreases to - from,
{
    if from >= to {
        Seq::empty()
    } else {
        segment_text(tokens[from as int].event)->0 + joined(tokens, from + 1, to)
    }
}

/// The text of a leaf is what its segments add, in order: a leaf whose
/// content is the segments `tokens[pos..end]` and whose end tag stands at
/// `end` has the text that was there before and the texts of the segments.
pub proof fn lemma_leaf_text(
    element: Seq<char>,
    tokens: Seq<Token>,
    pos: nat,
    end: nat,
    acc: Seq<char>,
)
    requires
        pos <= end < tokens.len(),
        forall|i: int| pos <= i < end ==> segment_text(#[trigger] tokens[i].event) is Some,
        tokens[end as int].event is End,
    ensures
        text_content(element, tokens, pos, acc) == (
            Ok::<Seq<char>, ErrorView>(acc + joined(tokens, pos, end)),
            (end + 1) as nat,
        ),
    decreases end - pos,
{
    if pos < end {
        let s = segment_text(tokens[pos as int].event)->0;
        lemma_leaf_text(element, tokens, pos + 1, end, acc + s);
        assert((acc + s) + joined(tokens, pos + 1, end) =~= acc + joined(tokens, pos, end));
    } else {
        assert(acc + joined(tokens, pos, end) =~= acc);
    }
}

/// Decoding is a function of what is read: two runs of the model decoder on
/// the same tag, over equal streams and from the same position, end with
/// equal trees or equal failures, and with the cursor in the same place.
pub proof fn lemma_decoding_is_deterministic(
    tag: StartTag,
    before_a: EventReader,
    after_a: EventReader,
    a: Result<crate::models::Model, ParseError>,
    before_b: EventReader,
    after_b: EventReader,
    b: Result<crate::models::Model, ParseError>,
)
    requires
        decodes(
            before_a,
            after_a,
            a,
            decode_model(tag, before_a.tokens@, before_a.position as nat),
        ),
        decodes(
            before_b,
            after_b,
            b,
            decode_model(tag, before_b.tokens@, before_b.position as nat),
        ),
        before_a.tokens@ == before_b.tokens@,
        before_a.position == before_b.position,
    ensures
        outcome(a) == outcome(b),
        after_a.position == after_b.position,
{
}

/// Equal documents hold equal reports.
pub proof fn lemma_report_is_deterministic(input_a: Seq<u8>, input_b: Seq<u8>)
    requires
        input_a == input_b,
    ensures
        first_project(xml_tokens(input_a), 0).0 == first_project(xml_tokens(input_b), 0).0,
{
}

/// A self-closing model field decodes to what the same tag decodes to when
/// its end tag follows at once.
pub proof fn lemma_self_closing_model_field(tag: StartTag, tokens: Seq<Token>, pos: nat)
    requires
        closes_at(tokens, pos, "modelField"@),
    ensures
        decode_model_field(tag, tokens, pos).0 == decode_model_field_empty(tag),
{
    lemma_end_is_no_tag(tokens, pos);
}

/// A self-closing multi model field decodes to what the same tag decodes to
/// when its end tag follows at once.
pub proof fn lemma_self_closing_multi_model_field(tag: StartTag, tokens: Seq<Token>, pos: nat)
    requires
        closes_at(tokens, pos, "multiModelField"@),
    ensures
        decode_multi_model_field(tag, tokens, pos).0 == decode_multi_model_field_empty(tag),
{
    lemma_end_is_no_tag(tokens, pos);
}

/// A self-closing multi field decodes to what the same tag decodes to when
/// its end tag follows at once.
pub proof fn lemma_self_closing_multi_field(tag: StartTag, tokens: Seq<Token>, pos: nat)
    requires
        closes_at(tokens, pos, "multiField"@),
    ensures
        decode_multi_field(tag, tokens, pos).0 == decode_multi_field_empty(tag),
{
    lemma_end_is_no_tag(tokens, pos);
}

/// A self-closing data field decodes to what the same tag decodes to when
/// its end tag follows at once.
pub proof fn lemma_self_closing_data_field(tag: StartTag, tokens: Seq<Token>, pos: nat)
    requires
        closes_at(tokens, pos, "dataField"@),
    ensures
        decode_data_field(tag, tokens, pos).0 == decode_data_field_empty(tag),
{
    lemma_end_is_no_tag(tokens, pos);
}

/// A self-closing field decodes to what the same tag decodes to when its end
/// tag follows at once.
pub proof fn lemma_self_closing_field(tag: StartTag, tokens: Seq<Token>, pos: nat)
    requires
        closes_at(tokens, pos, "field"@),
    ensures
        decode_field(tag, tokens, pos).0 == decode_field_empty(tag),
{
    lemma_end_is_no_tag(tokens, pos);
}

/// An end tag opens nothing.
proof fn lemma_end_is_no_tag(tokens: Seq<Token>, pos: nat)
    requires
        token_at(tokens, pos) matches Some(t) && t.event is End,
    ensures
        forall|element: Seq<char>| !crate::reader::opens(token_at(tokens, pos), element),
        forall|element: Seq<char>| !crate::reader::empties(token_at(tokens, pos), element),
{
}

/// A decoder that finds the stream over where it awaits a child or its end
/// tag fails with `PrematureEof` naming its own element.
pub proof fn lemma_stream_over(tag: StartTag, tokens: Seq<Token>, pos: nat)
    requires
        ends_at(tokens, pos),
        attribute_map(tag.attributes@) is Some,
    ensures
        fails_with(decode_model(tag, tokens, pos).0, ErrorView::PrematureEof { element: "model"@ }),
        fails_with(
            decode_model_field(tag, tokens, pos).0,
            ErrorView::PrematureEof { element: "modelField"@ },
        ),
        fails_with(
            decode_multi_model_field(tag, tokens, pos).0,
            ErrorView::PrematureEof { element: "multiModelField"@ },
        ),
        fails_with(
            decode_multi_field(tag, tokens, pos).0,
            ErrorView::PrematureEof { element: "multiField"@ },
        ),
        fails_with(
            decode_data_field(tag, tokens, pos).0,
            ErrorView::PrematureEof { element: "dataField"@ },
        ),
        fails_with(decode_field(tag, tokens, pos).0, ErrorView::PrematureEof { element: "field"@ }),
        fails_with(decode_value(tag, tokens, pos).0, ErrorView::PrematureEof { element: "value"@ }),
{
}

} // verus!
