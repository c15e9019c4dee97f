//! Required attributes. Every element asks for the attributes that it must
//! have in a fixed order, and the first that is missing, or that is no number
//! where it has to be one, is the failure of the element.

use crate::error::ErrorView;
use crate::models::commons::{
    decode_field, decode_field_empty, decode_item, decode_value, field_content, FieldContent,
};
use crate::models::data_field::{data_field_sources, decode_data_field, decode_data_field_empty};
use crate::models::file::{decode_file, file_children, FileChildren};
use crate::models::images::decode_image;
use crate::models::metadata::{decode_metadata, metadata_items};
use crate::models::model::{
    decode_model, decode_model_field, decode_model_field_empty, decode_multi_model_field,
    decode_multi_model_field_empty, model_children, model_field_models,
    multi_model_field_models, no_children,
};
use crate::models::model_type::{decode_model_type, model_type_models};
use crate::models::multi_field::{decode_multi_field, decode_multi_field_empty, multi_field_body};
use crate::models::project::{decode_project, no_sections, project_sections};
use crate::models::source::decode_source;
use crate::models::source_extractions::decode_extraction_info;
use crate::models::timestamp::decode_timestamp;
use crate::text::parse_unsigned;
use crate::utils::{attribute_map, text_content};
use crate::xml::{StartTag, Token};
use vstd::prelude::*;

verus! {

/// An attribute that an element must have: its name and, where the value has
/// to be a decimal number, the greatest number that it may be.
pub struct Requirement {
    pub name: Seq<char>,
    pub max: Option<nat>,
}

/// An attribute that must be there, whatever its value.
pub open spec fn text(name: Seq<char>) -> Requirement {
    Requirement { name, max: None }
}

/// An attribute that must be there and hold a decimal number of at most
/// `max`.
pub open spec fn number(name: Seq<char>, max: nat) -> Requirement {
    Requirement { name, max: Some(max) }
}

/// What is wrong with the attribute `wanted` of an element `element`, if
/// anything: it is missing, or its value is not the number it has to be.
pub open spec fn fault_at(
    map: Map<Seq<char>, Seq<char>>,
    element: Seq<char>,
    wanted: Requirement,
) -> Option<ErrorView> {
    if !map.contains_key(wanted.name) {
        Some(ErrorView::MissingAttribute { element, name: wanted.name })
    } else if wanted.max matches Some(max) && parse_unsigned(map[wanted.name], max) is None {
        Some(
            ErrorView::AttributeParseError {
                element,
                name: wanted.name,
                raw_value: map[wanted.name],
            },
        )
    } else {
        None
    }
}

/// The first fault among `wanted[from..]`.
pub open spec fn first_fault_from(
    map: Map<Seq<char>, Seq<char>>,
    element: Seq<char>,
    wanted: Seq<Requirement>,
    from: nat,
) -> Option<ErrorView>
    decreases wanted.len() - from,
{
    if from >= wanted.len() {
        None
    } else {
        match fault_at(map, element, wanted[from as int]) {
            Some(e) => Some(e),
            None => first_fault_from(map, element, wanted, from + 1),
        }
    }
}

/// The first fault among the attributes `wanted` of an element `element`
/// whose attributes are `map`.
pub open spec fn first_fault(
    map: Map<Seq<char>, Seq<char>>,
    element: Seq<char>,
    wanted: Seq<Requirement>,
) -> Option<ErrorView> {
    first_fault_from(map, element, wanted, 0)
}

/// The first fault among the attributes `wanted` of the tag `tag`, whose
/// attribute list decodes.
pub open spec fn attribute_fault(
    tag: StartTag,
    element: Seq<char>,
    wanted: Seq<Requirement>,
) -> Option<ErrorView> {
    first_fault(attribute_map(tag.attributes@)->0, element, wanted)
}

/// The failure of an outcome, if it is one.
pub open spec fn failure_of<T>(r: Result<T, ErrorView>) -> Option<ErrorView> {
    match r {
        Ok(_) => None,
        Err(e) => Some(e),
    }
}

/// The first fault stands at the first attribute that is at fault: there is
/// none where every attribute is in order, and otherwise it is the fault of
/// an attribute before which every attribute is in order.
pub proof fn lemma_first_fault(
    map: Map<Seq<char>, Seq<char>>,
    element: Seq<char>,
    wanted: Seq<Requirement>,
    from: nat,
)
    ensures
        match first_fault_from(map, element, wanted, from) {
            None => forall|j: int|
                from <= j < wanted.len() ==> fault_at(map, element, #[trigger] wanted[j]) is None,
            Some(e) => exists|k: int|
                {
                    &&& from <= k < wanted.len()
                    &&& fault_at(map, element, #[trigger] wanted[k]) == Some(e)
                    &&& forall|j: int|
                        from <= j < k ==> fault_at(map, element, #[trigger] wanted[j]) is None
                },
        },
    decreases wanted.len() - from,
{
    if from < wanted.len() {
        if fault_at(map, element, wanted[from as int]) is None {
            lemma_first_fault(map, element, wanted, from + 1);
            if let Some(e) = first_fault_from(map, element, wanted, from) {
                let k = choose|k: int|
                    {
                        &&& from + 1 <= k < wanted.len()
                        &&& fault_at(map, element, #[trigger] wanted[k]) == Some(e)
                        &&& forall|j: int|
                            from + 1 <= j < k ==> fault_at(map, element, #[trigger] wanted[j])
                                is None
                    };
                assert(forall|j: int|
                    from <= j < k ==> fault_at(map, element, #[trigger] wanted[j]) is None);
            }
        } else {
            let k = from as int;
            assert(fault_at(map, element, wanted[k]) == first_fault_from(
                map,
                element,
                wanted,
                from,
            ));
        }
    }
}

/// An element that lacks the attribute `wanted[k]`, and whose attributes
/// before that one are in order, fails with `MissingAttribute` naming it.
pub proof fn lemma_missing_attribute_is_named(
    map: Map<Seq<char>, Seq<char>>,
    element: Seq<char>,
    wanted: Seq<Requirement>,
    k: nat,
)
    requires
        k < wanted.len(),
        !map.contains_key(wanted[k as int].name),
        forall|j: int| 0 <= j < k ==> fault_at(map, element, #[trigger] wanted[j]) is None,
    ensures
        first_fault(map, element, wanted) == Some(
            ErrorView::MissingAttribute { element, name: wanted[k as int].name },
        ),
{
    lemma_reaches(map, element, wanted, 0, k);
}

/// A fault that reports a missing attribute names one of the attributes that
/// the element must have, and the element lacks it.
pub proof fn lemma_named_attribute_is_missing(
    map: Map<Seq<char>, Seq<char>>,
    element: Seq<char>,
    wanted: Seq<Requirement>,
)
    ensures
        first_fault(map, element, wanted) matches Some(
            ErrorView::MissingAttribute { element: e, name },
        ) ==> e == element && !map.contains_key(name) && exists|k: int|
            0 <= k < wanted.len() && (#[trigger] wanted[k]).name == name,
{
    lemma_first_fault(map, element, wanted, 0);
}

/// The faults before `k` aside, the first fault from `from` on is the first
/// from `k` on.
proof fn lemma_reaches(
    map: Map<Seq<char>, Seq<char>>,
    element: Seq<char>,
    wanted: Seq<Requirement>,
    from: nat,
    k: nat,
)
    requires
        from <= k <= wanted.len(),
        forall|j: int| from <= j < k ==> fault_at(map, element, #[trigger] wanted[j]) is None,
    ensures
        first_fault_from(map, element, wanted, from) == first_fault_from(map, element, wanted, k),
    decreases k - from,
{
    if from < k {
        assert(fault_at(map, element, wanted[from as int]) is None);
        lemma_reaches(map, element, wanted, from + 1, k);
    }
}

/// What a model must have, in the order in which it is asked for.
pub open spec fn model_requirements() -> Seq<Requirement> {
    seq![
        text("type"@),
        text("id"@),
        text("deleted_state"@),
        text("decoding_confidence"@),
        text("isrelated"@),
        number("extractionId"@, u64::MAX as nat),
    ]
}

/// A model whose attribute list and whose body decode fails exactly where one
/// of the attributes that it must have is at fault, and then with the first
/// fault.
pub proof fn lemma_model_attributes(tag: StartTag, tokens: Seq<Token>, pos: nat)
    requires
        attribute_map(tag.attributes@) is Some,
    ensures
        model_children(tokens, pos, no_children()).0 is Ok ==> failure_of(
            decode_model(tag, tokens, pos).0,
        ) == attribute_fault(tag, "model"@, model_requirements()),
{
    reveal_with_fuel(first_fault_from, 7);
}

/// What a model field must have, in the order in which it is asked for.
pub open spec fn model_field_requirements() -> Seq<Requirement> {
    seq![text("name"@), text("type"@)]
}

/// A model field whose attribute list and whose body decode fails exactly
/// where one of the attributes that it must have is at fault, and then with
/// the first fault. The same holds of the self-closing form, which has no
/// body.
pub proof fn lemma_model_field_attributes(tag: StartTag, tokens: Seq<Token>, pos: nat)
    requires
        attribute_map(tag.attributes@) is Some,
    ensures
        model_field_models(tokens, pos, Seq::empty()).0 is Ok ==> failure_of(
            decode_model_field(tag, tokens, pos).0,
        ) == attribute_fault(tag, "modelField"@, model_field_requirements()),
        failure_of(decode_model_field_empty(tag)) == attribute_fault(
            tag,
            "modelField"@,
            model_field_requirements(),
        ),
{
    reveal_with_fuel(first_fault_from, 3);
}

/// What a multi model field must have, in the order in which it is asked for.
pub open spec fn multi_model_field_requirements() -> Seq<Requirement> {
    seq![text("name"@), text("type"@)]
}

/// A multi model field whose attribute list and whose body decode fails
/// exactly where one of the attributes that it must have is at fault, and then
/// with the first fault. The same holds of the self-closing form, which has no
/// body.
pub proof fn lemma_multi_model_field_attributes(tag: StartTag, tokens: Seq<Token>, pos: nat)
    requires
        attribute_map(tag.attributes@) is Some,
    ensures
        multi_model_field_models(tokens, pos, Seq::empty()).0 is Ok ==> failure_of(
            decode_multi_model_field(tag, tokens, pos).0,
        ) == attribute_fault(tag, "multiModelField"@, multi_model_field_requirements()),
        failure_of(decode_multi_model_field_empty(tag)) == attribute_fault(
            tag,
            "multiModelField"@,
            multi_model_field_requirements(),
        ),
{
    reveal_with_fuel(first_fault_from, 3);
}

/// What a multi field must have, in the order in which it is asked for.
pub open spec fn multi_field_requirements() -> Seq<Requirement> {
    seq![text("name"@), text("type"@)]
}

/// A multi field whose attribute list and whose body decode fails exactly
/// where one of the attributes that it must have is at fault, and then with
/// the first fault. The same holds of the self-closing form, which has no
/// body.
pub proof fn lemma_multi_field_attributes(tag: StartTag, tokens: Seq<Token>, pos: nat)
    requires
        attribute_map(tag.attributes@) is Some,
    ensures
        multi_field_body(tokens, pos).0 is Ok ==> failure_of(
            decode_multi_field(tag, tokens, pos).0,
        ) == attribute_fault(tag, "multiField"@, multi_field_requirements()),
        failure_of(decode_multi_field_empty(tag)) == attribute_fault(
            tag,
            "multiField"@,
            multi_field_requirements(),
        ),
{
    reveal_with_fuel(first_fault_from, 3);
}

/// What a data field must have, in the order in which it is asked for.
pub open spec fn data_field_requirements() -> Seq<Requirement> {
    seq![text("name"@), text("type"@)]
}

/// A data field whose attribute list and whose body decode fails exactly where
/// one of the attributes that it must have is at fault, and then with the
/// first fault. The same holds of the self-closing form, which has no body.
pub proof fn lemma_data_field_attributes(tag: StartTag, tokens: Seq<Token>, pos: nat)
    requires
        attribute_map(tag.attributes@) is Some,
    ensures
        data_field_sources(tokens, pos, Seq::empty()).0 is Ok ==> failure_of(
            decode_data_field(tag, tokens, pos).0,
        ) == attribute_fault(tag, "dataField"@, data_field_requirements()),
        failure_of(decode_data_field_empty(tag)) == attribute_fault(
            tag,
            "dataField"@,
            data_field_requirements(),
        ),
{
    reveal_with_fuel(first_fault_from, 3);
}

/// What a field must have: `name`.
pub open spec fn field_requirements() -> Seq<Requirement> {
    seq![text("name"@)]
}

/// A field whose attribute list and whose body decode fails exactly where one
/// of the attributes that it must have is at fault, and then with the first
/// fault. The same holds of the self-closing form, which has no body.
pub proof fn lemma_field_attributes(tag: StartTag, tokens: Seq<Token>, pos: nat)
    requires
        attribute_map(tag.attributes@) is Some,
    ensures
        field_content(
            tokens,
            pos,
            FieldContent { text: Seq::empty(), value: None },
        ).0 is Ok ==> failure_of(
            decode_field(tag, tokens, pos).0,
        ) == attribute_fault(tag, "field"@, field_requirements()),
        failure_of(decode_field_empty(tag)) == attribute_fault(
            tag,
            "field"@,
            field_requirements(),
        ),
{
    reveal_with_fuel(first_fault_from, 2);
}

/// What a value must have: `type`.
pub open spec fn value_requirements() -> Seq<Requirement> {
    seq![text("type"@)]
}

/// A value whose attribute list and whose body decode fails exactly where one
/// of the attributes that it must have is at fault, and then with the first
/// fault.
pub proof fn lemma_value_attributes(tag: StartTag, tokens: Seq<Token>, pos: nat)
    requires
        attribute_map(tag.attributes@) is Some,
    ensures
        text_content("value"@, tokens, pos, Seq::empty()).0 is Ok ==> failure_of(
            decode_value(tag, tokens, pos).0,
        ) == attribute_fault(tag, "value"@, value_requirements()),
{
    reveal_with_fuel(first_fault_from, 2);
}

/// What a source must have: `length`.
pub open spec fn source_requirements() -> Seq<Requirement> {
    seq![number("length"@, u64::MAX as nat)]
}

/// A source whose attribute list decodes fails exactly where one of the
/// attributes that it must have is at fault, and then with the first fault.
pub proof fn lemma_source_attributes(tag: StartTag)
    requires
        attribute_map(tag.attributes@) is Some,
    ensures
        failure_of(decode_source(tag)) == attribute_fault(tag, "source"@, source_requirements()),
{
    reveal_with_fuel(first_fault_from, 2);
}

/// What an item must have: `name`.
pub open spec fn item_requirements() -> Seq<Requirement> {
    seq![text("name"@)]
}

/// An item whose attribute list and whose body decode fails exactly where one
/// of the attributes that it must have is at fault, and then with the first
/// fault.
pub proof fn lemma_item_attributes(tag: StartTag, tokens: Seq<Token>, pos: nat)
    requires
        attribute_map(tag.attributes@) is Some,
    ensures
        text_content("item"@, tokens, pos, Seq::empty()).0 is Ok ==> failure_of(
            decode_item(tag, tokens, pos).0,
        ) == attribute_fault(tag, "item"@, item_requirements()),
{
    reveal_with_fuel(first_fault_from, 2);
}

/// What a timestamp must have: `name`.
pub open spec fn timestamp_requirements() -> Seq<Requirement> {
    seq![text("name"@)]
}

/// A timestamp whose attribute list and whose body decode fails exactly where
/// one of the attributes that it must have is at fault, and then with the
/// first fault.
pub proof fn lemma_timestamp_attributes(tag: StartTag, tokens: Seq<Token>, pos: nat)
    requires
        attribute_map(tag.attributes@) is Some,
    ensures
        text_content("timestamp"@, tokens, pos, Seq::empty()).0 is Ok ==> failure_of(
            decode_timestamp(tag, tokens, pos).0,
        ) == attribute_fault(tag, "timestamp"@, timestamp_requirements()),
{
    reveal_with_fuel(first_fault_from, 2);
}

/// What a metadata section must have: `section`.
pub open spec fn metadata_requirements() -> Seq<Requirement> {
    seq![text("section"@)]
}

/// A metadata section whose attribute list and whose body decode fails exactly
/// where one of the attributes that it must have is at fault, and then with
/// the first fault.
pub proof fn lemma_metadata_attributes(tag: StartTag, tokens: Seq<Token>, pos: nat)
    requires
        attribute_map(tag.attributes@) is Some,
    ensures
        metadata_items(tokens, pos, Seq::empty()).0 is Ok ==> failure_of(
            decode_metadata(tag, tokens, pos).0,
        ) == attribute_fault(tag, "metadata"@, metadata_requirements()),
{
    reveal_with_fuel(first_fault_from, 2);
}

/// What a model type must have: `type`.
pub open spec fn model_type_requirements() -> Seq<Requirement> {
    seq![text("type"@)]
}

/// A model type whose attribute list and whose body decode fails exactly where
/// one of the attributes that it must have is at fault, and then with the
/// first fault.
pub proof fn lemma_model_type_attributes(tag: StartTag, tokens: Seq<Token>, pos: nat)
    requires
        attribute_map(tag.attributes@) is Some,
    ensures
        model_type_models(tokens, pos, Seq::empty()).0 is Ok ==> failure_of(
            decode_model_type(tag, tokens, pos).0,
        ) == attribute_fault(tag, "modelType"@, model_type_requirements()),
{
    reveal_with_fuel(first_fault_from, 2);
}

/// What a file must have, in the order in which it is asked for.
pub open spec fn file_requirements() -> Seq<Requirement> {
    seq![
        text("fs"@),
        text("fsid"@),
        text("path"@),
        number("size"@, u64::MAX as nat),
        text("id"@),
        number("extractionId"@, u64::MAX as nat),
        text("deleted"@),
        text("embedded"@),
        text("isrelated"@),
    ]
}

/// A file whose attribute list and whose body decode fails exactly where one
/// of the attributes that it must have is at fault, and then with the first
/// fault.
pub proof fn lemma_file_attributes(tag: StartTag, tokens: Seq<Token>, pos: nat)
    requires
        attribute_map(tag.attributes@) is Some,
    ensures
        file_children(
            tokens,
            pos,
            FileChildren { access_info: None, metadata: Seq::empty() },
        ).0 is Ok ==> failure_of(
            decode_file(tag, tokens, pos).0,
        ) == attribute_fault(tag, "file"@, file_requirements()),
{
    reveal_with_fuel(first_fault_from, 10);
}

/// What an image must have, in the order in which it is asked for.
pub open spec fn image_requirements() -> Seq<Requirement> {
    seq![
        text("key"@),
        text("path"@),
        number("size"@, u64::MAX as nat),
        text("type"@),
        text("verify"@),
        number("extractionId"@, u64::MAX as nat),
    ]
}

/// An image whose attribute list decodes fails exactly where one of the
/// attributes that it must have is at fault, and then with the first fault.
pub proof fn lemma_image_attributes(tag: StartTag)
    requires
        attribute_map(tag.attributes@) is Some,
    ensures
        failure_of(decode_image(tag)) == attribute_fault(tag, "image"@, image_requirements()),
{
    reveal_with_fuel(first_fault_from, 7);
}

/// What an extraction must have, in the order in which it is asked for.
pub open spec fn extraction_info_requirements() -> Seq<Requirement> {
    seq![
        number("id"@, u32::MAX as nat),
        text("name"@),
        text("isCustomName"@),
        text("type"@),
        text("deviceName"@),
        text("fullName"@),
        number("index"@, u32::MAX as nat),
        text("IsPartialData"@),
    ]
}

/// An extraction whose attribute list decodes fails exactly where one of the
/// attributes that it must have is at fault, and then with the first fault.
pub proof fn lemma_extraction_info_attributes(tag: StartTag)
    requires
        attribute_map(tag.attributes@) is Some,
    ensures
        failure_of(decode_extraction_info(tag)) == attribute_fault(
            tag,
            "extractionInfo"@,
            extraction_info_requirements(),
        ),
{
    reveal_with_fuel(first_fault_from, 9);
}

/// What a project must have, in the order in which it is asked for.
pub open spec fn project_requirements() -> Seq<Requirement> {
    seq![
        text("id"@),
        text("name"@),
        text("reportVersion"@),
        text("licenseID"@),
        text("containsGarbage"@),
        text("extractionType"@),
        text("NodeCount"@),
        text("ModelCount"@),
        text("xmlns"@),
    ]
}

/// A project whose attribute list and whose body decode fails with the first
/// fault of the attributes that it must have. Where they are in order it
/// is made, unless it lacks its source extractions or its case information.
pub proof fn lemma_project_attributes(tag: StartTag, tokens: Seq<Token>, pos: nat)
    requires
        attribute_map(tag.attributes@) is Some,
    ensures
        project_sections(tokens, pos, no_sections()).0 matches Ok(sections) ==> failure_of(
            decode_project(tag, tokens, pos).0,
        ) == match attribute_fault(tag, "project"@, project_requirements()) {
            Some(e) => Some(e),
            None => if sections.source_extractions is None {
                Some(ErrorView::Other("missing sourceExtractions"@))
            } else if sections.case_information is None {
                Some(ErrorView::Other("missing caseInformation"@))
            } else {
                None
            },
        },
{
    reveal_with_fuel(first_fault_from, 10);
}

} // verus!
