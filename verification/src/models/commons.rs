//! The leaves that many elements share: a field, a metadata item and a typed
//! value.

use crate::error::{ErrorView, EventKind, ParseError};
use crate::reader::{
    cdata_of, decode_cdata, decode_text, decodes, empties, name_is, named, opening, opens,
    option_view, resume, self_closing, tag_of, text_of, token_at, EventReader,
};
use crate::text::{push_str, strip_whitespace, text_view, without_whitespace};
use crate::utils::{
    attribute_map, attributes_to_map, optional, read_text_of, required, text_content, AttrMap,
};
use crate::xml::{kind_of, StartTag, Token, XmlEvent};
use vstd::prelude::*;

verus! {

/// A typed value: `<value type="...">text</value>`.
#[derive(Debug, PartialEq)]
pub struct Value {
    pub dtype: String,
    pub text: String,
}

/// The mathematical value of [`Value`].
pub struct ValueView {
    pub dtype: Seq<char>,
    pub text: Seq<char>,
}

impl View for Value {
    type V = ValueView;

    open spec fn view(&self) -> ValueView {
        ValueView { dtype: self.dtype@, text: self.text@ }
    }
}

/// A named scalar of a model or of the case information. It holds its text,
/// stripped of all white space, or one nested value.
#[derive(Debug, PartialEq)]
pub struct Field {
    pub name: String,
    pub is_system: Option<String>,
    pub is_required: Option<String>,
    pub field_type: Option<String>,
    pub multiple_lines: Option<String>,
    pub dtype: Option<String>,
    pub text: String,
    pub value: Option<Value>,
}

/// The mathematical value of [`Field`].
pub struct FieldView {
    pub name: Seq<char>,
    pub is_system: Option<Seq<char>>,
    pub is_required: Option<Seq<char>>,
    pub field_type: Option<Seq<char>>,
    pub multiple_lines: Option<Seq<char>>,
    pub dtype: Option<Seq<char>>,
    pub text: Seq<char>,
    pub value: Option<ValueView>,
}

impl View for Field {
    type V = FieldView;

    open spec fn view(&self) -> FieldView {
        FieldView {
            name: self.name@,
            is_system: text_view(self.is_system),
            is_required: text_view(self.is_required),
            field_type: text_view(self.field_type),
            multiple_lines: text_view(self.multiple_lines),
            dtype: text_view(self.dtype),
            text: self.text@,
            value: option_view(self.value),
        }
    }
}

/// An item of a metadata section.
#[derive(Debug, PartialEq)]
pub struct Item {
    pub id: Option<String>,
    pub name: String,
    pub group: Option<String>,
    pub source_extraction: Option<String>,
    pub text: String,
}

/// The mathematical value of [`Item`].
pub struct ItemView {
    pub id: Option<Seq<char>>,
    pub name: Seq<char>,
    pub group: Option<Seq<char>>,
    pub source_extraction: Option<Seq<char>>,
    pub text: Seq<char>,
}

impl View for Item {
    type V = ItemView;

    open spec fn view(&self) -> ItemView {
        ItemView {
            id: text_view(self.id),
            name: self.name@,
            group: text_view(self.group),
            source_extraction: text_view(self.source_extraction),
            text: self.text@,
        }
    }
}

/// The value that the attributes `map` and the text `text` make.
pub open spec fn value_from(map: Map<Seq<char>, Seq<char>>, text: Seq<char>) -> Result<
    ValueView,
    ErrorView,
> {
    match required(map, "value"@, "type"@) {
        Ok(dtype) => Ok(ValueView { dtype, text }),
        Err(e) => Err(e),
    }
}

/// The value that the tag `tag` opens, and where its decoding ends, when the
/// cursor stands at `pos` behind the tag.
pub open spec fn decode_value(tag: StartTag, tokens: Seq<Token>, pos: nat) -> (
    Result<ValueView, ErrorView>,
    nat,
) {
    match attribute_map(tag.attributes@) {
        None => (Err(ErrorView::MalformedAttribute), pos),
        Some(map) => {
            let (text, next) = text_content("value"@, tokens, pos, Seq::empty());
            match text {
                Err(e) => (Err(e), next),
                Ok(text) => (value_from(map, text), next),
            }
        },
    }
}

/// The item that the attributes `map` and the text `text` make.
pub open spec fn item_from(map: Map<Seq<char>, Seq<char>>, text: Seq<char>) -> Result<
    ItemView,
    ErrorView,
> {
    match required(map, "item"@, "name"@) {
        Ok(name) => Ok(
            ItemView {
                id: optional(map, "id"@),
                name,
                group: optional(map, "group"@),
                source_extraction: optional(map, "sourceExtraction"@),
                text,
            },
        ),
        Err(e) => Err(e),
    }
}

/// The item that the tag `tag` opens, and where its decoding ends.
pub open spec fn decode_item(tag: StartTag, tokens: Seq<Token>, pos: nat) -> (
    Result<ItemView, ErrorView>,
    nat,
) {
    match attribute_map(tag.attributes@) {
        None => (Err(ErrorView::MalformedAttribute), pos),
        Some(map) => {
            let (text, next) = text_content("item"@, tokens, pos, Seq::empty());
            match text {
                Err(e) => (Err(e), next),
                Ok(text) => (item_from(map, text), next),
            }
        },
    }
}

/// What the body of a field has gathered: its text, not yet stripped, and the
/// last nested value.
pub struct FieldContent {
    pub text: Seq<char>,
    pub value: Option<ValueView>,
}

/// The content of a field from `pos` on, after `acc`. An `<empty/>` marker
/// adds nothing, a nested value replaces the one before it, character data
/// and CDATA add to the text, and the end tag of the field ends it.
pub open spec fn field_content(tokens: Seq<Token>, pos: nat, acc: FieldContent) -> (
    Result<FieldContent, ErrorView>,
    nat,
)
    decreases tokens.len() - pos,
{
    let token = token_at(tokens, pos);
    if empties(token, "empty"@) {
        field_content(tokens, pos + 1, acc)
    } else if opens(token, "value"@) {
        let (value, next) = decode_value(tag_of(token), tokens, pos + 1);
        match value {
            Err(e) => (Err(e), next),
            Ok(v) => field_content(
                tokens,
                resume(tokens, pos, next),
                FieldContent { text: acc.text, value: Some(v) },
            ),
        }
    } else {
        match token {
            None => (Err(ErrorView::PrematureEof { element: "field"@ }), pos),
            Some(t) => match t.event {
                XmlEvent::Text(raw) => match text_of(raw@) {
                    Some(s) => field_content(
                        tokens,
                        pos + 1,
                        FieldContent { text: acc.text + s, value: acc.value },
                    ),
                    None => (Err(ErrorView::Xml), pos + 1),
                },
                XmlEvent::CData(raw) => match cdata_of(raw@) {
                    Some(s) => field_content(
                        tokens,
                        pos + 1,
                        FieldContent { text: acc.text + s, value: acc.value },
                    ),
                    None => (Err(ErrorView::Xml), pos + 1),
                },
                XmlEvent::Eof => (Err(ErrorView::PrematureEof { element: "field"@ }), pos + 1),
                XmlEvent::Malformed => (Err(ErrorView::Xml), pos + 1),
                XmlEvent::End(name) => if named(name@, "field"@) {
                    (Ok(acc), pos + 1)
                } else {
                    (
                        Err(
                            ErrorView::UnexpectedEvent {
                                element: "field"@,
                                observed: EventKind::End,
                                offset: t.offset,
                            },
                        ),
                        pos + 1,
                    )
                },
                _ => (
                    Err(
                        ErrorView::UnexpectedEvent {
                            element: "field"@,
                            observed: kind_of(t.event),
                            offset: t.offset,
                        },
                    ),
                    pos + 1,
                ),
            },
        }
    }
}

/// The field that the attributes `map` and the content `content` make. Its
/// text is the gathered text without any white space.
pub open spec fn field_from(map: Map<Seq<char>, Seq<char>>, content: FieldContent) -> Result<
    FieldView,
    ErrorView,
> {
    match required(map, "field"@, "name"@) {
        Ok(name) => Ok(
            FieldView {
                name,
                is_system: optional(map, "isSystem"@),
                is_required: optional(map, "isRequired"@),
                field_type: optional(map, "fieldType"@),
                multiple_lines: optional(map, "multipleLines"@),
                dtype: optional(map, "type"@),
                text: without_whitespace(content.text),
                value: content.value,
            },
        ),
        Err(e) => Err(e),
    }
}

/// The field that the tag `tag` opens, and where its decoding ends.
pub open spec fn decode_field(tag: StartTag, tokens: Seq<Token>, pos: nat) -> (
    Result<FieldView, ErrorView>,
    nat,
) {
    match attribute_map(tag.attributes@) {
        None => (Err(ErrorView::MalformedAttribute), pos),
        Some(map) => {
            let (content, next) = field_content(
                tokens,
                pos,
                FieldContent { text: Seq::empty(), value: None },
            );
            match content {
                Err(e) => (Err(e), next),
                Ok(content) => (field_from(map, content), next),
            }
        },
    }
}

/// The field that a self-closing tag `tag` stands for: one without content.
pub open spec fn decode_field_empty(tag: StartTag) -> Result<FieldView, ErrorView> {
    match attribute_map(tag.attributes@) {
        None => Err(ErrorView::MalformedAttribute),
        Some(map) => field_from(map, FieldContent { text: Seq::empty(), value: None }),
    }
}

impl Value {
    /// Makes a value of its attributes and of what its body held.
    fn assemble(map: &AttrMap, text: String) -> (r: Result<Value, ParseError>)
        ensures
            crate::error::outcome(r) == value_from(map@, text@),
    {
        let dtype = map.require("value", "type")?;
        Ok(Value { dtype, text })
    }

    /// Decodes the value whose opening tag `e` has just been read.
    pub fn parse_one(e: &StartTag, reader: &mut EventReader) -> (r: Result<Value, ParseError>)
        ensures
            decodes(
                *old(reader),
                *final(reader),
                r,
                decode_value(*e, old(reader).tokens@, old(reader).position as nat),
            ),
    {
        let map = attributes_to_map(e)?;
        let text = read_text_of("value", reader)?;
        Value::assemble(&map, text)
    }
}

impl Item {
    /// Makes an item of its attributes and of what its body held.
    fn assemble(map: &AttrMap, text: String) -> (r: Result<Item, ParseError>)
        ensures
            crate::error::outcome(r) == item_from(map@, text@),
    {
        let name = map.require("item", "name")?;
        Ok(
            Item {
                id: map.find("id"),
                name,
                group: map.find("group"),
                source_extraction: map.find("sourceExtraction"),
                text,
            },
        )
    }

    /// Decodes the item whose opening tag `e` has just been read.
    pub fn parse_one(e: &StartTag, reader: &mut EventReader) -> (r: Result<Item, ParseError>)
        ensures
            decodes(
                *old(reader),
                *final(reader),
                r,
                decode_item(*e, old(reader).tokens@, old(reader).position as nat),
            ),
    {
        let map = attributes_to_map(e)?;
        let text = read_text_of("item", reader)?;
        Item::assemble(&map, text)
    }
}

impl Field {
    /// Makes a field of its attributes and of what its body held.
    fn assemble(map: &AttrMap, text: String, value: Option<Value>) -> (r: Result<
        Field,
        ParseError,
    >)
        ensures
            crate::error::outcome(r) == field_from(
                map@,
                FieldContent { text: text@, value: option_view(value) },
            ),
    {
        let name = map.require("field", "name")?;
        Ok(
            Field {
                name,
                is_system: map.find("isSystem"),
                is_required: map.find("isRequired"),
                field_type: map.find("fieldType"),
                multiple_lines: map.find("multipleLines"),
                dtype: map.find("type"),
                text: strip_whitespace(text.as_str()),
                value,
            },
        )
    }

    /// Decodes the field whose opening tag `e` has just been read.
    pub fn parse_one(e: &StartTag, reader: &mut EventReader) -> (r: Result<Field, ParseError>)
        ensures
            decodes(
                *old(reader),
                *final(reader),
                r,
                decode_field(*e, old(reader).tokens@, old(reader).position as nat),
            ),
    {
        let map = attributes_to_map(e)?;
        let mut text = String::new();
        let mut value: Option<Value> = None;
        loop
            invariant
                reader.tokens == old(reader).tokens,
                reader.position >= old(reader).position,
                reader.position <= reader.tokens@.len() || reader.position == old(
                    reader,
                ).position,
                field_content(
                    reader.tokens@,
                    reader.position as nat,
                    FieldContent { text: text@, value: option_view(value) },
                ) == field_content(
                    old(reader).tokens@,
                    old(reader).position as nat,
                    FieldContent { text: Seq::empty(), value: None },
                ),
                attribute_map(e.attributes@) == Some(map@),
            decreases reader.tokens@.len() - reader.position,
        {
            let token = reader.read_event();
            if self_closing(token, "empty").is_some() {
                continue ;
            }
            if let Some(tag) = opening(token, "value") {
                let v = Value::parse_one(tag, reader)?;
                value = Some(v);
                continue ;
            }
            match token {
                None => {
                    return Err(ParseError::premature_eof("field"));
                },
                Some(t) => match &t.event {
                    XmlEvent::Text(raw) => match decode_text(raw.as_slice()) {
                        Some(s) => {
                            push_str(&mut text, s.as_str());
                        },
                        None => {
                            return Err(ParseError::xml());
                        },
                    },
                    XmlEvent::CData(raw) => match decode_cdata(raw.as_slice()) {
                        Some(s) => {
                            push_str(&mut text, s.as_str());
                        },
                        None => {
                            return Err(ParseError::xml());
                        },
                    },
                    XmlEvent::Eof => {
                        return Err(ParseError::premature_eof("field"));
                    },
                    XmlEvent::Malformed => {
                        return Err(ParseError::xml());
                    },
                    XmlEvent::End(name) => {
                        if name_is(name, "field") {
                            return Field::assemble(&map, text, value);
                        }
                        return Err(
                            ParseError::unexpected_event("field", EventKind::End, t.offset),
                        );
                    },
                    other => {
                        return Err(ParseError::unexpected_event("field", other.kind(), t.offset));
                    },
                },
            }
        }
    }

    /// Decodes the field that the self-closing tag `e` stands for.
    pub fn parse_one_empty(e: &StartTag) -> (r: Result<Field, ParseError>)
        ensures
            crate::error::outcome(r) == decode_field_empty(*e),
    {
        let map = attributes_to_map(e)?;
        Field::assemble(&map, String::new(), None)
    }
}

} // verus!
