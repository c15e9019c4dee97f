//! The two primitives under every element decoder: the projection of a tag's
//! attribute list into a map, and the accumulation of an element's text.

use crate::error::{outcome, ErrorView, ParseError};
use crate::reader::{cdata_of, decode_cdata, decode_text, decodes, text_of, token_at, EventReader};
use crate::text::{
    decode, parse_u32, parse_u64, parse_unsigned, push_str, str_eq, text_view, utf8_text,
};
use crate::xml::{kind_of, RawAttribute, StartTag, Token, XmlEvent};
use vstd::prelude::*;

verus! {

/// The attributes of a tag, by name. A name that is inserted twice keeps the
/// later value.
#[derive(Debug)]
pub struct AttrMap {
    pub entries: Vec<(String, String)>,
}

/// The mapping that a list of entries stands for, later entries over earlier.
pub open spec fn entries_map(entries: Seq<(String, String)>) -> Map<Seq<char>, Seq<char>>
    decreases entries.len(),
{
    if entries.len() == 0 {
        Map::empty()
    } else {
        entries_map(entries.drop_last()).insert(entries.last().0@, entries.last().1@)
    }
}

impl View for AttrMap {
    type V = Map<Seq<char>, Seq<char>>;

    open spec fn view(&self) -> Map<Seq<char>, Seq<char>> {
        entries_map(self.entries@)
    }
}

/// The name and the value that one item of an attribute list decodes to.
pub open spec fn attribute_entry(a: RawAttribute) -> Option<(Seq<char>, Seq<char>)> {
    match a {
        RawAttribute::Malformed => None,
        RawAttribute::Pair { key, value } => match (utf8_text(key@), text_of(value@)) {
            (Some(k), Some(v)) => Some((k, v)),
            _ => None,
        },
    }
}

/// The mapping that an attribute list decodes to, or `None` where one of its
/// items is malformed or cannot be decoded.
pub open spec fn attribute_map(attributes: Seq<RawAttribute>) -> Option<
    Map<Seq<char>, Seq<char>>,
>
    decreases attributes.len(),
{
    if attributes.len() == 0 {
        Some(Map::empty())
    } else {
        match (attribute_map(attributes.drop_last()), attribute_entry(attributes.last())) {
            (Some(m), Some((k, v))) => Some(m.insert(k, v)),
            _ => None,
        }
    }
}

/// The attribute `name` of an element `element`, which must have it.
pub open spec fn required(
    map: Map<Seq<char>, Seq<char>>,
    element: Seq<char>,
    name: Seq<char>,
) -> Result<Seq<char>, ErrorView> {
    if map.contains_key(name) {
        Ok(map[name])
    } else {
        Err(ErrorView::MissingAttribute { element, name })
    }
}

/// The attribute `name`, if the element has it.
pub open spec fn optional(map: Map<Seq<char>, Seq<char>>, name: Seq<char>) -> Option<Seq<char>> {
    if map.contains_key(name) {
        Some(map[name])
    } else {
        None
    }
}

/// The attribute `name` of an element `element`, which must have it and
/// whose value must be a decimal number of at most `max`.
pub open spec fn required_number(
    map: Map<Seq<char>, Seq<char>>,
    element: Seq<char>,
    name: Seq<char>,
    max: nat,
) -> Result<nat, ErrorView> {
    if !map.contains_key(name) {
        Err(ErrorView::MissingAttribute { element, name })
    } else {
        match parse_unsigned(map[name], max) {
            Some(n) => Ok(n),
            None => Err(ErrorView::AttributeParseError { element, name, raw_value: map[name] }),
        }
    }
}

impl AttrMap {
    /// The empty map.
    pub fn new() -> (map: AttrMap)
        ensures
            map@ == Map::<Seq<char>, Seq<char>>::empty(),
    {
        AttrMap { entries: Vec::new() }
    }

    /// Sets the attribute `key` to `value`.
    pub fn insert(&mut self, key: String, value: String)
        ensures
            final(self)@ == old(self)@.insert(key@, value@),
    {
        self.entries.push((key, value));
        proof {
            assert(self.entries@.drop_last() =~= old(self).entries@);
        }
    }

    /// The value of the attribute `name`, if there is one.
    pub fn get(&self, name: &str) -> (value: Option<&String>)
        ensures
            match value {
                Some(v) => self@.contains_key(name@) && v@ == self@[name@],
                None => !self@.contains_key(name@),
            },
    {
        let mut i: usize = self.entries.len();
        proof {
            assert(self.entries@.take(i as int) =~= self.entries@);
        }
        while i > 0
            invariant
                i <= self.entries.len(),
                self@.contains_key(name@) == entries_map(
                    self.entries@.take(i as int),
                ).contains_key(name@),
                self@.contains_key(name@) ==> self@[name@] == entries_map(
                    self.entries@.take(i as int),
                )[name@],
            decreases i,
        {
            proof {
                assert(self.entries@.take(i as int).drop_last() =~= self.entries@.take(i - 1));
            }
            i -= 1;
            if str_eq(self.entries[i].0.as_str(), name) {
                return Some(&self.entries[i].1);
            }
        }
        None
    }

    /// The names in the map, each once for every time it was inserted.
    pub fn keys(&self) -> (keys: Vec<String>)
        ensures
            keys@.len() == self.entries@.len(),
            forall|i: int| 0 <= i < keys@.len() ==> (#[trigger] keys@[i])@ == self.entries@[i].0@,
    {
        let mut keys: Vec<String> = Vec::new();
        let mut i: usize = 0;
        while i < self.entries.len()
            invariant
                i <= self.entries.len(),
                keys@.len() == i,
                forall|j: int| 0 <= j < i ==> (#[trigger] keys@[j])@ == self.entries@[j].0@,
            decreases self.entries.len() - i,
        {
            keys.push(self.entries[i].0.clone());
            i += 1;
        }
        keys
    }

    /// The attribute `name`, which the element `element` must have.
    pub fn require(&self, element: &str, name: &str) -> (r: Result<String, ParseError>)
        ensures
            outcome(r) == required(self@, element@, name@),
    {
        match self.get(name) {
            Some(v) => Ok(v.clone()),
            None => Err(ParseError::missing_attribute(element, name)),
        }
    }

    /// The attribute `name`, if the element has it.
    pub fn find(&self, name: &str) -> (r: Option<String>)
        ensures
            text_view(r) == optional(self@, name@),
    {
        match self.get(name) {
            Some(v) => Some(v.clone()),
            None => None,
        }
    }

    /// The attribute `name` as a number of at most 64 bits.
    pub fn require_u64(&self, element: &str, name: &str) -> (r: Result<u64, ParseError>)
        ensures
            match r {
                Ok(n) => required_number(self@, element@, name@, u64::MAX as nat) == Ok::<
                    nat,
                    ErrorView,
                >(n as nat),
                Err(e) => required_number(self@, element@, name@, u64::MAX as nat) == Err::<
                    nat,
                    ErrorView,
                >(e@),
            },
    {
        match self.get(name) {
            None => Err(ParseError::missing_attribute(element, name)),
            Some(v) => match parse_u64(v.as_str()) {
                Some(n) => Ok(n),
                None => Err(ParseError::attribute_parse_error(element, name, v.as_str())),
            },
        }
    }

    /// The attribute `name` as a number of at most 32 bits.
    pub fn require_u32(&self, element: &str, name: &str) -> (r: Result<u32, ParseError>)
        ensures
            match r {
                Ok(n) => required_number(self@, element@, name@, u32::MAX as nat) == Ok::<
                    nat,
                    ErrorView,
                >(n as nat),
                Err(e) => required_number(self@, element@, name@, u32::MAX as nat) == Err::<
                    nat,
                    ErrorView,
                >(e@),
            },
    {
        match self.get(name) {
            None => Err(ParseError::missing_attribute(element, name)),
            Some(v) => match parse_u32(v.as_str()) {
                Some(n) => Ok(n),
                None => Err(ParseError::attribute_parse_error(element, name, v.as_str())),
            },
        }
    }
}

/// Projects the attribute list of `e` into a map from name to unescaped
/// value. Fails with `MalformedAttribute` where an item of the list is
/// malformed, a name is not UTF-8, or a value cannot be decoded.
pub fn attributes_to_map(e: &StartTag) -> (r: Result<AttrMap, ParseError>)
    ensures
        match r {
            Ok(map) => attribute_map(e.attributes@) == Some(map@),
            Err(err) => {
                &&& attribute_map(e.attributes@) is None
                &&& err@ == ErrorView::MalformedAttribute
            },
        },
{
    let mut map = AttrMap::new();
    let mut i: usize = 0;
    while i < e.attributes.len()
        invariant
            i <= e.attributes.len(),
            attribute_map(e.attributes@.take(i as int)) == Some(map@),
        decreases e.attributes.len() - i,
    {
        proof {
            assert(e.attributes@.take(i + 1).drop_last() =~= e.attributes@.take(i as int));
        }
        let entry = match &e.attributes[i] {
            RawAttribute::Malformed => None,
            RawAttribute::Pair { key, value } => match decode(key.as_slice()) {
                None => None,
                Some(k) => match decode_text(value.as_slice()) {
                    None => None,
                    Some(v) => Some((k, v)),
                },
            },
        };
        match entry {
            None => {
                proof {
                    lemma_attribute_map_prefix(e.attributes@, i + 1);
                }
                return Err(ParseError::malformed_attribute());
            },
            Some((k, v)) => {
                map.insert(k, v);
            },
        }
        i += 1;
    }
    proof {
        assert(e.attributes@.take(e.attributes@.len() as int) =~= e.attributes@);
    }
    Ok(map)
}

/// A list with a prefix that does not decode does not decode either.
pub proof fn lemma_attribute_map_prefix(attributes: Seq<RawAttribute>, n: int)
    requires
        0 <= n <= attributes.len(),
        attribute_map(attributes.take(n)) is None,
    ensures
        attribute_map(attributes) is None,
    decreases attributes.len() - n,
{
    if n < attributes.len() {
        assert(attributes.drop_last().take(n) =~= attributes.take(n));
        lemma_attribute_map_prefix(attributes.drop_last(), n);
    } else {
        assert(attributes.take(n) =~= attributes);
    }
}

/// The text of the element `element` from `pos` on, after `acc`: character
/// data is unescaped and appended as it stands, CDATA is trimmed and
/// appended, and the first end tag ends the text.
pub open spec fn text_content(
    element: Seq<char>,
    tokens: Seq<Token>,
    pos: nat,
    acc: Seq<char>,
) -> (Result<Seq<char>, ErrorView>, nat)
    decreases tokens.len() - pos,
{
    match token_at(tokens, pos) {
        None => (Err(ErrorView::PrematureEof { element }), pos),
        Some(t) => match t.event {
            XmlEvent::Text(raw) => match text_of(raw@) {
                Some(s) => text_content(element, tokens, pos + 1, acc + s),
                None => (Err(ErrorView::Xml), pos + 1),
            },
            XmlEvent::CData(raw) => match cdata_of(raw@) {
                Some(s) => text_content(element, tokens, pos + 1, acc + s),
                None => (Err(ErrorView::Xml), pos + 1),
            },
            XmlEvent::End(_) => (Ok(acc), pos + 1),
            XmlEvent::Eof => (Err(ErrorView::PrematureEof { element }), pos + 1),
            XmlEvent::Malformed => (Err(ErrorView::Xml), pos + 1),
            _ => (
                Err(
                    ErrorView::UnexpectedEvent {
                        element,
                        observed: kind_of(t.event),
                        offset: t.offset,
                    },
                ),
                pos + 1,
            ),
        },
    }
}

/// Reads the text of the element `element`, whose opening tag has just been
/// read, up to and including its end tag.
pub fn read_text_of(element: &str, reader: &mut EventReader) -> (r: Result<String, ParseError>)
    ensures
        decodes(
            *old(reader),
            *final(reader),
            r,
            text_content(element@, old(reader).tokens@, old(reader).position as nat, Seq::empty()),
        ),
{
    let mut text = String::new();
    loop
        invariant
            reader.tokens == old(reader).tokens,
            reader.position >= old(reader).position,
            reader.position <= reader.tokens@.len() || reader.position == old(reader).position,
            text_content(element@, reader.tokens@, reader.position as nat, text@) == text_content(
                element@,
                old(reader).tokens@,
                old(reader).position as nat,
                Seq::empty(),
            ),
        decreases reader.tokens@.len() - reader.position,
    {
        match reader.read_event() {
            None => {
                return Err(ParseError::premature_eof(element));
            },
            Some(t) => match &t.event {
                XmlEvent::Text(raw) => match decode_text(raw.as_slice()) {
                    Some(s) => {
                        push_str(&mut text, s.as_str());
                    },
                    None => {
                        return Err(ParseError::xml());
                    },
                },
                XmlEvent::CData(raw) => match decode_cdata(raw.as_slice()) {
                    Some(s) => {
                        push_str(&mut text, s.as_str());
                    },
                    None => {
                        return Err(ParseError::xml());
                    },
                },
                XmlEvent::End(_) => {
                    return Ok(text);
                },
                XmlEvent::Eof => {
                    return Err(ParseError::premature_eof(element));
                },
                XmlEvent::Malformed => {
                    return Err(ParseError::xml());
                },
                other => {
                    return Err(ParseError::unexpected_event(element, other.kind(), t.offset));
                },
            },
        }
    }
}

/// Reads text up to and including the next end tag. A failure names the
/// element `text`.
pub fn read_text(reader: &mut EventReader) -> (r: Result<String, ParseError>)
    ensures
        decodes(
            *old(reader),
            *final(reader),
            r,
            text_content("text"@, old(reader).tokens@, old(reader).position as nat, Seq::empty()),
        ),
{
    read_text_of("text", reader)
}

} // verus!
