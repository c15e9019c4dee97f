//! The failures that a decoder reports.

use crate::text::{concatenate, decimal, decimal_string, push_str};
use vstd::prelude::*;
use vstd::string::StringExecFns;

verus! {

/// The kind of an event of the token stream, without what it holds.
#[derive(Clone, Copy, Debug, PartialEq, Eq, Structural)]
pub enum EventKind {
    Start,
    Empty,
    End,
    Text,
    CData,
    Comment,
    Decl,
    PI,
    DocType,
    Eof,
    Malformed,
}

/// The name of a kind of event.
pub open spec fn kind_name(kind: EventKind) -> Seq<char> {
    match kind {
        EventKind::Start => "Start"@,
        EventKind::Empty => "Empty"@,
        EventKind::End => "End"@,
        EventKind::Text => "Text"@,
        EventKind::CData => "CData"@,
        EventKind::Comment => "Comment"@,
        EventKind::Decl => "Decl"@,
        EventKind::PI => "PI"@,
        EventKind::DocType => "DocType"@,
        EventKind::Eof => "Eof"@,
        EventKind::Malformed => "Malformed"@,
    }
}

impl EventKind {
    /// The name of the kind.
    pub fn name(&self) -> (name: &'static str)
        ensures
            name@ == kind_name(*self),
    {
        match self {
            EventKind::Start => "Start",
            EventKind::Empty => "Empty",
            EventKind::End => "End",
            EventKind::Text => "Text",
            EventKind::CData => "CData",
            EventKind::Comment => "Comment",
            EventKind::Decl => "Decl",
            EventKind::PI => "PI",
            EventKind::DocType => "DocType",
            EventKind::Eof => "Eof",
            EventKind::Malformed => "Malformed",
        }
    }
}

/// Why decoding failed.
#[derive(Clone, Debug, PartialEq, Eq)]
pub enum ErrorKind {
    /// The input could not be read.
    Io(String),
    /// The tokenizer met malformed XML, or a text is not valid UTF-8 or holds
    /// an entity that cannot be resolved.
    Xml,
    /// The attribute list of a tag is malformed, or one of its names or values
    /// cannot be decoded.
    MalformedAttribute,
    /// The element lacks a required attribute.
    MissingAttribute { element: String, name: String },
    /// The attribute is there, but its value is not the number it has to be.
    AttributeParseError { element: String, name: String, raw_value: String },
    /// An event that has no place inside the element. `offset` is the position
    /// in the input just behind the event.
    UnexpectedEvent { element: String, observed: EventKind, offset: u64 },
    /// The input ended before the element was closed.
    PrematureEof { element: String },
    /// A failure described by a message only.
    Other(String),
}

/// The mathematical value of an [`ErrorKind`].
pub enum ErrorView {
    Io(Seq<char>),
    Xml,
    MalformedAttribute,
    MissingAttribute { element: Seq<char>, name: Seq<char> },
    AttributeParseError { element: Seq<char>, name: Seq<char>, raw_value: Seq<char> },
    UnexpectedEvent { element: Seq<char>, observed: EventKind, offset: u64 },
    PrematureEof { element: Seq<char> },
    Other(Seq<char>),
}

impl View for ErrorKind {
    type V = ErrorView;

    open spec fn view(&self) -> ErrorView {
        match *self {
            ErrorKind::Io(message) => ErrorView::Io(message@),
            ErrorKind::Xml => ErrorView::Xml,
            ErrorKind::MalformedAttribute => ErrorView::MalformedAttribute,
            ErrorKind::MissingAttribute { element, name } => ErrorView::MissingAttribute {
                element: element@,
                name: name@,
            },
            ErrorKind::AttributeParseError {
                element,
                name,
                raw_value,
            } => ErrorView::AttributeParseError {
                element: element@,
                name: name@,
                raw_value: raw_value@,
            },
            ErrorKind::UnexpectedEvent { element, observed, offset } => ErrorView::UnexpectedEvent {
                element: element@,
                observed,
                offset,
            },
            ErrorKind::PrematureEof { element } => ErrorView::PrematureEof { element: element@ },
            ErrorKind::Other(message) => ErrorView::Other(message@),
        }
    }
}

/// A decoding failure.
#[derive(Clone, Debug, PartialEq, Eq)]
pub struct ParseError {
    pub kind: ErrorKind,
}

impl View for ParseError {
    type V = ErrorView;

    open spec fn view(&self) -> ErrorView {
        self.kind@
    }
}

/// The view of a decoder's outcome: the view of the entity, or of the failure.
pub open spec fn outcome<T: View>(r: Result<T, ParseError>) -> Result<T::V, ErrorView> {
    match r {
        Ok(value) => Ok(value@),
        Err(e) => Err(e@),
    }
}

/// The message of a failure, as a person reads it. An unexpected event is
/// reported with the element that it stands in, the position in the input
/// behind it and its kind.
pub open spec fn message_of(e: ErrorView) -> Seq<char> {
    match e {
        ErrorView::Io(message) => message,
        ErrorView::Xml => "malformed XML"@,
        ErrorView::MalformedAttribute => "malformed attribute"@,
        ErrorView::MissingAttribute { element, name } => "missing "@ + name,
        ErrorView::AttributeParseError { element, name, raw_value } => "invalid value for "@ + name,
        ErrorView::UnexpectedEvent {
            element,
            observed,
            offset,
        } => "unexpected event when parsing "@ + element + " at position "@ + decimal(
            offset as nat,
        ) + ": "@ + kind_name(observed),
        ErrorView::PrematureEof { element } => "unexpected EOF when parsing "@ + element,
        ErrorView::Other(message) => message,
    }
}

impl ParseError {
    /// A failure that has a message and no other structure.
    pub fn new(message: &str) -> (e: ParseError)
        ensures
            e@ == ErrorView::Other(message@),
    {
        ParseError { kind: ErrorKind::Other(String::from_str(message)) }
    }

    /// The input could not be read; `message` says why.
    pub fn io(message: &str) -> (e: ParseError)
        ensures
            e@ == ErrorView::Io(message@),
    {
        ParseError { kind: ErrorKind::Io(String::from_str(message)) }
    }

    /// The document is no well-formed XML.
    pub fn xml() -> (e: ParseError)
        ensures
            e@ == ErrorView::Xml,
    {
        ParseError { kind: ErrorKind::Xml }
    }

    /// The attribute list of a tag cannot be decoded.
    pub fn malformed_attribute() -> (e: ParseError)
        ensures
            e@ == ErrorView::MalformedAttribute,
    {
        ParseError { kind: ErrorKind::MalformedAttribute }
    }

    /// The element `element` lacks the attribute `name`.
    pub fn missing_attribute(element: &str, name: &str) -> (e: ParseError)
        ensures
            e@ == (ErrorView::MissingAttribute { element: element@, name: name@ }),
    {
        ParseError {
            kind: ErrorKind::MissingAttribute {
                element: String::from_str(element),
                name: String::from_str(name),
            },
        }
    }

    /// The attribute `name` of the element `element` holds `raw_value`, which
    /// is no number.
    pub fn attribute_parse_error(element: &str, name: &str, raw_value: &str) -> (e: ParseError)
        ensures
            e@ == (ErrorView::AttributeParseError {
                element: element@,
                name: name@,
                raw_value: raw_value@,
            }),
    {
        ParseError {
            kind: ErrorKind::AttributeParseError {
                element: String::from_str(element),
                name: String::from_str(name),
                raw_value: String::from_str(raw_value),
            },
        }
    }

    /// An event of the kind `observed`, which ends at `offset`, has no place
    /// in the element `element`.
    pub fn unexpected_event(element: &str, observed: EventKind, offset: u64) -> (e: ParseError)
        ensures
            e@ == (ErrorView::UnexpectedEvent { element: element@, observed, offset }),
    {
        ParseError {
            kind: ErrorKind::UnexpectedEvent {
                element: String::from_str(element),
                observed,
                offset,
            },
        }
    }

    /// The input ended inside the element `element`.
    pub fn premature_eof(element: &str) -> (e: ParseError)
        ensures
            e@ == (ErrorView::PrematureEof { element: element@ }),
    {
        ParseError { kind: ErrorKind::PrematureEof { element: String::from_str(element) } }
    }

    /// The message of the failure.
    pub fn message(&self) -> (text: String)
        ensures
            text@ == message_of(self@),
    {
        match &self.kind {
            ErrorKind::Io(message) => message.clone(),
            ErrorKind::Xml => String::from_str("malformed XML"),
            ErrorKind::MalformedAttribute => String::from_str("malformed attribute"),
            ErrorKind::MissingAttribute { element, name } => concatenate("missing ", name.as_str()),
            ErrorKind::AttributeParseError { element, name, raw_value } => concatenate(
                "invalid value for ",
                name.as_str(),
            ),
            ErrorKind::UnexpectedEvent { element, observed, offset } => {
                let mut text = concatenate("unexpected event when parsing ", element.as_str());
                push_str(&mut text, " at position ");
                push_str(&mut text, decimal_string(*offset).as_str());
                push_str(&mut text, ": ");
                push_str(&mut text, observed.name());
                text
            },
            ErrorKind::PrematureEof { element } => concatenate(
                "unexpected EOF when parsing ",
                element.as_str(),
            ),
            ErrorKind::Other(message) => message.clone(),
        }
    }

    /// The failure as one line of text: `ParseError: ` and the message.
    pub fn to_string(&self) -> (text: String)
        ensures
            text@ == "ParseError: "@ + message_of(self@),
    {
        let message = self.message();
        concatenate("ParseError: ", message.as_str())
    }
}

} // verus!
