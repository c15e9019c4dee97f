//! A reference to a span of raw data, known by its length.

use crate::error::{outcome, ErrorView, ParseError};
use crate::utils::{attribute_map, attributes_to_map, required_number};
use crate::xml::StartTag;
use vstd::prelude::*;

verus! {

/// `<source length="..."/>`
#[derive(Debug, PartialEq)]
pub struct Source {
    pub length: u64,
}

/// The mathematical value of [`Source`].
pub struct SourceView {
    pub length: u64,
}

impl View for Source {
    type V = SourceView;

    open spec fn view(&self) -> SourceView {
        SourceView { length: self.length }
    }
}

/// The source that the self-closing tag `tag` stands for.
pub open spec fn decode_source(tag: StartTag) -> Result<SourceView, ErrorView> {
    match attribute_map(tag.attributes@) {
        None => Err(ErrorView::MalformedAttribute),
        Some(map) => match required_number(map, "source"@, "length"@, u64::MAX as nat) {
            Ok(n) => Ok(SourceView { length: n as u64 }),
            Err(e) => Err(e),
        },
    }
}

impl Source {
    /// Decodes the source that the self-closing tag `e` stands for.
    pub fn parse_one(e: &StartTag) -> (r: Result<Source, ParseError>)
        ensures
            outcome(r) == decode_source(*e),
    {
        let map = attributes_to_map(e)?;
        let length = map.require_u64("source", "length")?;
        Ok(Source { length })
    }
}

} // verus!
