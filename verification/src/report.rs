//! A whole report: the first project of a document.

use crate::error::{ErrorView, ParseError};
use crate::models::project::{decode_project, Project, ProjectView};
use crate::reader::{opening, opens, option_view, tag_of, token_at, EventReader};
use crate::xml::{tokenize, xml_tokens, Token, XmlEvent};
use vstd::prelude::*;

verus! {

/// The first project of the stream from `pos` on, and where the search for
/// it ends. Everything before its opening tag is passed over; a stream that
/// ends without one holds none.
pub open spec fn first_project(tokens: Seq<Token>, pos: nat) -> (
    Result<Option<ProjectView>, ErrorView>,
    nat,
)
    decreases tokens.len() - pos,
{
    let token = token_at(tokens, pos);
    if opens(token, "project"@) {
        let (project, next) = decode_project(tag_of(token), tokens, pos + 1);
        match project {
            Ok(project) => (Ok(Some(project)), next),
            Err(e) => (Err(e), next),
        }
    } else {
        match token {
            None => (Ok(None), pos),
            Some(t) => match t.event {
                XmlEvent::Eof => (Ok(None), pos + 1),
                XmlEvent::Malformed => (Err(ErrorView::Xml), pos + 1),
                _ => first_project(tokens, pos + 1),
            },
        }
    }
}

/// The view of the outcome of a search for a project.
pub open spec fn found(r: Result<Option<Project>, ParseError>) -> Result<
    Option<ProjectView>,
    ErrorView,
> {
    match r {
        Ok(project) => Ok(option_view(project)),
        Err(e) => Err(e@),
    }
}

/// Reads on to the first project and decodes it.
pub fn find_project(reader: &mut EventReader) -> (r: Result<Option<Project>, ParseError>)
    ensures
        final(reader).tokens == old(reader).tokens,
        final(reader).position == first_project(
            old(reader).tokens@,
            old(reader).position as nat,
        ).1,
        found(r) == first_project(old(reader).tokens@, old(reader).position as nat).0,
{
    loop
        invariant
            reader.tokens == old(reader).tokens,
            first_project(reader.tokens@, reader.position as nat) == first_project(
                old(reader).tokens@,
                old(reader).position as nat,
            ),
        decreases reader.tokens@.len() - reader.position,
    {
        let token = reader.read_event();
        if let Some(tag) = opening(token, "project") {
            let project = Project::parse_one(tag, reader)?;
            return Ok(Some(project));
        }
        match token {
            None => {
                return Ok(None);
            },
            Some(t) => match &t.event {
                XmlEvent::Eof => {
                    return Ok(None);
                },
                XmlEvent::Malformed => {
                    return Err(ParseError::xml());
                },
                _ => {},
            },
        }
    }
}

/// Decodes the first project of the document `input`, if it has one.
pub fn parse_report(input: &[u8]) -> (r: Result<Option<Project>, ParseError>)
    ensures
        found(r) == first_project(xml_tokens(input@), 0).0,
{
    let tokens = tokenize(input);
    let mut reader = EventReader::new(tokens.as_slice());
    find_project(&mut reader)
}

} // verus!
