//! What the examiner recorded about the case.

use super::commons::{decode_field, Field, FieldView};
use crate::error::{ErrorView, ParseError};
use crate::reader::{
    after, decodes, judge, lemma_views_push, opening, opens, resume, tag_of, token_at, verdict,
    views, EventReader, Verdict,
};
use crate::xml::Token;
use vstd::prelude::*;

verus! {

/// `<caseInformation>` with its fields.
#[derive(Debug, PartialEq)]
pub struct CaseInformation {
    pub fields: Vec<Field>,
}

/// The mathematical value of [`CaseInformation`].
pub struct CaseInformationView {
    pub fields: Seq<FieldView>,
}

impl View for CaseInformation {
    type V = CaseInformationView;

    open spec fn view(&self) -> CaseInformationView {
        CaseInformationView { fields: views(self.fields@) }
    }
}

/// The fields of the element from `pos` on, after `acc`.
pub open spec fn case_information_fields(tokens: Seq<Token>, pos: nat, acc: Seq<FieldView>) -> (
    Result<Seq<FieldView>, ErrorView>,
    nat,
)
    decreases tokens.len() - pos,
{
    let token = token_at(tokens, pos);
    if opens(token, "field"@) {
        let (child, next) = decode_field(tag_of(token), tokens, pos + 1);
        match child {
            Err(e) => (Err(e), next),
            Ok(c) => case_information_fields(tokens, resume(tokens, pos, next), acc.push(c)),
        }
    } else {
        match verdict("caseInformation"@, token) {
            Verdict::Closed => (Ok(acc), pos + 1),
            Verdict::Ignored => case_information_fields(tokens, pos + 1, acc),
            Verdict::Failed(e) => (Err(e), after(tokens, pos)),
        }
    }
}

/// What the element `caseInformation` decodes to, and where its decoding ends,
/// when the cursor stands at `pos` behind its opening tag.
pub open spec fn decode_case_information(tokens: Seq<Token>, pos: nat) -> (
    Result<CaseInformationView, ErrorView>,
    nat,
) {
    let (fields, next) = case_information_fields(tokens, pos, Seq::empty());
    match fields {
        Err(e) => (Err(e), next),
        Ok(fields) => (Ok(CaseInformationView { fields }), next),
    }
}

impl CaseInformation {
    /// Decodes the element `caseInformation` whose opening tag has just been read.
    pub fn parse_one(reader: &mut EventReader) -> (r: Result<CaseInformation, ParseError>)
        ensures
            decodes(
                *old(reader),
                *final(reader),
                r,
                decode_case_information(old(reader).tokens@, old(reader).position as nat),
            ),
    {
        let mut fields: Vec<Field> = Vec::new();
        proof {
            assert(views(fields@) =~= Seq::empty());
        }
        loop
            invariant
                reader.tokens == old(reader).tokens,
                reader.position >= old(reader).position,
                reader.position <= reader.tokens@.len() || reader.position == old(
                    reader,
                ).position,
                case_information_fields(
                    reader.tokens@,
                    reader.position as nat,
                    views(fields@),
                ) == case_information_fields(
                    old(reader).tokens@,
                    old(reader).position as nat,
                    Seq::empty(),
                ),
            decreases reader.tokens@.len() - reader.position,
        {
            let token = reader.read_event();
            if let Some(tag) = opening(token, "field") {
                let item = Field::parse_one(tag, reader)?;
                proof {
                    lemma_views_push(fields@, item);
                }
                fields.push(item);
                continue ;
            }
            if judge("caseInformation", token)? {
                return Ok(CaseInformation { fields });
            }
        }
    }
}

} // verus!
