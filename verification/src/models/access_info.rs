//! The access times of a file.

use super::timestamp::{decode_timestamp, Timestamp, TimestampView};
use crate::error::{ErrorView, ParseError};
use crate::reader::{
    after, decodes, judge, lemma_views_push, opening, opens, resume, tag_of, token_at, verdict,
    views, EventReader, Verdict,
};
use crate::xml::Token;
use vstd::prelude::*;

verus! {

/// `<accessInfo>` with its timestamps.
#[derive(Debug, PartialEq)]
pub struct AccessInfo {
    pub timestamps: Vec<Timestamp>,
}

/// The mathematical value of [`AccessInfo`].
pub struct AccessInfoView {
    pub timestamps: Seq<TimestampView>,
}

impl View for AccessInfo {
    type V = AccessInfoView;

    open spec fn view(&self) -> AccessInfoView {
        AccessInfoView { timestamps: views(self.timestamps@) }
    }
}

/// The timestamps of the element from `pos` on, after `acc`.
pub open spec fn access_info_timestamps(tokens: Seq<Token>, pos: nat, acc: Seq<TimestampView>) -> (
    Result<Seq<TimestampView>, ErrorView>,
    nat,
)
    decreases tokens.len() - pos,
{
    let token = token_at(tokens, pos);
    if opens(token, "timestamp"@) {
        let (child, next) = decode_timestamp(tag_of(token), tokens, pos + 1);
        match child {
            Err(e) => (Err(e), next),
            Ok(c) => access_info_timestamps(tokens, resume(tokens, pos, next), acc.push(c)),
        }
    } else {
        match verdict("accessInfo"@, token) {
            Verdict::Closed => (Ok(acc), pos + 1),
            Verdict::Ignored => access_info_timestamps(tokens, pos + 1, acc),
            Verdict::Failed(e) => (Err(e), after(tokens, pos)),
        }
    }
}

/// What the element `accessInfo` decodes to, and where its decoding ends,
/// when the cursor stands at `pos` behind its opening tag.
pub open spec fn decode_access_info(tokens: Seq<Token>, pos: nat) -> (
    Result<AccessInfoView, ErrorView>,
    nat,
) {
    let (timestamps, next) = access_info_timestamps(tokens, pos, Seq::empty());
    match timestamps {
        Err(e) => (Err(e), next),
        Ok(timestamps) => (Ok(AccessInfoView { timestamps }), next),
    }
}

impl AccessInfo {
    /// Decodes the element `accessInfo` whose opening tag has just been read.
    pub fn parse_one(reader: &mut EventReader) -> (r: Result<AccessInfo, ParseError>)
        ensures
            decodes(
                *old(reader),
                *final(reader),
                r,
                decode_access_info(old(reader).tokens@, old(reader).position as nat),
            ),
    {
        let mut timestamps: Vec<Timestamp> = Vec::new();
        proof {
            assert(views(timestamps@) =~= Seq::empty());
        }
        loop
            invariant
                reader.tokens == old(reader).tokens,
                reader.position >= old(reader).position,
                reader.position <= reader.tokens@.len() || reader.position == old(
                    reader,
                ).position,
                access_info_timestamps(
                    reader.tokens@,
                    reader.position as nat,
                    views(timestamps@),
                ) == access_info_timestamps(
                    old(reader).tokens@,
                    old(reader).position as nat,
                    Seq::empty(),
                ),
            decreases reader.tokens@.len() - reader.position,
        {
            let token = reader.read_event();
            if let Some(tag) = opening(token, "timestamp") {
                let item = Timestamp::parse_one(tag, reader)?;
                proof {
                    lemma_views_push(timestamps@, item);
                }
                timestamps.push(item);
                continue ;
            }
            if judge("accessInfo", token)? {
                return Ok(AccessInfo { timestamps });
            }
        }
    }
}

} // verus!
