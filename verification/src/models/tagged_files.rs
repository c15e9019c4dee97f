//! The files that the report lists.

use super::file::{decode_file, File, FileView};
use crate::error::{ErrorView, ParseError};
use crate::reader::{
    after, decodes, judge, lemma_views_push, opening, opens, resume, tag_of, token_at, verdict,
    views, EventReader, Verdict,
};
use crate::xml::Token;
use vstd::prelude::*;

verus! {

/// `<taggedFiles>` with its files.
#[derive(Debug, PartialEq)]
pub struct TaggedFiles {
    pub files: Vec<File>,
}

/// The mathematical value of [`TaggedFiles`].
pub struct TaggedFilesView {
    pub files: Seq<FileView>,
}

impl View for TaggedFiles {
    type V = TaggedFilesView;

    open spec fn view(&self) -> TaggedFilesView {
        TaggedFilesView { files: views(self.files@) }
    }
}

/// The files of the element from `pos` on, after `acc`.
pub open spec fn tagged_files_files(tokens: Seq<Token>, pos: nat, acc: Seq<FileView>) -> (
    Result<Seq<FileView>, ErrorView>,
    nat,
)
    decreases tokens.len() - pos,
{
    let token = token_at(tokens, pos);
    if opens(token, "file"@) {
        let (child, next) = decode_file(tag_of(token), tokens, pos + 1);
        match child {
            Err(e) => (Err(e), next),
            Ok(c) => tagged_files_files(tokens, resume(tokens, pos, next), acc.push(c)),
        }
    } else {
        match verdict("taggedFiles"@, token) {
            Verdict::Closed => (Ok(acc), pos + 1),
            Verdict::Ignored => tagged_files_files(tokens, pos + 1, acc),
            Verdict::Failed(e) => (Err(e), after(tokens, pos)),
        }
    }
}

/// What the element `taggedFiles` decodes to, and where its decoding ends,
/// when the cursor stands at `pos` behind its opening tag.
pub open spec fn decode_tagged_files(tokens: Seq<Token>, pos: nat) -> (
    Result<TaggedFilesView, ErrorView>,
    nat,
) {
    let (files, next) = tagged_files_files(tokens, pos, Seq::empty());
    match files {
        Err(e) => (Err(e), next),
        Ok(files) => (Ok(TaggedFilesView { files }), next),
    }
}

impl TaggedFiles {
    /// Decodes the element `taggedFiles` whose opening tag has just been read.
    pub fn parse_one(reader: &mut EventReader) -> (r: Result<TaggedFiles, ParseError>)
        ensures
            decodes(
                *old(reader),
                *final(reader),
                r,
                decode_tagged_files(old(reader).tokens@, old(reader).position as nat),
            ),
    {
        let mut files: Vec<File> = Vec::new();
        proof {
            assert(views(files@) =~= Seq::empty());
        }
        loop
            invariant
                reader.tokens == old(reader).tokens,
                reader.position >= old(reader).position,
                reader.position <= reader.tokens@.len() || reader.position == old(
                    reader,
                ).position,
                tagged_files_files(
                    reader.tokens@,
                    reader.position as nat,
                    views(files@),
                ) == tagged_files_files(
                    old(reader).tokens@,
                    old(reader).position as nat,
                    Seq::empty(),
                ),
            decreases reader.tokens@.len() - reader.position,
        {
            let token = reader.read_event();
            if let Some(tag) = opening(token, "file") {
                let item = File::parse_one(tag, reader)?;
                proof {
                    lemma_views_push(files@, item);
                }
                files.push(item);
                continue ;
            }
            if judge("taggedFiles", token)? {
                return Ok(TaggedFiles { files });
            }
        }
    }
}

} // verus!
