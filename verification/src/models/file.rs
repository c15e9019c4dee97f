//! A file that the report lists, with its access times and its metadata.

use super::access_info::{decode_access_info, AccessInfo, AccessInfoView};
use super::metadata::{decode_metadata, Metadata, MetadataView};
use crate::error::{outcome, ErrorView, ParseError};
use crate::reader::{
    after, decodes, judge, lemma_views_push, opening, opens, option_view, resume, tag_of,
    token_at, verdict, views, EventReader, Verdict,
};
use crate::utils::{attribute_map, attributes_to_map, required, required_number};
use crate::xml::{StartTag, Token};
use vstd::prelude::*;

verus! {

/// `<file fs="..." fsid="..." path="..." ...>` with its children.
#[derive(Debug, PartialEq)]
pub struct File {
    pub fs: String,
    pub fsid: String,
    pub path: String,
    pub size: u64,
    pub id: String,
    pub extraction_id: u64,
    pub deleted: String,
    pub embedded: String,
    pub is_related: String,
    pub access_info: Option<AccessInfo>,
    pub metadata: Vec<Metadata>,
}

/// The mathematical value of [`File`].
pub struct FileView {
    pub fs: Seq<char>,
    pub fsid: Seq<char>,
    pub path: Seq<char>,
    pub size: u64,
    pub id: Seq<char>,
    pub extraction_id: u64,
    pub deleted: Seq<char>,
    pub embedded: Seq<char>,
    pub is_related: Seq<char>,
    pub access_info: Option<AccessInfoView>,
    pub metadata: Seq<MetadataView>,
}

impl View for File {
    type V = FileView;

    open spec fn view(&self) -> FileView {
        FileView {
            fs: self.fs@,
            fsid: self.fsid@,
            path: self.path@,
            size: self.size,
            id: self.id@,
            extraction_id: self.extraction_id,
            deleted: self.deleted@,
            embedded: self.embedded@,
            is_related: self.is_related@,
            access_info: option_view(self.access_info),
            metadata: views(self.metadata@),
        }
    }
}

/// The children of a file: the last access information and the metadata
/// sections in document order.
pub struct FileChildren {
    pub access_info: Option<AccessInfoView>,
    pub metadata: Seq<MetadataView>,
}

/// The children of a file from `pos` on, after `acc`.
pub open spec fn file_children(tokens: Seq<Token>, pos: nat, acc: FileChildren) -> (
    Result<FileChildren, ErrorView>,
    nat,
)
    decreases tokens.len() - pos,
{
    let token = token_at(tokens, pos);
    if opens(token, "accessInfo"@) {
        let (child, next) = decode_access_info(tokens, pos + 1);
        match child {
            Err(e) => (Err(e), next),
            Ok(c) => file_children(
                tokens,
                resume(tokens, pos, next),
                FileChildren { access_info: Some(c), ..acc },
            ),
        }
    } else if opens(token, "metadata"@) {
        let (child, next) = decode_metadata(tag_of(token), tokens, pos + 1);
        match child {
            Err(e) => (Err(e), next),
            Ok(c) => file_children(
                tokens,
                resume(tokens, pos, next),
                FileChildren { metadata: acc.metadata.push(c), ..acc },
            ),
        }
    } else {
        match verdict("file"@, token) {
            Verdict::Closed => (Ok(acc), pos + 1),
            Verdict::Ignored => file_children(tokens, pos + 1, acc),
            Verdict::Failed(e) => (Err(e), after(tokens, pos)),
        }
    }
}

/// The texts of a file that stand behind its numbers: `deleted`, `embedded`
/// and `isrelated`.
pub open spec fn file_flags(map: Map<Seq<char>, Seq<char>>) -> Result<
    (Seq<char>, Seq<char>, Seq<char>),
    ErrorView,
> {
    match required(map, "file"@, "deleted"@) {
        Err(e) => Err(e),
        Ok(deleted) => match required(map, "file"@, "embedded"@) {
            Err(e) => Err(e),
            Ok(embedded) => match required(map, "file"@, "isrelated"@) {
                Err(e) => Err(e),
                Ok(is_related) => Ok((deleted, embedded, is_related)),
            },
        },
    }
}

/// The file that the attributes `map` and the children make. The first
/// attribute that is missing or no number fails it, in the order `fs`,
/// `fsid`, `path`, `size`, `id`, `extractionId`, `deleted`, `embedded`,
/// `isrelated`.
pub open spec fn file_from(map: Map<Seq<char>, Seq<char>>, children: FileChildren) -> Result<
    FileView,
    ErrorView,
> {
    match required(map, "file"@, "fs"@) {
        Err(e) => Err(e),
        Ok(fs) => match required(map, "file"@, "fsid"@) {
            Err(e) => Err(e),
            Ok(fsid) => match required(map, "file"@, "path"@) {
                Err(e) => Err(e),
                Ok(path) => match required_number(map, "file"@, "size"@, u64::MAX as nat) {
                    Err(e) => Err(e),
                    Ok(size) => match required(map, "file"@, "id"@) {
                        Err(e) => Err(e),
                        Ok(id) => match required_number(
                            map,
                            "file"@,
                            "extractionId"@,
                            u64::MAX as nat,
                        ) {
                            Err(e) => Err(e),
                            Ok(extraction_id) => match file_flags(map) {
                                Err(e) => Err(e),
                                Ok(flags) => Ok(
                                    FileView {
                                        fs,
                                        fsid,
                                        path,
                                        size: size as u64,
                                        id,
                                        extraction_id: extraction_id as u64,
                                        deleted: flags.0,
                                        embedded: flags.1,
                                        is_related: flags.2,
                                        access_info: children.access_info,
                                        metadata: children.metadata,
                                    },
                                ),
                            },
                        },
                    },
                },
            },
        },
    }
}

/// The file that the tag `tag` opens, and where its decoding ends. The
/// attributes of the tag are looked at only once its body has been read.
pub open spec fn decode_file(tag: StartTag, tokens: Seq<Token>, pos: nat) -> (
    Result<FileView, ErrorView>,
    nat,
) {
    let (children, next) = file_children(
        tokens,
        pos,
        FileChildren { access_info: None, metadata: Seq::empty() },
    );
    match children {
        Err(e) => (Err(e), next),
        Ok(children) => (
            match attribute_map(tag.attributes@) {
                None => Err(ErrorView::MalformedAttribute),
                Some(map) => file_from(map, children),
            },
            next,
        ),
    }
}

impl File {
    /// Makes a file of its attributes and of what its body held.
    fn assemble(e: &StartTag, access_info: Option<AccessInfo>, metadata: Vec<Metadata>) -> (r:
        Result<File, ParseError>)
        ensures
            outcome(r) == match attribute_map(e.attributes@) {
                None => Err(ErrorView::MalformedAttribute),
                Some(map) => file_from(
                    map,
                    FileChildren {
                        access_info: option_view(access_info),
                        metadata: views(metadata@),
                    },
                ),
            },
    {
        let map = attributes_to_map(e)?;
        let fs = map.require("file", "fs")?;
        let fsid = map.require("file", "fsid")?;
        let path = map.require("file", "path")?;
        let size = map.require_u64("file", "size")?;
        let id = map.require("file", "id")?;
        let extraction_id = map.require_u64("file", "extractionId")?;
        let deleted = map.require("file", "deleted")?;
        let embedded = map.require("file", "embedded")?;
        let is_related = map.require("file", "isrelated")?;
        Ok(
            File {
                fs,
                fsid,
                path,
                size,
                id,
                extraction_id,
                deleted,
                embedded,
                is_related,
                access_info,
                metadata,
            },
        )
    }

    /// Decodes the file whose opening tag `e` has just been read.
    pub fn parse_one(e: &StartTag, reader: &mut EventReader) -> (r: Result<File, ParseError>)
        ensures
            decodes(
                *old(reader),
                *final(reader),
                r,
                decode_file(*e, old(reader).tokens@, old(reader).position as nat),
            ),
    {
        let mut access_info: Option<AccessInfo> = None;
        let mut metadata: Vec<Metadata> = Vec::new();
        proof {
            assert(views(metadata@) =~= Seq::empty());
        }
        loop
            invariant
                reader.tokens == old(reader).tokens,
                reader.position >= old(reader).position,
                reader.position <= reader.tokens@.len() || reader.position == old(
                    reader,
                ).position,
                file_children(
                    reader.tokens@,
                    reader.position as nat,
                    FileChildren {
                        access_info: option_view(access_info),
                        metadata: views(metadata@),
                    },
                ) == file_children(
                    old(reader).tokens@,
                    old(reader).position as nat,
                    FileChildren { access_info: None, metadata: Seq::empty() },
                ),
            decreases reader.tokens@.len() - reader.position,
        {
            let token = reader.read_event();
            if opening(token, "accessInfo").is_some() {
                let info = AccessInfo::parse_one(reader)?;
                access_info = Some(info);
                continue ;
            }
            if let Some(tag) = opening(token, "metadata") {
                let section = Metadata::parse_one(tag, reader)?;
                proof {
                    lemma_views_push(metadata@, section);
                }
                metadata.push(section);
                continue ;
            }
            if judge("file", token)? {
                return File::assemble(e, access_info, metadata);
            }
        }
    }
}

} // verus!
