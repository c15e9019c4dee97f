//! The root of a report.

use super::case_information::{decode_case_information, CaseInformation, CaseInformationView};
use super::decoded_data::{decode_decoded_data, DecodedData, DecodedDataView};
use super::images::{decode_images, Images, ImagesView};
use super::metadata::{decode_metadata, Metadata, MetadataView};
use super::source_extractions::{
    decode_source_extractions, SourceExtractions, SourceExtractionsView,
};
use super::tagged_files::{decode_tagged_files, TaggedFiles, TaggedFilesView};
use crate::error::{outcome, ErrorView, ParseError};
use crate::reader::{
    after, decodes, judge, lemma_views_push, opening, opens, option_view, resume, tag_of,
    token_at, verdict, views, EventReader, Verdict,
};
use crate::utils::{attribute_map, attributes_to_map, required, AttrMap};
use crate::xml::{StartTag, Token};
use vstd::prelude::*;

verus! {

/// `<project id="..." name="..." ...>` with the sections of the report.
#[derive(Debug, PartialEq)]
pub struct Project {
    pub id: String,
    pub name: String,
    pub report_version: String,
    pub license_id: String,
    pub contains_garbage: String,
    pub extraction_type: String,
    pub node_count: String,
    pub model_count: String,
    pub xmlns: String,
    pub source_extractions: SourceExtractions,
    pub case_information: CaseInformation,
    pub metadata: Vec<Metadata>,
    pub images: Option<Images>,
    pub tagged_files: Option<TaggedFiles>,
    pub decoded_data: Option<DecodedData>,
}

/// The mathematical value of [`Project`].
pub struct ProjectView {
    pub id: Seq<char>,
    pub name: Seq<char>,
    pub report_version: Seq<char>,
    pub license_id: Seq<char>,
    pub contains_garbage: Seq<char>,
    pub extraction_type: Seq<char>,
    pub node_count: Seq<char>,
    pub model_count: Seq<char>,
    pub xmlns: Seq<char>,
    pub source_extractions: SourceExtractionsView,
    pub case_information: CaseInformationView,
    pub metadata: Seq<MetadataView>,
    pub images: Option<ImagesView>,
    pub tagged_files: Option<TaggedFilesView>,
    pub decoded_data: Option<DecodedDataView>,
}

impl View for Project {
    type V = ProjectView;

    open spec fn view(&self) -> ProjectView {
        ProjectView {
            id: self.id@,
            name: self.name@,
            report_version: self.report_version@,
            license_id: self.license_id@,
            contains_garbage: self.contains_garbage@,
            extraction_type: self.extraction_type@,
            node_count: self.node_count@,
            model_count: self.model_count@,
            xmlns: self.xmlns@,
            source_extractions: self.source_extractions@,
            case_information: self.case_information@,
            metadata: views(self.metadata@),
            images: option_view(self.images),
            tagged_files: option_view(self.tagged_files),
            decoded_data: option_view(self.decoded_data),
        }
    }
}

/// The sections of a project: of each kind that stands once the last one,
/// and the metadata sections in document order.
pub struct ProjectSections {
    pub source_extractions: Option<SourceExtractionsView>,
    pub case_information: Option<CaseInformationView>,
    pub metadata: Seq<MetadataView>,
    pub images: Option<ImagesView>,
    pub tagged_files: Option<TaggedFilesView>,
    pub decoded_data: Option<DecodedDataView>,
}

/// No sections.
pub open spec fn no_sections() -> ProjectSections {
    ProjectSections {
        source_extractions: None,
        case_information: None,
        metadata: Seq::empty(),
        images: None,
        tagged_files: None,
        decoded_data: None,
    }
}

/// The sections of a project from `pos` on, after `acc`.
pub open spec fn project_sections(tokens: Seq<Token>, pos: nat, acc: ProjectSections) -> (
    Result<ProjectSections, ErrorView>,
    nat,
)
    decreases tokens.len() - pos,
{
    let token = token_at(tokens, pos);
    if opens(token, "sourceExtractions"@) {
        let (child, next) = decode_source_extractions(tokens, pos + 1);
        match child {
            Err(e) => (Err(e), next),
            Ok(c) => project_sections(
                tokens,
                resume(tokens, pos, next),
                ProjectSections { source_extractions: Some(c), ..acc },
            ),
        }
    } else if opens(token, "caseInformation"@) {
        let (child, next) = decode_case_information(tokens, pos + 1);
        match child {
            Err(e) => (Err(e), next),
            Ok(c) => project_sections(
                tokens,
                resume(tokens, pos, next),
                ProjectSections { case_information: Some(c), ..acc },
            ),
        }
    } else if opens(token, "metadata"@) {
        let (child, next) = decode_metadata(tag_of(token), tokens, pos + 1);
        match child {
            Err(e) => (Err(e), next),
            Ok(c) => project_sections(
                tokens,
                resume(tokens, pos, next),
                ProjectSections { metadata: acc.metadata.push(c), ..acc },
            ),
        }
    } else if opens(token, "images"@) {
        let (child, next) = decode_images(tokens, pos + 1);
        match child {
            Err(e) => (Err(e), next),
            Ok(c) => project_sections(
                tokens,
                resume(tokens, pos, next),
                ProjectSections { images: Some(c), ..acc },
            ),
        }
    } else if opens(token, "taggedFiles"@) {
        let (child, next) = decode_tagged_files(tokens, pos + 1);
        match child {
            Err(e) => (Err(e), next),
            Ok(c) => project_sections(
                tokens,
                resume(tokens, pos, next),
                ProjectSections { tagged_files: Some(c), ..acc },
            ),
        }
    } else if opens(token, "decodedData"@) {
        let (child, next) = decode_decoded_data(tokens, pos + 1);
        match child {
            Err(e) => (Err(e), next),
            Ok(c) => project_sections(
                tokens,
                resume(tokens, pos, next),
                ProjectSections { decoded_data: Some(c), ..acc },
            ),
        }
    } else {
        match verdict("project"@, token) {
            Verdict::Closed => (Ok(acc), pos + 1),
            Verdict::Ignored => project_sections(tokens, pos + 1, acc),
            Verdict::Failed(e) => (Err(e), after(tokens, pos)),
        }
    }
}

/// The texts of a project, in the order in which they are required.
pub struct ProjectTexts {
    pub id: Seq<char>,
    pub name: Seq<char>,
    pub report_version: Seq<char>,
    pub license_id: Seq<char>,
    pub contains_garbage: Seq<char>,
    pub extraction_type: Seq<char>,
    pub node_count: Seq<char>,
    pub model_count: Seq<char>,
    pub xmlns: Seq<char>,
}

/// The counts and the namespace of a project: `NodeCount`, `ModelCount` and
/// `xmlns`.
pub open spec fn project_counts(map: Map<Seq<char>, Seq<char>>) -> Result<
    (Seq<char>, Seq<char>, Seq<char>),
    ErrorView,
> {
    match required(map, "project"@, "NodeCount"@) {
        Err(e) => Err(e),
        Ok(node_count) => match required(map, "project"@, "ModelCount"@) {
            Err(e) => Err(e),
            Ok(model_count) => match required(map, "project"@, "xmlns"@) {
                Err(e) => Err(e),
                Ok(xmlns) => Ok((node_count, model_count, xmlns)),
            },
        },
    }
}

/// The texts that the attributes `map` give a project. The first attribute
/// that is missing fails them, in the order `id`, `name`, `reportVersion`,
/// `licenseID`, `containsGarbage`, `extractionType`, `NodeCount`,
/// `ModelCount`, `xmlns`.
pub open spec fn project_texts(map: Map<Seq<char>, Seq<char>>) -> Result<
    ProjectTexts,
    ErrorView,
> {
    match required(map, "project"@, "id"@) {
        Err(e) => Err(e),
        Ok(id) => match required(map, "project"@, "name"@) {
            Err(e) => Err(e),
            Ok(name) => match required(map, "project"@, "reportVersion"@) {
                Err(e) => Err(e),
                Ok(report_version) => match required(map, "project"@, "licenseID"@) {
                    Err(e) => Err(e),
                    Ok(license_id) => match required(map, "project"@, "containsGarbage"@) {
                        Err(e) => Err(e),
                        Ok(contains_garbage) => match required(
                            map,
                            "project"@,
                            "extractionType"@,
                        ) {
                            Err(e) => Err(e),
                            Ok(extraction_type) => match project_counts(map) {
                                Err(e) => Err(e),
                                Ok(counts) => Ok(
                                    ProjectTexts {
                                        id,
                                        name,
                                        report_version,
                                        license_id,
                                        contains_garbage,
                                        extraction_type,
                                        node_count: counts.0,
                                        model_count: counts.1,
                                        xmlns: counts.2,
                                    },
                                ),
                            },
                        },
                    },
                },
            },
        },
    }
}

/// The project that the attributes `map` and the sections make. After the
/// attributes, the source extractions and the case information are
/// required.
pub open spec fn project_from(map: Map<Seq<char>, Seq<char>>, sections: ProjectSections) -> Result<
    ProjectView,
    ErrorView,
> {
    match project_texts(map) {
        Err(e) => Err(e),
        Ok(texts) => match sections.source_extractions {
            None => Err(ErrorView::Other("missing sourceExtractions"@)),
            Some(source_extractions) => match sections.case_information {
                None => Err(ErrorView::Other("missing caseInformation"@)),
                Some(case_information) => Ok(
                    ProjectView {
                        id: texts.id,
                        name: texts.name,
                        report_version: texts.report_version,
                        license_id: texts.license_id,
                        contains_garbage: texts.contains_garbage,
                        extraction_type: texts.extraction_type,
                        node_count: texts.node_count,
                        model_count: texts.model_count,
                        xmlns: texts.xmlns,
                        source_extractions,
                        case_information,
                        metadata: sections.metadata,
                        images: sections.images,
                        tagged_files: sections.tagged_files,
                        decoded_data: sections.decoded_data,
                    },
                ),
            },
        },
    }
}

/// The project that the tag `tag` opens, and where its decoding ends.
pub open spec fn decode_project(tag: StartTag, tokens: Seq<Token>, pos: nat) -> (
    Result<ProjectView, ErrorView>,
    nat,
) {
    match attribute_map(tag.attributes@) {
        None => (Err(ErrorView::MalformedAttribute), pos),
        Some(map) => {
            let (sections, next) = project_sections(tokens, pos, no_sections());
            match sections {
                Err(e) => (Err(e), next),
                Ok(sections) => (project_from(map, sections), next),
            }
        },
    }
}

/// The sections of a project as the decoder gathers them.
struct Gathered {
    source_extractions: Option<SourceExtractions>,
    case_information: Option<CaseInformation>,
    metadata: Vec<Metadata>,
    images: Option<Images>,
    tagged_files: Option<TaggedFiles>,
    decoded_data: Option<DecodedData>,
}

impl View for Gathered {
    type V = ProjectSections;

    closed spec fn view(&self) -> ProjectSections {
        ProjectSections {
            source_extractions: option_view(self.source_extractions),
            case_information: option_view(self.case_information),
            metadata: views(self.metadata@),
            images: option_view(self.images),
            tagged_files: option_view(self.tagged_files),
            decoded_data: option_view(self.decoded_data),
        }
    }
}

impl Gathered {
    /// Nothing gathered yet.
    fn new() -> (g: Gathered)
        ensures
            g@ == no_sections(),
    {
        let g = Gathered {
            source_extractions: None,
            case_information: None,
            metadata: Vec::new(),
            images: None,
            tagged_files: None,
            decoded_data: None,
        };
        proof {
            assert(g@.metadata =~= Seq::empty());
        }
        g
    }

    /// Takes in the source extractions.
    fn set_source_extractions(&mut self, section: SourceExtractions)
        ensures
            final(self)@ == (ProjectSections { source_extractions: Some(section@), ..old(self)@ }),
    {
        self.source_extractions = Some(section);
    }

    /// Takes in the case information.
    fn set_case_information(&mut self, section: CaseInformation)
        ensures
            final(self)@ == (ProjectSections { case_information: Some(section@), ..old(self)@ }),
    {
        self.case_information = Some(section);
    }

    /// Takes in one more metadata section.
    fn add_metadata(&mut self, section: Metadata)
        ensures
            final(self)@ == (ProjectSections {
                metadata: old(self)@.metadata.push(section@),
                ..old(self)@
            }),
    {
        proof {
            lemma_views_push(self.metadata@, section);
        }
        self.metadata.push(section);
    }

    /// Takes in the images.
    fn set_images(&mut self, section: Images)
        ensures
            final(self)@ == (ProjectSections { images: Some(section@), ..old(self)@ }),
    {
        self.images = Some(section);
    }

    /// Takes in the tagged files.
    fn set_tagged_files(&mut self, section: TaggedFiles)
        ensures
            final(self)@ == (ProjectSections { tagged_files: Some(section@), ..old(self)@ }),
    {
        self.tagged_files = Some(section);
    }

    /// Takes in the decoded data.
    fn set_decoded_data(&mut self, section: DecodedData)
        ensures
            final(self)@ == (ProjectSections { decoded_data: Some(section@), ..old(self)@ }),
    {
        self.decoded_data = Some(section);
    }
}

impl Project {
    /// Makes a project of its attributes and of what its body held.
    fn assemble(map: &AttrMap, sections: Gathered) -> (r: Result<Project, ParseError>)
        ensures
            outcome(r) == project_from(map@, sections@),
    {
        let id = map.require("project", "id")?;
        let name = map.require("project", "name")?;
        let report_version = map.require("project", "reportVersion")?;
        let license_id = map.require("project", "licenseID")?;
        let contains_garbage = map.require("project", "containsGarbage")?;
        let extraction_type = map.require("project", "extractionType")?;
        let node_count = map.require("project", "NodeCount")?;
        let model_count = map.require("project", "ModelCount")?;
        let xmlns = map.require("project", "xmlns")?;
        let source_extractions = match sections.source_extractions {
            Some(section) => section,
            None => {
                return Err(ParseError::new("missing sourceExtractions"));
            },
        };
        let case_information = match sections.case_information {
            Some(section) => section,
            None => {
                return Err(ParseError::new("missing caseInformation"));
            },
        };
        Ok(
            Project {
                id,
                name,
                report_version,
                license_id,
                contains_garbage,
                extraction_type,
                node_count,
                model_count,
                xmlns,
                source_extractions,
                case_information,
                metadata: sections.metadata,
                images: sections.images,
                tagged_files: sections.tagged_files,
                decoded_data: sections.decoded_data,
            },
        )
    }

    /// Decodes the project whose opening tag `e` has just been read.
    pub fn parse_one(e: &StartTag, reader: &mut EventReader) -> (r: Result<Project, ParseError>)
        ensures
            decodes(
                *old(reader),
                *final(reader),
                r,
                decode_project(*e, old(reader).tokens@, old(reader).position as nat),
            ),
    {
        let map = attributes_to_map(e)?;
        let mut sections = Gathered::new();
        loop
            invariant
                reader.tokens == old(reader).tokens,
                reader.position >= old(reader).position,
                reader.position <= reader.tokens@.len() || reader.position == old(
                    reader,
                ).position,
                project_sections(reader.tokens@, reader.position as nat, sections@)
                    == project_sections(
                    old(reader).tokens@,
                    old(reader).position as nat,
                    no_sections(),
                ),
                attribute_map(e.attributes@) == Some(map@),
            decreases reader.tokens@.len() - reader.position,
        {
            let token = reader.read_event();
            if opening(token, "sourceExtractions").is_some() {
                let section = SourceExtractions::parse_one(reader)?;
                sections.set_source_extractions(section);
                continue ;
            }
            if opening(token, "caseInformation").is_some() {
                let section = CaseInformation::parse_one(reader)?;
                sections.set_case_information(section);
                continue ;
            }
            if let Some(tag) = opening(token, "metadata") {
                let section = Metadata::parse_one(tag, reader)?;
                sections.add_metadata(section);
                continue ;
            }
            if opening(token, "images").is_some() {
                let section = Images::parse_one(reader)?;
                sections.set_images(section);
                continue ;
            }
            if opening(token, "taggedFiles").is_some() {
                let section = TaggedFiles::parse_one(reader)?;
                sections.set_tagged_files(section);
                continue ;
            }
            if opening(token, "decodedData").is_some() {
                let section = DecodedData::parse_one(reader)?;
                sections.set_decoded_data(section);
                continue ;
            }
            if judge("project", token)? {
                return Project::assemble(&map, sections);
            }
        }
    }
}

} // verus!
