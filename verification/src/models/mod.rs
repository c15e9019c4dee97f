//! The entities of a report and their decoders.

pub mod access_info;
pub mod case_information;
pub mod commons;
pub mod data_field;
pub mod decoded_data;
pub mod file;
pub mod images;
pub mod metadata;
pub mod model;
pub mod model_type;
pub mod multi_field;
pub mod project;
pub mod source;
pub mod source_extractions;
pub mod tagged_files;
pub mod timestamp;

pub use crate::error::ParseError;
pub use crate::utils::{attributes_to_map, read_text};
pub use access_info::AccessInfo;
pub use case_information::CaseInformation;
pub use commons::{Field, Item, Value};
pub use data_field::DataField;
pub use decoded_data::DecodedData;
pub use file::File;
pub use images::{Image, Images};
pub use metadata::Metadata;
pub use model::{Model, ModelField, MultiModelField};
pub use model_type::ModelType;
pub use multi_field::MultiField;
pub use project::Project;
pub use source::Source;
pub use source_extractions::{ExtractionInfo, SourceExtractions};
pub use tagged_files::TaggedFiles;
pub use timestamp::Timestamp;
