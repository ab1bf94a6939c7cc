//! Front matter, metadata and templates around a Markdown renderer.
//!
//! A document may open with a block of YAML between two delimiter lines. The
//! block is split off, flattened into a map from dotted paths to strings, and
//! the rest of the document is handed to the renderer. A template, if there is
//! one, is then filled in from the map and the rendered body.

pub mod cli;
pub mod convert;
pub mod flatten;
pub mod front_matter;
pub mod metadata;
pub mod render;
pub mod template;
pub mod text;
pub mod yaml;

pub use cli::{convert_or_input, parse_key_value, Args};
pub use convert::{convert, finish, template_metadata};
pub use flatten::{flatten_yaml, stringify_yaml};
pub use front_matter::extract_metadata;
pub use metadata::{metadata_from_documents, read_metadata, ErrorKind, Metadata, MetadataError};
pub use render::{render, Format, RenderOptions};
pub use template::{
    apply_template, fill_template, parse_template, parse_template_with, TemplateNode,
};
pub use text::trim;
pub use yaml::{parse_documents, Node};
