//! An import-directive compiler: it reads a short token sequence naming where
//! metadata descriptor files live (`dependencies`) and which namespaces are
//! wanted (`modules`), and turns it into two ordered, deduplicated sets.
//!
//! The filesystem is never touched here. Parsing yields the path candidates in
//! the order they appear; the caller probes each one and hands the outcomes
//! back to `resolve_imports`, which expands and unions them.

pub mod directive;
pub mod error;
pub mod expand;
pub mod key_set;
pub mod laws;
pub mod namespace;
pub mod text;
pub mod token;

pub use directive::{
    parse_category, parse_dependencies, parse_import_stream, parse_namespace, resolve_imports,
    Category, Directive, Environment, Imports,
};
pub use error::ImportError;
pub use expand::{expand_paths, Entry, PathKind, Probe};
pub use key_set::KeySet;
pub use namespace::namespace_literal_to_rough_namespace;
pub use token::{ParseState, Token};
