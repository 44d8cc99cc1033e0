//! An ordered string-keyed container of dynamic values, readable from and
//! writable to JSON, TOML, YAML and XML through their usual Rust engines.
//!
//! The heart of the crate is [`Context`], a mapping from `String` keys to
//! [`Dynamic`] entries that always iterates and serializes in ascending
//! lexicographic key order.  Each format module adds a `from_*` constructor
//! and a `to_*` serializer to `Context`; the external parser and printer
//! engines stand behind narrow trusted wrappers, while everything around
//! them - ordering, upserts, lookups and the shaping of the native tree -
//! is verified.
use vstd::prelude::*;

pub mod context;
pub mod json;
pub mod native;
pub mod order;
pub mod toml;
pub mod value;
pub mod xml;
pub mod yaml;

pub use context::Context;
pub use value::Model;
pub use value::Dynamic;

verus! {

/// The unified error taxonomy: one variant per format engine, each carrying
/// only a rendered message, plus a generic kind for internal shape mismatches.
#[derive(Debug, Clone, PartialEq, Eq)]
pub enum Error {
    /// An error that belongs to no particular format engine.
    Generic(String),
    /// A failure reported while parsing or printing JSON.
    Json(String),
    /// A failure reported while parsing or printing TOML.
    Toml(String),
    /// A failure reported while parsing or printing XML.
    Xml(String),
    /// A failure reported while parsing or printing YAML.
    Yaml(String),
}

impl Error {
    /// The rendered message carried by any variant.
    pub fn message(&self) -> (m: &String)
        ensures
            m@ == self.message_spec(),
    {
        match self {
            Error::Generic(s) => s,
            Error::Json(s) => s,
            Error::Toml(s) => s,
            Error::Xml(s) => s,
            Error::Yaml(s) => s,
        }
    }

    /// The message of an error, seen as a sequence of characters.
    pub open spec fn message_spec(&self) -> Seq<char> {
        match self {
            Error::Generic(s) => s@,
            Error::Json(s) => s@,
            Error::Toml(s) => s@,
            Error::Xml(s) => s@,
            Error::Yaml(s) => s@,
        }
    }
}

} // verus!
