//! The YAML conversion contract.
//!
//! YAML is routed through the JSON-compatible native tree: the YAML engine
//! deserializes the text straight into `serde_json::Value` trees, so only
//! the JSON-representable subset of YAML round-trips.  What the engine
//! makes of a text is named by [`yaml_doc`]; what the printer makes of a
//! tree is named by [`yaml_text`].
use vstd::prelude::*;

use crate::context::Context;
use crate::native::assemble_doc;
use crate::native::build_ctx_tree;
use crate::native::ctx_tree;
use crate::native::doc_entries;
use crate::native::doc_ok;
use crate::native::entries_norm;
use crate::native::jv;
use crate::native::pairs_doc;
use crate::order::lex_lt;
use crate::value::Model;
use crate::Error;

verus! {

/// What the YAML engine makes of a text: the top-level entries in strictly
/// ascending key order with each value's tree content, or `None` when the
/// text is not a YAML mapping.
pub uninterp spec fn yaml_doc(text: Seq<char>) -> Option<Seq<(Seq<char>, Option<Model>)>>;

/// The text the YAML printer renders a tree into, or `None` when the
/// printer reports a failure on that tree.
pub uninterp spec fn yaml_text(m: Option<Model>) -> Option<Seq<char>>;

/// Relies on `serde_yaml::from_str` deserializing into a
/// `BTreeMap<String, serde_json::Value>`: on success the top-level keys
/// come out strictly sorted and unique with their parsed trees, and the
/// result is a function of the text alone.
#[verifier::external_body]
fn parse_yaml_top(text: &str) -> (r: Result<Vec<(String, serde_json::Value)>, String>)
    ensures
        match r {
            Result::Ok(es) => yaml_doc(text@) == Option::Some(pairs_doc(es@)) && (forall|
                a: int,
                b: int,
            |
                0 <= a < b < es@.len() ==> lex_lt(es@[a].0@, es@[b].0@)),
            Result::Err(_) => yaml_doc(text@) is None,
        },
{
    match serde_yaml::from_str::<std::collections::BTreeMap<String, serde_json::Value>>(text) {
        Ok(m) => Ok(m.into_iter().collect()),
        Err(e) => Err(e.to_string()),
    }
}

/// Relies on `serde_yaml::to_string`: a deterministic rendering of the
/// tree, failing only as the engine decides for that tree.
#[verifier::external_body]
fn print_yaml(t: &serde_json::Value) -> (r: Result<String, String>)
    requires
        jv(*t) is Some,
    ensures
        match r {
            Result::Ok(s) => yaml_text(jv(*t)) == Option::Some(s@),
            Result::Err(_) => yaml_text(jv(*t)) is None,
        },
{
    match serde_yaml::to_string(t) {
        Ok(s) => Ok(s),
        Err(e) => Err(e.to_string()),
    }
}

impl Context {
    /// Parses a YAML mapping into a context.  Succeeds exactly when the
    /// engine parses the text as a mapping and every value fits the
    /// dynamic model (floats do not); the context then holds exactly the
    /// document's entries, in key order.
    pub fn from_yaml(yaml: &str) -> (r: Result<Context, Error>)
        ensures
            r is Ok <==> (yaml_doc(yaml@) is Some && doc_ok(yaml_doc(yaml@)->Some_0)),
            r is Ok ==> r->Ok_0.wf() && r->Ok_0@ == doc_entries(yaml_doc(yaml@)->Some_0),
            r is Err ==> r->Err_0 is Yaml,
    {
        match parse_yaml_top(yaml) {
            Result::Err(m) => Result::Err(Error::Yaml(m)),
            Result::Ok(pairs) => match assemble_doc(pairs) {
                Option::Some(c) => Result::Ok(c),
                Option::None => Result::Err(
                    Error::Yaml("invalid number: only integers are supported".to_owned()),
                ),
            },
        }
    }

    /// Serializes the context as YAML in the engine's canonical style.
    /// Succeeds exactly when every value pours into the native tree and
    /// the printer accepts that tree; the output is the printer's
    /// rendering of the context's tree.
    pub fn to_yaml(&self) -> (r: Result<String, Error>)
        requires
            self.wf(),
        ensures
            r is Ok <==> (entries_norm(self@) is Some && yaml_text(
                Option::Some(ctx_tree(self@)),
            ) is Some),
            r is Ok ==> r->Ok_0@ == yaml_text(Option::Some(ctx_tree(self@)))->Some_0,
            r is Err ==> r->Err_0 is Yaml,
    {
        match build_ctx_tree(self) {
            Option::Some(tree) => match print_yaml(&tree) {
                Result::Ok(s) => Result::Ok(s),
                Result::Err(m) => Result::Err(Error::Yaml(m)),
            },
            Option::None => Result::Err(Error::Yaml("key must be a string".to_owned())),
        }
    }
}

} // verus!
