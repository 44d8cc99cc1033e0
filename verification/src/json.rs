//! The JSON conversion contract.
//!
//! `from_json` hands the text to the JSON engine, which yields the
//! top-level object as sorted `(key, tree)` pairs; the trees then convert
//! into [`Dynamic`] values one by one, and the sorted pairs assemble into a
//! [`Context`].  `to_json` pours the context into one native tree and hands
//! it to the JSON printer, compact or indented.  What the engine makes of
//! the text is named by [`json_doc`]; what the printers make of a tree is
//! named by [`json_text_compact`] and [`json_text_pretty`].
use vstd::prelude::*;

use crate::context::Context;
use crate::native::assemble_doc;
use crate::native::build_ctx_tree;
use crate::native::ctx_tree;
use crate::native::doc_entries;
use crate::native::doc_ok;
use crate::native::entries_norm;
use crate::native::jv;
use crate::native::pairs_doc;
use crate::order::lex_lt;
use crate::value::Model;
use crate::Error;

verus! {

/// What the JSON engine makes of a text: the top-level entries in strictly
/// ascending key order with each value's tree content, or `None` when the
/// text is not a JSON object.
pub uninterp spec fn json_doc(text: Seq<char>) -> Option<Seq<(Seq<char>, Option<Model>)>>;

/// The text the compact JSON printer renders a tree into.
pub uninterp spec fn json_text_compact(m: Option<Model>) -> Seq<char>;

/// The text the indenting JSON printer renders a tree into.
pub uninterp spec fn json_text_pretty(m: Option<Model>) -> Seq<char>;

/// Relies on `serde_json::from_str` deserializing into a
/// `BTreeMap<String, serde_json::Value>`: on success the top-level keys
/// come out strictly sorted and unique with their parsed trees, and the
/// result is a function of the text alone.
#[verifier::external_body]
fn parse_json_top(text: &str) -> (r: Result<Vec<(String, serde_json::Value)>, String>)
    ensures
        match r {
            Result::Ok(es) => json_doc(text@) == Option::Some(pairs_doc(es@)) && (forall|
                a: int,
                b: int,
            |
                0 <= a < b < es@.len() ==> lex_lt(es@[a].0@, es@[b].0@)),
            Result::Err(_) => json_doc(text@) is None,
        },
{
    match serde_json::from_str::<std::collections::BTreeMap<String, serde_json::Value>>(text) {
        Ok(m) => Ok(m.into_iter().collect()),
        Err(e) => Err(e.to_string()),
    }
}

/// Relies on `serde_json::to_string`: a deterministic compact rendering of
/// the tree; on `serde_json::Value` input it does not fail, since object
/// keys are always strings.
#[verifier::external_body]
fn print_json_compact(t: &serde_json::Value) -> (r: String)
    requires
        jv(*t) is Some,
    ensures
        r@ == json_text_compact(jv(*t)),
{
    serde_json::to_string(t).unwrap()
}

/// Relies on `serde_json::to_string_pretty`: a deterministic indented
/// rendering of the tree; on `serde_json::Value` input it does not fail,
/// since object keys are always strings.
#[verifier::external_body]
fn print_json_pretty(t: &serde_json::Value) -> (r: String)
    requires
        jv(*t) is Some,
    ensures
        r@ == json_text_pretty(jv(*t)),
{
    serde_json::to_string_pretty(t).unwrap()
}

impl Context {
    /// Parses a JSON object into a context.  Succeeds exactly when the
    /// engine parses the text as an object and every value fits the
    /// dynamic model (JSON floats do not); the context then holds exactly
    /// the document's entries, in key order.
    pub fn from_json(json: &str) -> (r: Result<Context, Error>)
        ensures
            r is Ok <==> (json_doc(json@) is Some && doc_ok(json_doc(json@)->Some_0)),
            r is Ok ==> r->Ok_0.wf() && r->Ok_0@ == doc_entries(json_doc(json@)->Some_0),
            r is Err ==> r->Err_0 is Json,
    {
        match parse_json_top(json) {
            Result::Err(m) => Result::Err(Error::Json(m)),
            Result::Ok(pairs) => match assemble_doc(pairs) {
                Option::Some(c) => Result::Ok(c),
                Option::None => Result::Err(
                    Error::Json("invalid number: only integers are supported".to_owned()),
                ),
            },
        }
    }

    /// Serializes the context as JSON, indented when `pretty` holds and
    /// compact otherwise.  Succeeds exactly when every value pours into
    /// the native tree (every nested dict key is text); the output is the
    /// printer's rendering of the context's tree.
    pub fn to_json(&self, pretty: bool) -> (r: Result<String, Error>)
        requires
            self.wf(),
        ensures
            r is Ok <==> entries_norm(self@) is Some,
            r is Ok && pretty ==> r->Ok_0@ == json_text_pretty(
                Option::Some(ctx_tree(self@)),
            ),
            r is Ok && !pretty ==> r->Ok_0@ == json_text_compact(
                Option::Some(ctx_tree(self@)),
            ),
            r is Err ==> r->Err_0 is Json,
    {
        match build_ctx_tree(self) {
            Option::Some(tree) => {
                if pretty {
                    Result::Ok(print_json_pretty(&tree))
                } else {
                    Result::Ok(print_json_compact(&tree))
                }
            },
            Option::None => Result::Err(Error::Json("key must be a string".to_owned())),
        }
    }
}

/// Serializing an empty context always has a tree to print: an empty
/// entry sequence normalizes trivially, so `to_json` returns `Ok` on an
/// empty context for either `pretty` choice.
pub proof fn lemma_empty_context_serializes()
    ensures
        entries_norm(Seq::<(Seq<char>, Model)>::empty()) is Some,
{
}

} // verus!
