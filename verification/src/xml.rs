//! The XML conversion contract.
//!
//! XML is routed through the JSON-compatible native tree: the XML engine
//! deserializes the text straight into `serde_json::Value` trees.  An XML
//! element becomes a mapping; an element's text content sits under the
//! engine's reserved key (`$value`) beside any child-element keys.  What
//! the engine makes of a text is named by [`xml_doc`]; what the printer
//! makes of a tree is named by [`xml_text`].
use vstd::prelude::*;

use crate::context::Context;
use crate::native::assemble_doc;
use crate::native::build_ctx_tree;
use crate::native::ctx_tree;
use crate::native::doc_entries;
use crate::native::doc_ok;
use crate::native::entries_norm;
use crate::native::jv;
use crate::native::pairs_doc;
use crate::order::lex_lt;
use crate::value::Model;
use crate::Error;

verus! {

/// What the XML engine makes of a text: the root element's children in
/// strictly ascending key order with each one's tree content, or `None`
/// when the text is not a well-formed XML document.
pub uninterp spec fn xml_doc(text: Seq<char>) -> Option<Seq<(Seq<char>, Option<Model>)>>;

/// The text the XML printer renders a tree into, or `None` when the
/// printer reports a failure on that tree.
pub uninterp spec fn xml_text(m: Option<Model>) -> Option<Seq<char>>;

/// Relies on `serde_xml_rs::from_str` deserializing into a
/// `BTreeMap<String, serde_json::Value>`: on success the top-level keys
/// come out strictly sorted and unique with their parsed trees, and the
/// result is a function of the text alone.
#[verifier::external_body]
fn parse_xml_top(text: &str) -> (r: Result<Vec<(String, serde_json::Value)>, String>)
    ensures
        match r {
            Result::Ok(es) => xml_doc(text@) == Option::Some(pairs_doc(es@)) && (forall|
                a: int,
                b: int,
            |
                0 <= a < b < es@.len() ==> lex_lt(es@[a].0@, es@[b].0@)),
            Result::Err(_) => xml_doc(text@) is None,
        },
{
    match serde_xml_rs::from_str::<std::collections::BTreeMap<String, serde_json::Value>>(text) {
        Ok(m) => Ok(m.into_iter().collect()),
        Err(e) => Err(e.to_string()),
    }
}

/// Relies on `serde_xml_rs::to_string`: a deterministic rendering of the
/// tree, failing only as the engine decides for that tree.
#[verifier::external_body]
fn print_xml(t: &serde_json::Value) -> (r: Result<String, String>)
    requires
        jv(*t) is Some,
    ensures
        match r {
            Result::Ok(s) => xml_text(jv(*t)) == Option::Some(s@),
            Result::Err(_) => xml_text(jv(*t)) is None,
        },
{
    match serde_xml_rs::to_string(t) {
        Ok(s) => Ok(s),
        Err(e) => Err(e.to_string()),
    }
}

impl Context {
    /// Parses an XML document into a context, one entry per child of the
    /// root element.  Succeeds exactly when the engine parses the text
    /// and every element's tree fits the dynamic model; the context then
    /// holds exactly the document's entries, in key order.
    pub fn from_xml(xml: &str) -> (r: Result<Context, Error>)
        ensures
            r is Ok <==> (xml_doc(xml@) is Some && doc_ok(xml_doc(xml@)->Some_0)),
            r is Ok ==> r->Ok_0.wf() && r->Ok_0@ == doc_entries(xml_doc(xml@)->Some_0),
            r is Err ==> r->Err_0 is Xml,
    {
        match parse_xml_top(xml) {
            Result::Err(m) => Result::Err(Error::Xml(m)),
            Result::Ok(pairs) => match assemble_doc(pairs) {
                Option::Some(c) => Result::Ok(c),
                Option::None => Result::Err(
                    Error::Xml("invalid number: only integers are supported".to_owned()),
                ),
            },
        }
    }

    /// Serializes the context as XML in the engine's canonical style.
    /// Succeeds exactly when every value pours into the native tree and
    /// the printer accepts that tree; the output is the printer's
    /// rendering of the context's tree.
    pub fn to_xml(&self) -> (r: Result<String, Error>)
        requires
            self.wf(),
        ensures
            r is Ok <==> (entries_norm(self@) is Some && xml_text(
                Option::Some(ctx_tree(self@)),
            ) is Some),
            r is Ok ==> r->Ok_0@ == xml_text(Option::Some(ctx_tree(self@)))->Some_0,
            r is Err ==> r->Err_0 is Xml,
    {
        match build_ctx_tree(self) {
            Option::Some(tree) => match print_xml(&tree) {
                Result::Ok(s) => Result::Ok(s),
                Result::Err(m) => Result::Err(Error::Xml(m)),
            },
            Option::None => Result::Err(Error::Xml("key must be a string".to_owned())),
        }
    }
}

} // verus!
