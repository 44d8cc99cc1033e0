//! The TOML conversion contract.
//!
//! TOML parses into its own native tree, whose content is named by [`tv`]:
//! TOML integers are signed 64-bit values, so they convert to `I64` (where
//! JSON would give `U64`), and a datetime converts to its rendered text.
//! Serialization reuses the JSON-compatible native tree, which the TOML
//! printer accepts; what the printers make of a tree is named by
//! [`toml_text_compact`] and [`toml_text_pretty`].
use vstd::prelude::*;

use toml::Value as TomlTree;

use crate::context::entries_model;
use crate::context::sorted_keys;
use crate::context::Context;
use crate::native::build_ctx_tree;
use crate::native::ctx_tree;
use crate::native::doc_entries;
use crate::native::doc_ok;
use crate::native::entries_norm;
use crate::native::jv;
use crate::order::lex_lt;
use crate::value::Dynamic;
use crate::value::Model;
use crate::Error;

verus! {

#[verifier::external_type_specification]
#[verifier::external_body]
pub struct ExTomlValue(::toml::Value);

/// The model of the value a TOML tree stands for, or `None` when the tree
/// holds a floating-point number, which the value model cannot carry.
pub uninterp spec fn tv(t: ::toml::Value) -> Option<Model>;

/// The parsed top-level pairs, seen as a document: each key with the
/// content of its tree.
pub open spec fn toml_pairs_doc(s: Seq<(String, ::toml::Value)>) -> Seq<
    (Seq<char>, Option<Model>),
> {
    s.map_values(|p: (String, ::toml::Value)| (p.0@, tv(p.1)))
}

/// What the TOML engine makes of a text: the top-level entries in strictly
/// ascending key order with each value's tree content, or `None` when the
/// text is not a TOML document.
pub uninterp spec fn toml_doc(text: Seq<char>) -> Option<Seq<(Seq<char>, Option<Model>)>>;

/// The text the compact TOML printer renders a tree into, or `None` when
/// the printer reports a failure on that tree.
pub uninterp spec fn toml_text_compact(m: Option<Model>) -> Option<Seq<char>>;

/// The text the indenting TOML printer renders a tree into, or `None`
/// when the printer reports a failure on that tree.
pub uninterp spec fn toml_text_pretty(m: Option<Model>) -> Option<Seq<char>>;

/// Relies on `toml::from_str` deserializing into a
/// `BTreeMap<String, toml::Value>`: on success the top-level keys come
/// out strictly sorted and unique with their parsed trees, and the result
/// is a function of the text alone.
#[verifier::external_body]
fn parse_toml_top(text: &str) -> (r: Result<Vec<(String, ::toml::Value)>, String>)
    ensures
        match r {
            Result::Ok(es) => toml_doc(text@) == Option::Some(toml_pairs_doc(es@)) && (forall|
                a: int,
                b: int,
            |
                0 <= a < b < es@.len() ==> lex_lt(es@[a].0@, es@[b].0@)),
            Result::Err(_) => toml_doc(text@) is None,
        },
{
    match ::toml::from_str::<std::collections::BTreeMap<String, ::toml::Value>>(text) {
        Ok(m) => Ok(m.into_iter().collect()),
        Err(e) => Err(e.to_string()),
    }
}

/// Relies on `toml::Value`'s variant structure: converts a parsed tree
/// into the library's own value, one variant for one variant - a TOML
/// integer is a signed 64-bit value and a datetime renders to text -
/// failing exactly where the tree holds a float.  Tables read out in the
/// engine's entry order, matching the model `tv` assigns them.
#[verifier::external_body]
fn toml_tree_to_value(t: &::toml::Value) -> (r: Option<Dynamic>)
    ensures
        match r {
            Option::Some(v) => tv(*t) == Option::Some(v@),
            Option::None => tv(*t) is None,
        },
{
    match t {
        TomlTree::String(s) => Some(Dynamic::Text(s.clone())),
        TomlTree::Integer(i) => Some(Dynamic::I64(*i)),
        TomlTree::Float(_) => None,
        TomlTree::Boolean(b) => Some(Dynamic::Bool(*b)),
        TomlTree::Datetime(d) => Some(Dynamic::Text(d.to_string())),
        TomlTree::Array(xs) => xs.iter().map(toml_tree_to_value).collect::<Option<_>>().map(Dynamic::List),
        TomlTree::Table(m) => m.iter().map(
            |(k, v)| Some((Dynamic::Text(k.clone()), toml_tree_to_value(v)?)),
        ).collect::<Option<_>>().map(Dynamic::Dict),
    }
}

/// Relies on `toml::to_string`: a deterministic compact rendering of the
/// tree, failing only as the engine decides for that tree.
#[verifier::external_body]
fn print_toml_compact(t: &serde_json::Value) -> (r: Result<String, String>)
    requires
        jv(*t) is Some,
    ensures
        match r {
            Result::Ok(s) => toml_text_compact(jv(*t)) == Option::Some(s@),
            Result::Err(_) => toml_text_compact(jv(*t)) is None,
        },
{
    match ::toml::to_string(t) {
        Ok(s) => Ok(s),
        Err(e) => Err(e.to_string()),
    }
}

/// Relies on `toml::to_string_pretty`: a deterministic indented rendering
/// of the tree, failing only as the engine decides for that tree.
#[verifier::external_body]
fn print_toml_pretty(t: &serde_json::Value) -> (r: Result<String, String>)
    requires
        jv(*t) is Some,
    ensures
        match r {
            Result::Ok(s) => toml_text_pretty(jv(*t)) == Option::Some(s@),
            Result::Err(_) => toml_text_pretty(jv(*t)) is None,
        },
{
    match ::toml::to_string_pretty(t) {
        Ok(s) => Ok(s),
        Err(e) => Err(e.to_string()),
    }
}

/// Converts sorted parsed TOML pairs into a context, tree by tree; `None`
/// exactly when some tree does not fit the dynamic model.
#[verifier::loop_isolation(false)]
fn assemble_toml_doc(pairs: Vec<(String, ::toml::Value)>) -> (r: Option<Context>)
    requires
        forall|a: int, b: int|
            0 <= a < b < pairs@.len() ==> lex_lt(pairs@[a].0@, pairs@[b].0@),
    ensures
        match r {
            Option::Some(c) => c.wf() && doc_ok(toml_pairs_doc(pairs@)) && c@ == doc_entries(
                toml_pairs_doc(pairs@),
            ),
            Option::None => !doc_ok(toml_pairs_doc(pairs@)),
        },
{
    let ghost doc = toml_pairs_doc(pairs@);
    let n = pairs.len();
    let mut out: Vec<(String, Dynamic)> = Vec::new();
    let mut i: usize = 0;
    while i < n
        invariant
            i <= n,
            n == pairs@.len(),
            out@.len() == i,
            forall|j: int| 0 <= j < i ==> (#[trigger] tv(pairs@[j].1)) is Some,
            forall|j: int| 0 <= j < i ==> (#[trigger] out@[j]).0@ == pairs@[j].0@,
            forall|j: int| 0 <= j < i ==> out@[j].1@ == (#[trigger] tv(pairs@[j].1))->Some_0,
        decreases n - i,
    {
        match toml_tree_to_value(&pairs[i].1) {
            Option::Some(v) => {
                let ghost gv = v@;
                let key = pairs[i].0.clone();
                out.push((key, v));
                proof {
                    assert(tv(pairs@[i as int].1) == Option::Some(gv));
                    assert(out@[i as int].1@ == gv);
                    assert(out@[i as int].0@ == pairs@[i as int].0@);
                }
            },
            Option::None => {
                proof {
                    assert(doc[i as int].1 is None);
                    assert(!doc_ok(doc));
                }
                return Option::None;
            },
        }
        i = i + 1;
    }
    proof {
        assert(entries_model(out@) =~= doc_entries(doc));
        assert(doc_ok(doc));
        assert(sorted_keys(entries_model(out@)));
    }
    Option::Some(Context::from_sorted_entries(out))
}

impl Context {
    /// Parses a TOML document into a context.  Succeeds exactly when the
    /// engine parses the text and every value fits the dynamic model
    /// (TOML floats do not); the context then holds exactly the
    /// document's entries, in key order, with integers as `I64`.
    pub fn from_toml(toml: &str) -> (r: Result<Context, Error>)
        ensures
            r is Ok <==> (toml_doc(toml@) is Some && doc_ok(toml_doc(toml@)->Some_0)),
            r is Ok ==> r->Ok_0.wf() && r->Ok_0@ == doc_entries(toml_doc(toml@)->Some_0),
            r is Err ==> r->Err_0 is Toml,
    {
        match parse_toml_top(toml) {
            Result::Err(m) => Result::Err(Error::Toml(m)),
            Result::Ok(pairs) => match assemble_toml_doc(pairs) {
                Option::Some(c) => Result::Ok(c),
                Option::None => Result::Err(
                    Error::Toml("invalid number: only integers are supported".to_owned()),
                ),
            },
        }
    }

    /// Serializes the context as TOML, indented when `pretty` holds and
    /// compact otherwise.  Succeeds exactly when every value pours into
    /// the native tree and the printer accepts that tree; the output is
    /// the printer's rendering of the context's tree.
    pub fn to_toml(&self, pretty: bool) -> (r: Result<String, Error>)
        requires
            self.wf(),
        ensures
            r is Ok && pretty ==> toml_text_pretty(Option::Some(ctx_tree(self@)))
                == Option::Some(r->Ok_0@),
            r is Ok && !pretty ==> toml_text_compact(Option::Some(ctx_tree(self@)))
                == Option::Some(r->Ok_0@),
            r is Ok ==> entries_norm(self@) is Some,
            pretty ==> (r is Ok <==> (entries_norm(self@) is Some && toml_text_pretty(
                Option::Some(ctx_tree(self@)),
            ) is Some)),
            !pretty ==> (r is Ok <==> (entries_norm(self@) is Some && toml_text_compact(
                Option::Some(ctx_tree(self@)),
            ) is Some)),
            r is Err ==> r->Err_0 is Toml,
    {
        match build_ctx_tree(self) {
            Option::Some(tree) => {
                let printed = if pretty {
                    print_toml_pretty(&tree)
                } else {
                    print_toml_compact(&tree)
                };
                match printed {
                    Result::Ok(s) => Result::Ok(s),
                    Result::Err(m) => Result::Err(Error::Toml(m)),
                }
            },
            Option::None => Result::Err(Error::Toml("key must be a string".to_owned())),
        }
    }
}

} // verus!
