//! The shared native-tree layer.
//!
//! Every format engine in this crate exchanges data through
//! `serde_json::Value` trees (TOML parses into its own tree, handled in the
//! TOML module).  The tree type is opaque to verification, so its content
//! is named by the uninterpreted function [`jv`], which gives the model of
//! the value a tree stands for - `None` when the tree holds something the
//! value model cannot carry (a floating-point number).  Small trusted
//! constructors build trees upward from plain data; the verified
//! [`build_tree`] assembles a whole tree from a [`Dynamic`], following the
//! normalization spelled out by [`json_norm`]; the trusted
//! [`json_tree_to_value`] walks a parsed tree back down into a [`Dynamic`].
use vstd::prelude::*;

use serde_json::Value as Jv;

use crate::context::entries_insert;
use crate::context::entries_model;
use crate::context::sorted_keys;
use crate::context::Context;
use crate::order::lex_lt;
use crate::value::lemma_pairs_model;
use crate::value::lemma_seq_model;
use crate::value::pairs_model;
use crate::value::seq_model;
use crate::value::value_model;
use crate::value::Model;
use crate::value::Dynamic;

verus! {

#[verifier::external_type_specification]
#[verifier::external_body]
pub struct ExJsonValue(serde_json::Value);

/// The model of the value a native tree stands for, or `None` when the
/// tree holds a number outside `u64`/`i64` (a floating-point number),
/// which the value model cannot carry.
pub uninterp spec fn jv(t: serde_json::Value) -> Option<Model>;

/// Dict entries with text keys, as the general pair form of the model.
pub open spec fn dict_entries(ps: Seq<(Seq<char>, Model)>) -> Seq<(Model, Model)> {
    ps.map_values(|p: (Seq<char>, Model)| (Model::Text(p.0), p.1))
}

/// The entry sequence that results from upserting the pairs in order into
/// an initially empty sorted mapping: what a tree-map assembles from them.
pub open spec fn obj_fold(ps: Seq<(Seq<char>, Model)>) -> Seq<(Seq<char>, Model)>
    decreases ps.len(),
{
    if ps.len() == 0 {
        Seq::empty()
    } else {
        entries_insert(obj_fold(ps.drop_last()), ps.last().0, ps.last().1)
    }
}

/// On entries already sorted by strictly ascending key, the fold is the
/// identity.
pub proof fn lemma_obj_fold_sorted_id(ps: Seq<(Seq<char>, Model)>)
    requires
        sorted_keys(ps),
    ensures
        obj_fold(ps) == ps,
    decreases ps.len(),
{
    if ps.len() > 0 {
        let d = ps.drop_last();
        assert forall|a: int, b: int| 0 <= a < b < d.len() implies lex_lt(d[a].0, d[b].0) by {
            assert(d[a] == ps[a]);
            assert(d[b] == ps[b]);
        }
        assert(sorted_keys(d));
        lemma_obj_fold_sorted_id(d);
        assert forall|j: int| 0 <= j < d.len() implies lex_lt(d[j].0, ps.last().0) by {
            assert(d[j] == ps[j]);
            assert(lex_lt(ps[j].0, ps[ps.len() - 1].0));
        }
        crate::context::lemma_entries_insert_splice(d, ps.last().0, ps.last().1, d.len() as int);
        assert(d.take(d.len() as int) + seq![ps.last()] + d.skip(d.len() as int) =~= ps);
    }
}

/// The JSON-ready form of a model: what the value becomes when poured into
/// a native tree.  Unsigned widths widen to `U64`; non-negative signed
/// values become `U64` and negative ones `I64` (the tree keeps only those
/// two integer kinds); a char becomes one-character text; bytes become a
/// list of numbers; `Opt`/`Unit` flatten to null and `Newtype` to its
/// content; dict keys must be text, and the entries settle into sorted
/// last-wins order.  `None` when some dict key is not text.
pub open spec fn json_norm(m: Model) -> Option<Model>
    decreases m,
{
    match m {
        Model::Null => Option::Some(Model::Null),
        Model::Bool(b) => Option::Some(Model::Bool(b)),
        Model::U8(x) => Option::Some(Model::U64(x as u64)),
        Model::U16(x) => Option::Some(Model::U64(x as u64)),
        Model::U32(x) => Option::Some(Model::U64(x as u64)),
        Model::U64(x) => Option::Some(Model::U64(x)),
        Model::I8(x) => Option::Some(
            if x >= 0 {
                Model::U64(x as u64)
            } else {
                Model::I64(x as i64)
            },
        ),
        Model::I16(x) => Option::Some(
            if x >= 0 {
                Model::U64(x as u64)
            } else {
                Model::I64(x as i64)
            },
        ),
        Model::I32(x) => Option::Some(
            if x >= 0 {
                Model::U64(x as u64)
            } else {
                Model::I64(x as i64)
            },
        ),
        Model::I64(x) => Option::Some(
            if x >= 0 {
                Model::U64(x as u64)
            } else {
                Model::I64(x)
            },
        ),
        Model::Char(c) => Option::Some(Model::Text(seq![c])),
        Model::Text(s) => Option::Some(Model::Text(s)),
        Model::Bytes(bs) => Option::Some(
            Model::List(bs.map_values(|b: u8| Model::U64(b as u64))),
        ),
        Model::List(vs) => match json_norm_seq(vs) {
            Option::Some(ns) => Option::Some(Model::List(ns)),
            Option::None => Option::None,
        },
        Model::Dict(ps) => match json_norm_dict(ps) {
            Option::Some(ns) => Option::Some(Model::Dict(dict_entries(obj_fold(ns)))),
            Option::None => Option::None,
        },
        Model::Opt(o) => match o {
            Option::None => Option::Some(Model::Null),
            Option::Some(b) => json_norm(*b),
        },
        Model::Unit => Option::Some(Model::Null),
        Model::Newtype(b) => json_norm(*b),
    }
}

/// The JSON-ready forms of a sequence of models, all or nothing.
pub open spec fn json_norm_seq(ms: Seq<Model>) -> Option<Seq<Model>>
    decreases ms,
{
    if ms.len() == 0 {
        Option::Some(Seq::empty())
    } else {
        match (json_norm_seq(ms.drop_last()), json_norm(ms.last())) {
            (Option::Some(acc), Option::Some(n)) => Option::Some(acc.push(n)),
            _ => Option::None,
        }
    }
}

/// The JSON-ready forms of dict pairs: every key must be text and every
/// value must normalize; the pairs keep their written order here.
pub open spec fn json_norm_dict(ps: Seq<(Model, Model)>) -> Option<Seq<(Seq<char>, Model)>>
    decreases ps,
{
    if ps.len() == 0 {
        Option::Some(Seq::empty())
    } else {
        match json_norm_dict(ps.drop_last()) {
            Option::None => Option::None,
            Option::Some(acc) => match ps.last().0 {
                Model::Text(ks) => match json_norm(ps.last().1) {
                    Option::Some(n) => Option::Some(acc.push((ks, n))),
                    Option::None => Option::None,
                },
                _ => Option::None,
            },
        }
    }
}

/// `json_norm_seq` normalizes element by element.
pub proof fn lemma_json_norm_seq(ms: Seq<Model>)
    ensures
        json_norm_seq(ms) is Some <==> (forall|i: int|
            0 <= i < ms.len() ==> json_norm(ms[i]) is Some),
        json_norm_seq(ms) is Some ==> json_norm_seq(ms)->Some_0.len() == ms.len() && (forall|
            i: int,
        |
            0 <= i < ms.len() ==> json_norm_seq(ms)->Some_0[i] == json_norm(ms[i])->Some_0),
    decreases ms.len(),
{
    if ms.len() > 0 {
        let d = ms.drop_last();
        lemma_json_norm_seq(d);
        assert(forall|i: int| 0 <= i < d.len() ==> d[i] == ms[i]);
        assert(ms[ms.len() - 1] == ms.last());
        if json_norm_seq(ms) is Some {
            assert forall|i: int| 0 <= i < ms.len() implies json_norm(ms[i]) is Some by {
                if i < ms.len() - 1 {
                    assert(json_norm(d[i]) is Some);
                }
            }
        }
        if forall|i: int| 0 <= i < ms.len() ==> json_norm(ms[i]) is Some {
            assert(forall|i: int| 0 <= i < d.len() ==> json_norm(d[i]) is Some);
            assert(json_norm_seq(d) is Some);
        }
    }
}

/// `json_norm_dict` normalizes pair by pair.
pub proof fn lemma_json_norm_dict(ps: Seq<(Model, Model)>)
    ensures
        json_norm_dict(ps) is Some <==> (forall|i: int|
            0 <= i < ps.len() ==> ps[i].0 is Text && json_norm(ps[i].1) is Some),
        json_norm_dict(ps) is Some ==> json_norm_dict(ps)->Some_0.len() == ps.len() && (forall|
            i: int,
        |
            0 <= i < ps.len() ==> json_norm_dict(ps)->Some_0[i] == (
                ps[i].0->Text_0,
                json_norm(ps[i].1)->Some_0,
            )),
    decreases ps.len(),
{
    if ps.len() > 0 {
        let d = ps.drop_last();
        lemma_json_norm_dict(d);
        assert(forall|i: int| 0 <= i < d.len() ==> d[i] == ps[i]);
        assert(ps[ps.len() - 1] == ps.last());
        if json_norm_dict(ps) is Some {
            assert forall|i: int|
                0 <= i < ps.len() implies ps[i].0 is Text && json_norm(ps[i].1) is Some by {
                if i < ps.len() - 1 {
                    assert(d[i].0 is Text && json_norm(d[i].1) is Some);
                }
            }
        }
        if forall|i: int| 0 <= i < ps.len() ==> ps[i].0 is Text && json_norm(ps[i].1) is Some {
            assert(forall|i: int|
                0 <= i < d.len() ==> d[i].0 is Text && json_norm(d[i].1) is Some);
            assert(json_norm_dict(d) is Some);
        }
    }
}

/// Per-entry JSON normalization of a context's entry sequence: each value
/// must normalize; keys stay as they are.
pub open spec fn entries_norm(s: Seq<(Seq<char>, Model)>) -> Option<Seq<(Seq<char>, Model)>>
    decreases s.len(),
{
    if s.len() == 0 {
        Option::Some(Seq::empty())
    } else {
        match (entries_norm(s.drop_last()), json_norm(s.last().1)) {
            (Option::Some(acc), Option::Some(n)) => Option::Some(acc.push((s.last().0, n))),
            _ => Option::None,
        }
    }
}

/// `entries_norm` normalizes entry by entry and keeps the keys.
pub proof fn lemma_entries_norm(s: Seq<(Seq<char>, Model)>)
    ensures
        entries_norm(s) is Some <==> (forall|i: int|
            0 <= i < s.len() ==> json_norm(s[i].1) is Some),
        entries_norm(s) is Some ==> entries_norm(s)->Some_0.len() == s.len() && (forall|i: int|
            0 <= i < s.len() ==> entries_norm(s)->Some_0[i] == (
                s[i].0,
                json_norm(s[i].1)->Some_0,
            )),
    decreases s.len(),
{
    if s.len() > 0 {
        let d = s.drop_last();
        lemma_entries_norm(d);
        assert(forall|i: int| 0 <= i < d.len() ==> d[i] == s[i]);
        assert(s[s.len() - 1] == s.last());
        if entries_norm(s) is Some {
            assert forall|i: int| 0 <= i < s.len() implies json_norm(s[i].1) is Some by {
                if i < s.len() - 1 {
                    assert(json_norm(d[i].1) is Some);
                }
            }
        }
        if forall|i: int| 0 <= i < s.len() ==> json_norm(s[i].1) is Some {
            assert(forall|i: int| 0 <= i < d.len() ==> json_norm(d[i].1) is Some);
            assert(entries_norm(d) is Some);
        }
    }
}

/// The native tree a whole context pours into: one object entry per
/// context entry, in the context's own key order.  Meaningful when
/// `entries_norm` succeeds on the entries.
pub open spec fn ctx_tree(s: Seq<(Seq<char>, Model)>) -> Model {
    Model::Dict(dict_entries(entries_norm(s)->Some_0))
}

/// A parsed top-level document: every entry value converted.
pub open spec fn doc_ok(es: Seq<(Seq<char>, Option<Model>)>) -> bool {
    forall|i: int| 0 <= i < es.len() ==> es[i].1 is Some
}

/// The entries of a parsed document whose values all converted.
pub open spec fn doc_entries(es: Seq<(Seq<char>, Option<Model>)>) -> Seq<(Seq<char>, Model)> {
    es.map_values(|p: (Seq<char>, Option<Model>)| (p.0, p.1->Some_0))
}

/// Relies on `serde_json::Value::Null`: the null tree.
#[verifier::external_body]
pub(crate) fn jv_null() -> (t: serde_json::Value)
    ensures
        jv(t) == Option::Some(Model::Null),
{
    serde_json::Value::Null
}

/// Relies on `serde_json::Value::Bool`: the boolean tree.
#[verifier::external_body]
pub(crate) fn jv_bool(b: bool) -> (t: serde_json::Value)
    ensures
        jv(t) == Option::Some(Model::Bool(b)),
{
    serde_json::Value::Bool(b)
}

/// Relies on `serde_json::Number::from(u64)`: the number tree for an
/// unsigned integer, which reads back through `Number::as_u64`.
#[verifier::external_body]
pub(crate) fn jv_u64(x: u64) -> (t: serde_json::Value)
    ensures
        jv(t) == Option::Some(Model::U64(x)),
{
    serde_json::Value::Number(serde_json::Number::from(x))
}

/// Relies on `serde_json::Number::from(i64)`: it stores a non-negative
/// argument as an unsigned number (so it reads back through `as_u64`) and
/// a negative one as a signed number.
#[verifier::external_body]
pub(crate) fn jv_i64(x: i64) -> (t: serde_json::Value)
    ensures
        jv(t) == Option::Some(
            if x >= 0 {
                Model::U64(x as u64)
            } else {
                Model::I64(x)
            },
        ),
{
    serde_json::Value::Number(serde_json::Number::from(x))
}

/// Relies on `serde_json::Value::String` and `String::from(char)`: the
/// one-character text tree.
#[verifier::external_body]
pub(crate) fn jv_char(c: char) -> (t: serde_json::Value)
    ensures
        jv(t) == Option::Some(Model::Text(seq![c])),
{
    serde_json::Value::String(String::from(c))
}

/// Relies on `serde_json::Value::String`: the text tree.
#[verifier::external_body]
pub(crate) fn jv_text(s: &str) -> (t: serde_json::Value)
    ensures
        jv(t) == Option::Some(Model::Text(s@)),
{
    serde_json::Value::String(s.to_owned())
}

/// Relies on `serde_json::Value::Array`: the array tree holds exactly the
/// given elements in order.
#[verifier::external_body]
pub(crate) fn jv_arr(xs: Vec<serde_json::Value>) -> (t: serde_json::Value)
    requires
        forall|i: int| 0 <= i < xs@.len() ==> jv(xs@[i]) is Some,
    ensures
        jv(t) == Option::Some(
            Model::List(xs@.map_values(|x: serde_json::Value| jv(x)->Some_0)),
        ),
{
    serde_json::Value::Array(xs)
}

/// Relies on `serde_json::Map` collecting its `(String, Value)` pairs the way
/// a `BTreeMap` does: later pairs overwrite earlier ones under an equal
/// key, and entries read back in ascending key order - the fold that
/// `obj_fold` states.
#[verifier::external_body]
pub(crate) fn jv_obj(entries: Vec<(String, serde_json::Value)>) -> (t: serde_json::Value)
    requires
        forall|i: int| 0 <= i < entries@.len() ==> jv(entries@[i].1) is Some,
    ensures
        jv(t) == Option::Some(
            Model::Dict(
                dict_entries(
                    obj_fold(
                        entries@.map_values(
                            |p: (String, serde_json::Value)| (p.0@, jv(p.1)->Some_0),
                        ),
                    ),
                ),
            ),
        ),
{
    serde_json::Value::Object(entries.into_iter().collect())
}

/// Relies on `serde_json::Value`'s variant structure and on
/// `Number::as_u64`/`as_i64`: converts a parsed tree into the library's
/// own value, one variant for one variant, failing exactly where the tree
/// holds a number that is neither `u64` nor `i64` (a float).  Objects read
/// out in ascending key order, matching the model `jv` assigns them.
#[verifier::external_body]
pub(crate) fn json_tree_to_value(t: &serde_json::Value) -> (r: Option<Dynamic>)
    ensures
        match r {
            Option::Some(v) => jv(*t) == Option::Some(v@),
            Option::None => jv(*t) is None,
        },
{
    match t {
        Jv::Null => Some(Dynamic::Null),
        Jv::Bool(b) => Some(Dynamic::Bool(*b)),
        Jv::Number(n) => n.as_u64().map(Dynamic::U64).or_else(|| n.as_i64().map(Dynamic::I64)),
        Jv::String(s) => Some(Dynamic::Text(s.clone())),
        Jv::Array(xs) => xs.iter().map(json_tree_to_value).collect::<Option<_>>().map(Dynamic::List),
        Jv::Object(m) => m.iter().map(
            |(k, v)| Some((Dynamic::Text(k.clone()), json_tree_to_value(v)?)),
        ).collect::<Option<_>>().map(Dynamic::Dict),
    }
}

/// Pours a value into a native tree, normalizing as [`json_norm`] states;
/// `None` exactly when the value contains a dict whose key is not text.
#[verifier::loop_isolation(false)]
pub fn build_tree(v: &Dynamic) -> (r: Option<serde_json::Value>)
    ensures
        match r {
            Option::Some(t) => jv(t) == json_norm(v@) && json_norm(v@) is Some,
            Option::None => json_norm(v@) is None,
        },
    decreases v,
{
    match v {
        Dynamic::Null => Option::Some(jv_null()),
        Dynamic::Bool(b) => Option::Some(jv_bool(*b)),
        Dynamic::U8(x) => Option::Some(jv_u64(*x as u64)),
        Dynamic::U16(x) => Option::Some(jv_u64(*x as u64)),
        Dynamic::U32(x) => Option::Some(jv_u64(*x as u64)),
        Dynamic::U64(x) => Option::Some(jv_u64(*x)),
        Dynamic::I8(x) => Option::Some(jv_i64(*x as i64)),
        Dynamic::I16(x) => Option::Some(jv_i64(*x as i64)),
        Dynamic::I32(x) => Option::Some(jv_i64(*x as i64)),
        Dynamic::I64(x) => Option::Some(jv_i64(*x)),
        Dynamic::Char(c) => Option::Some(jv_char(*c)),
        Dynamic::Text(s) => Option::Some(jv_text(s.as_str())),
        Dynamic::Bytes(bs) => {
            let mut out: Vec<serde_json::Value> = Vec::new();
            let mut i: usize = 0;
            while i < bs.len()
                invariant
                    i <= bs@.len(),
                    out@.len() == i,
                    forall|j: int|
                        0 <= j < i ==> jv(out@[j]) == Option::Some(Model::U64(bs@[j] as u64)),
                decreases bs@.len() - i,
            {
                let b = bs[i];
                out.push(jv_u64(b as u64));
                i = i + 1;
            }
            let t = jv_arr(out);
            proof {
                assert(out@.map_values(|x: serde_json::Value| jv(x)->Some_0) =~= bs@.map_values(
                    |b: u8| Model::U64(b as u64),
                ));
            }
            Option::Some(t)
        },
        Dynamic::List(vs) => {
            proof {
                lemma_seq_model(vs@);
            }
            let ghost ms = seq_model(vs@);
            let mut out: Vec<serde_json::Value> = Vec::new();
            let mut i: usize = 0;
            let n = vs.len();
            while i < n
                invariant
                    i <= n,
                    n == vs@.len(),
                    out@.len() == i,
                    ms == seq_model(vs@),
                    ms.len() == vs@.len(),
                    forall|j: int| 0 <= j < vs@.len() ==> ms[j] == value_model(vs@[j]),
                    forall|j: int| 0 <= j < i ==> (#[trigger] json_norm(ms[j])) is Some,
                    forall|j: int| 0 <= j < i ==> #[trigger] jv(out@[j]) == json_norm(ms[j]),
                decreases n - i,
            {
                proof {
                    assert(*v == Dynamic::List(*vs));
                    assert(decreases_to!(*v => *vs));
                    assert(decreases_to!(*vs => vs@));
                    assert(decreases_to!(vs@ => vs@[i as int]));
                }
                match build_tree(&vs[i]) {
                    Option::Some(t) => {
                        out.push(t);
                    },
                    Option::None => {
                        proof {
                            lemma_json_norm_seq(ms);
                            assert(json_norm(ms[i as int]) is None);
                            assert(json_norm_seq(ms) is None);
                            assert(v@ == Model::List(ms));
                            assert(json_norm(Model::List(ms)) is None);
                        }
                        return Option::None;
                    },
                }
                i = i + 1;
            }
            proof {
                lemma_json_norm_seq(ms);
                assert forall|j: int| 0 <= j < out@.len() implies (#[trigger] jv(out@[j]))
                    is Some by {
                    assert(json_norm(ms[j]) is Some);
                    assert(jv(out@[j]) == json_norm(ms[j]));
                }
            }
            let t = jv_arr(out);
            proof {
                assert(out@.map_values(|x: serde_json::Value| jv(x)->Some_0) =~= json_norm_seq(
                    ms,
                )->Some_0);
            }
            Option::Some(t)
        },
        Dynamic::Dict(ps) => {
            proof {
                lemma_pairs_model(ps@);
            }
            let ghost ms = pairs_model(ps@);
            let mut out: Vec<(String, serde_json::Value)> = Vec::new();
            let mut i: usize = 0;
            let n = ps.len();
            while i < n
                invariant
                    i <= n,
                    n == ps@.len(),
                    out@.len() == i,
                    ms == pairs_model(ps@),
                    ms.len() == ps@.len(),
                    forall|j: int|
                        0 <= j < ps@.len() ==> ms[j] == (
                            value_model(ps@[j].0),
                            value_model(ps@[j].1),
                        ),
                    forall|j: int|
                        0 <= j < i ==> ms[j].0 is Text && (#[trigger] json_norm(ms[j].1)) is Some,
                    forall|j: int|
                        0 <= j < i ==> (#[trigger] out@[j]).0@ == ms[j].0->Text_0,
                    forall|j: int|
                        0 <= j < i ==> #[trigger] jv(out@[j].1) == json_norm(ms[j].1),
                decreases n - i,
            {
                proof {
                    assert(*v == Dynamic::Dict(*ps));
                    assert(decreases_to!(*v => *ps));
                    assert(decreases_to!(*ps => ps@));
                    assert(decreases_to!(ps@ => ps@[i as int]));
                }
                match &ps[i].0 {
                    Dynamic::Text(ks) => {
                        match build_tree(&ps[i].1) {
                            Option::Some(t) => {
                                let ghost gt = jv(t);
                                out.push((ks.clone(), t));
                                proof {
                                    assert(jv(out@[i as int].1) == gt);
                                    assert(out@[i as int].0@ == ks@);
                                }
                            },
                            Option::None => {
                                proof {
                                    lemma_json_norm_dict(ms);
                                    assert(json_norm(ms[i as int].1) is None);
                                    assert(json_norm_dict(ms) is None);
                                    assert(v@ == Model::Dict(ms));
                                }
                                return Option::None;
                            },
                        }
                    },
                    _ => {
                        proof {
                            lemma_json_norm_dict(ms);
                            crate::value::lemma_value_model_text(ps@[i as int].0);
                            assert(!(ms[i as int].0 is Text));
                            assert(json_norm_dict(ms) is None);
                            assert(v@ == Model::Dict(ms));
                        }
                        return Option::None;
                    },
                }
                i = i + 1;
            }
            proof {
                lemma_json_norm_dict(ms);
                assert forall|j: int| 0 <= j < out@.len() implies (#[trigger] jv(out@[j].1))
                    is Some by {
                    assert(json_norm(ms[j].1) is Some);
                    assert(jv(out@[j].1) == json_norm(ms[j].1));
                }
            }
            let t = jv_obj(out);
            proof {
                assert(out@.map_values(|p: (String, serde_json::Value)| (p.0@, jv(p.1)->Some_0))
                    =~= json_norm_dict(ms)->Some_0);
            }
            Option::Some(t)
        },
        Dynamic::Opt(o) => match o {
            Option::None => Option::Some(jv_null()),
            Option::Some(b) => build_tree(&**b),
        },
        Dynamic::Unit => Option::Some(jv_null()),
        Dynamic::Newtype(b) => build_tree(&**b),
    }
}


/// The parsed top-level pairs, seen as a document: each key with the
/// content of its tree.
pub open spec fn pairs_doc(s: Seq<(String, serde_json::Value)>) -> Seq<
    (Seq<char>, Option<Model>),
> {
    s.map_values(|p: (String, serde_json::Value)| (p.0@, jv(p.1)))
}

/// Converts sorted parsed pairs into a context, tree by tree; `None`
/// exactly when some tree does not fit the dynamic model.
#[verifier::loop_isolation(false)]
pub(crate) fn assemble_doc(pairs: Vec<(String, serde_json::Value)>) -> (r: Option<Context>)
    requires
        forall|a: int, b: int|
            0 <= a < b < pairs@.len() ==> lex_lt(pairs@[a].0@, pairs@[b].0@),
    ensures
        match r {
            Option::Some(c) => c.wf() && doc_ok(pairs_doc(pairs@)) && c@ == doc_entries(
                pairs_doc(pairs@),
            ),
            Option::None => !doc_ok(pairs_doc(pairs@)),
        },
{
    let ghost doc = pairs_doc(pairs@);
    let n = pairs.len();
    let mut out: Vec<(String, Dynamic)> = Vec::new();
    let mut i: usize = 0;
    while i < n
        invariant
            i <= n,
            n == pairs@.len(),
            out@.len() == i,
            forall|j: int| 0 <= j < i ==> (#[trigger] jv(pairs@[j].1)) is Some,
            forall|j: int| 0 <= j < i ==> (#[trigger] out@[j]).0@ == pairs@[j].0@,
            forall|j: int| 0 <= j < i ==> out@[j].1@ == (#[trigger] jv(pairs@[j].1))->Some_0,
        decreases n - i,
    {
        match json_tree_to_value(&pairs[i].1) {
            Option::Some(v) => {
                let ghost gv = v@;
                let key = pairs[i].0.clone();
                out.push((key, v));
                proof {
                    assert(jv(pairs@[i as int].1) == Option::Some(gv));
                    assert(out@[i as int].1@ == gv);
                    assert(out@[i as int].0@ == pairs@[i as int].0@);
                }
            },
            Option::None => {
                proof {
                    assert(doc[i as int].1 is None);
                    assert(!doc_ok(doc));
                }
                return Option::None;
            },
        }
        i = i + 1;
    }
    proof {
        assert(entries_model(out@) =~= doc_entries(doc));
        assert(doc_ok(doc));
        assert(sorted_keys(entries_model(out@)));
    }
    Option::Some(Context::from_sorted_entries(out))
}

/// Pours a whole context into one native object tree, one entry per
/// context entry in key order; `None` exactly when some value does not
/// normalize (a nested dict key is not text).
#[verifier::loop_isolation(false)]
pub(crate) fn build_ctx_tree(c: &Context) -> (r: Option<serde_json::Value>)
    requires
        c.wf(),
    ensures
        match r {
            Option::Some(t) => entries_norm(c@) is Some && jv(t) == Option::Some(ctx_tree(c@)),
            Option::None => entries_norm(c@) is None,
        },
{
    let es = c.entries();
    let n = es.len();
    let mut out: Vec<(String, serde_json::Value)> = Vec::new();
    let mut i: usize = 0;
    proof {
        assert(entries_model(es@) == c@);
    }
    while i < n
        invariant
            i <= n,
            n == es@.len(),
            out@.len() == i,
            c@.len() == n,
            forall|j: int| 0 <= j < i ==> (#[trigger] json_norm(c@[j].1)) is Some,
            forall|j: int| 0 <= j < i ==> (#[trigger] out@[j]).0@ == c@[j].0,
            forall|j: int| 0 <= j < i ==> jv(out@[j].1) == (#[trigger] json_norm(c@[j].1)),
        decreases n - i,
    {
        proof {
            assert(c@[i as int] == (es@[i as int].0@, es@[i as int].1@));
        }
        match build_tree(&es[i].1) {
            Option::Some(t) => {
                let ghost gt = jv(t);
                let key = es[i].0.clone();
                out.push((key, t));
                proof {
                    assert(gt == json_norm(c@[i as int].1));
                    assert(jv(out@[i as int].1) == gt);
                    assert(out@[i as int].0@ == c@[i as int].0);
                }
            },
            Option::None => {
                proof {
                    lemma_entries_norm(c@);
                    assert(json_norm(c@[i as int].1) is None);
                }
                return Option::None;
            },
        }
        i = i + 1;
    }
    proof {
        lemma_entries_norm(c@);
        assert(entries_norm(c@) is Some);
    }
    let ghost norm = entries_norm(c@)->Some_0;
    proof {
        assert forall|j: int| 0 <= j < out@.len() implies (#[trigger] jv(out@[j].1)) is Some by {
            assert(json_norm(c@[j].1) is Some);
            assert(jv(out@[j].1) == json_norm(c@[j].1));
        }
    }
    let t = jv_obj(out);
    proof {
        let mapped = out@.map_values(|p: (String, serde_json::Value)| (p.0@, jv(p.1)->Some_0));
        assert(mapped =~= norm);
        assert forall|a: int, b: int| 0 <= a < b < norm.len() implies lex_lt(
            norm[a].0,
            norm[b].0,
        ) by {
            assert(norm[a].0 == c@[a].0 && norm[b].0 == c@[b].0);
        }
        assert(sorted_keys(norm));
        lemma_obj_fold_sorted_id(norm);
    }
    Option::Some(t)
}

} // verus!
