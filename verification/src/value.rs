//! The dynamic tagged value type.
//!
//! [`Dynamic`] is the closed union that every supported format parses into and
//! serializes from.  Its mathematical shape is [`Model`], a ghost mirror in
//! which text is a `Seq<char>`, byte strings are `Seq<u8>` and the composite
//! variants hold sequences of models; contracts throughout the crate speak
//! of values through this view.  Floating-point numbers have no variant:
//! verified code cannot carry them, and the format bridges reject documents
//! that contain one.
use vstd::prelude::*;

use crate::order::lemma_lex_cmp_eq;
use crate::order::lemma_lex_cmp_from_refl;
use crate::order::str_three_way;

verus! {

/// A dynamic datum of any supported format: a scalar, a piece of text, a
/// byte string, or an ordered composite of further values.
#[derive(Debug)]
pub enum Dynamic {
    /// The absence of a value.
    Null,
    /// A boolean.
    Bool(bool),
    /// An 8-bit unsigned integer.
    U8(u8),
    /// A 16-bit unsigned integer.
    U16(u16),
    /// A 32-bit unsigned integer.
    U32(u32),
    /// A 64-bit unsigned integer.
    U64(u64),
    /// An 8-bit signed integer.
    I8(i8),
    /// A 16-bit signed integer.
    I16(i16),
    /// A 32-bit signed integer.
    I32(i32),
    /// A 64-bit signed integer.
    I64(i64),
    /// A single Unicode scalar.
    Char(char),
    /// A piece of text.
    Text(String),
    /// A raw byte string.
    Bytes(Vec<u8>),
    /// An ordered sequence of values.
    List(Vec<Dynamic>),
    /// An ordered mapping; keys need not be text.
    Dict(Vec<(Dynamic, Dynamic)>),
    /// An optional value.
    Opt(Option<Box<Dynamic>>),
    /// The unit value.
    Unit,
    /// A value wrapped under a single-field constructor.
    Newtype(Box<Dynamic>),
}

/// The mathematical shape of a [`Dynamic`]: one variant for one variant, with
/// owned text and collections replaced by their sequence views.
pub enum Model {
    /// The absence of a value.
    Null,
    /// A boolean.
    Bool(bool),
    /// An 8-bit unsigned integer.
    U8(u8),
    /// A 16-bit unsigned integer.
    U16(u16),
    /// A 32-bit unsigned integer.
    U32(u32),
    /// A 64-bit unsigned integer.
    U64(u64),
    /// An 8-bit signed integer.
    I8(i8),
    /// A 16-bit signed integer.
    I16(i16),
    /// A 32-bit signed integer.
    I32(i32),
    /// A 64-bit signed integer.
    I64(i64),
    /// A single Unicode scalar.
    Char(char),
    /// A piece of text.
    Text(Seq<char>),
    /// A raw byte string.
    Bytes(Seq<u8>),
    /// An ordered sequence of values.
    List(Seq<Model>),
    /// An ordered mapping; keys need not be text.
    Dict(Seq<(Model, Model)>),
    /// An optional value.
    Opt(Option<Box<Model>>),
    /// The unit value.
    Unit,
    /// A value wrapped under a single-field constructor.
    Newtype(Box<Model>),
}

/// The model of a single value.
pub open spec fn value_model(v: Dynamic) -> Model
    decreases v,
{
    match v {
        Dynamic::Null => Model::Null,
        Dynamic::Bool(b) => Model::Bool(b),
        Dynamic::U8(x) => Model::U8(x),
        Dynamic::U16(x) => Model::U16(x),
        Dynamic::U32(x) => Model::U32(x),
        Dynamic::U64(x) => Model::U64(x),
        Dynamic::I8(x) => Model::I8(x),
        Dynamic::I16(x) => Model::I16(x),
        Dynamic::I32(x) => Model::I32(x),
        Dynamic::I64(x) => Model::I64(x),
        Dynamic::Char(c) => Model::Char(c),
        Dynamic::Text(s) => Model::Text(s@),
        Dynamic::Bytes(b) => Model::Bytes(b@),
        Dynamic::List(vs) => Model::List(seq_model(vs@)),
        Dynamic::Dict(ps) => Model::Dict(pairs_model(ps@)),
        Dynamic::Opt(o) => match o {
            Option::None => Model::Opt(Option::None),
            Option::Some(b) => Model::Opt(Option::Some(Box::new(value_model(*b)))),
        },
        Dynamic::Unit => Model::Unit,
        Dynamic::Newtype(b) => Model::Newtype(Box::new(value_model(*b))),
    }
}

/// The models of a sequence of values, element by element.
pub open spec fn seq_model(vs: Seq<Dynamic>) -> Seq<Model>
    decreases vs,
{
    if vs.len() == 0 {
        Seq::empty()
    } else {
        seq_model(vs.drop_last()).push(value_model(vs.last()))
    }
}

/// The models of a sequence of key-value pairs, element by element.
pub open spec fn pairs_model(ps: Seq<(Dynamic, Dynamic)>) -> Seq<(Model, Model)>
    decreases ps,
{
    if ps.len() == 0 {
        Seq::empty()
    } else {
        pairs_model(ps.drop_last()).push(
            (value_model(ps.last().0), value_model(ps.last().1)),
        )
    }
}

/// Only a text value models as text.
pub proof fn lemma_value_model_text(v: Dynamic)
    ensures
        (value_model(v) is Text) == (v is Text),
{
    match v {
        Dynamic::Null => {},
        Dynamic::Bool(_) => {},
        Dynamic::U8(_) => {},
        Dynamic::U16(_) => {},
        Dynamic::U32(_) => {},
        Dynamic::U64(_) => {},
        Dynamic::I8(_) => {},
        Dynamic::I16(_) => {},
        Dynamic::I32(_) => {},
        Dynamic::I64(_) => {},
        Dynamic::Char(_) => {},
        Dynamic::Text(_) => {},
        Dynamic::Bytes(_) => {},
        Dynamic::List(_) => {},
        Dynamic::Dict(_) => {},
        Dynamic::Opt(_) => {},
        Dynamic::Unit => {},
        Dynamic::Newtype(_) => {},
    }
}

/// The rank of a value's variant in the total ordering: a value of a
/// lower-ranked variant sorts before every value of a higher-ranked one,
/// following the declaration order of the variants.
pub open spec fn rank(m: Model) -> int {
    match m {
        Model::Null => 0,
        Model::Bool(_) => 1,
        Model::U8(_) => 2,
        Model::U16(_) => 3,
        Model::U32(_) => 4,
        Model::U64(_) => 5,
        Model::I8(_) => 6,
        Model::I16(_) => 7,
        Model::I32(_) => 8,
        Model::I64(_) => 9,
        Model::Char(_) => 10,
        Model::Text(_) => 11,
        Model::Bytes(_) => 12,
        Model::List(_) => 13,
        Model::Dict(_) => 14,
        Model::Opt(_) => 15,
        Model::Unit => 16,
        Model::Newtype(_) => 17,
    }
}

/// The sign of an integer difference: the three-way outcome of a numeric
/// comparison.
pub open spec fn int_sign(d: int) -> int {
    if d < 0 {
        -1
    } else if d > 0 {
        1
    } else {
        0
    }
}

/// Three-way lexicographic comparison of two byte sequences.
pub open spec fn bytes_cmp(a: Seq<u8>, b: Seq<u8>) -> int
    decreases a,
{
    if a.len() == 0 && b.len() == 0 {
        0
    } else if a.len() == 0 {
        -1
    } else if b.len() == 0 {
        1
    } else if a[0] != b[0] {
        int_sign(a[0] - b[0])
    } else {
        bytes_cmp(a.drop_first(), b.drop_first())
    }
}

/// Three-way comparison of two values, total over all variant pairs:
/// values of different variants order by [`rank`]; within a variant,
/// scalars order by value, text lexicographically by Unicode scalars,
/// and composites lexicographically element by element.
pub open spec fn model_cmp(a: Model, b: Model) -> int
    decreases a,
{
    if rank(a) != rank(b) {
        if rank(a) < rank(b) {
            -1
        } else {
            1
        }
    } else {
        match (a, b) {
            (Model::Bool(x), Model::Bool(y)) => if x == y {
                0
            } else if y {
                -1
            } else {
                1
            },
            (Model::U8(x), Model::U8(y)) => int_sign(x - y),
            (Model::U16(x), Model::U16(y)) => int_sign(x - y),
            (Model::U32(x), Model::U32(y)) => int_sign(x - y),
            (Model::U64(x), Model::U64(y)) => int_sign(x - y),
            (Model::I8(x), Model::I8(y)) => int_sign(x - y),
            (Model::I16(x), Model::I16(y)) => int_sign(x - y),
            (Model::I32(x), Model::I32(y)) => int_sign(x - y),
            (Model::I64(x), Model::I64(y)) => int_sign(x - y),
            (Model::Char(x), Model::Char(y)) => int_sign((x as u32) - (y as u32)),
            (Model::Text(x), Model::Text(y)) => crate::order::lex_cmp(x, y),
            (Model::Bytes(x), Model::Bytes(y)) => bytes_cmp(x, y),
            (Model::List(x), Model::List(y)) => models_cmp(x, y),
            (Model::Dict(x), Model::Dict(y)) => model_pairs_cmp(x, y),
            (Model::Opt(x), Model::Opt(y)) => match (x, y) {
                (Option::None, Option::None) => 0,
                (Option::None, Option::Some(_)) => -1,
                (Option::Some(_), Option::None) => 1,
                (Option::Some(bx), Option::Some(by)) => model_cmp(*bx, *by),
            },
            (Model::Newtype(bx), Model::Newtype(by)) => model_cmp(*bx, *by),
            _ => 0,
        }
    }
}

/// Three-way lexicographic comparison of two model sequences.
pub open spec fn models_cmp(a: Seq<Model>, b: Seq<Model>) -> int
    decreases a,
{
    if a.len() == 0 && b.len() == 0 {
        0
    } else if a.len() == 0 {
        -1
    } else if b.len() == 0 {
        1
    } else if model_cmp(a[0], b[0]) != 0 {
        model_cmp(a[0], b[0])
    } else {
        models_cmp(a.drop_first(), b.drop_first())
    }
}

/// Three-way lexicographic comparison of two pair sequences: each pair
/// compares by key, then by value.
pub open spec fn model_pairs_cmp(a: Seq<(Model, Model)>, b: Seq<(Model, Model)>) -> int
    decreases a,
{
    if a.len() == 0 && b.len() == 0 {
        0
    } else if a.len() == 0 {
        -1
    } else if b.len() == 0 {
        1
    } else if model_cmp(a[0].0, b[0].0) != 0 {
        model_cmp(a[0].0, b[0].0)
    } else if model_cmp(a[0].1, b[0].1) != 0 {
        model_cmp(a[0].1, b[0].1)
    } else {
        model_pairs_cmp(a.drop_first(), b.drop_first())
    }
}

/// Two byte sequences compare as zero exactly when they are equal.
pub proof fn lemma_bytes_cmp_eq(a: Seq<u8>, b: Seq<u8>)
    ensures
        (bytes_cmp(a, b) == 0) <==> (a == b),
    decreases a,
{
    if a.len() > 0 && b.len() > 0 && a[0] == b[0] {
        lemma_bytes_cmp_eq(a.drop_first(), b.drop_first());
        if bytes_cmp(a, b) == 0 {
            assert forall|i: int| 0 <= i < a.len() implies a[i] == b[i] by {
                if i > 0 {
                    assert(a[i] == a.drop_first()[i - 1]);
                    assert(b[i] == b.drop_first()[i - 1]);
                }
            }
            assert(a =~= b);
        }
        if a == b {
            assert(a.drop_first() == b.drop_first());
        }
    } else if a.len() == 0 && b.len() == 0 {
        assert(a =~= b);
    }
}

/// Two values compare as zero exactly when they are equal: the total
/// order refines structural equality, which makes a value fit to serve
/// as a map key.
pub proof fn lemma_model_cmp_eq(a: Model, b: Model)
    ensures
        (model_cmp(a, b) == 0) <==> (a == b),
    decreases a,
{
    if rank(a) == rank(b) {
        match (a, b) {
            (Model::Char(x), Model::Char(y)) => {
                if (x as u32) == (y as u32) {
                    vstd::utf8::char_u32_cast(x, x as u32);
                    vstd::utf8::char_u32_cast(y, y as u32);
                }
            },
            (Model::Text(x), Model::Text(y)) => {
                if crate::order::lex_cmp(x, y) == 0 {
                    lemma_lex_cmp_eq(x, y);
                }
                if x == y {
                    lemma_lex_cmp_from_refl(x, 0);
                }
            },
            (Model::Bytes(x), Model::Bytes(y)) => {
                lemma_bytes_cmp_eq(x, y);
            },
            (Model::List(x), Model::List(y)) => {
                lemma_models_cmp_eq(x, y);
            },
            (Model::Dict(x), Model::Dict(y)) => {
                lemma_model_pairs_cmp_eq(x, y);
            },
            (Model::Opt(x), Model::Opt(y)) => {
                if x is Some && y is Some {
                    lemma_model_cmp_eq(*x->0, *y->0);
                }
            },
            (Model::Newtype(x), Model::Newtype(y)) => {
                lemma_model_cmp_eq(*x, *y);
            },
            _ => {},
        }
    }
}

/// Two model sequences compare as zero exactly when they are equal.
pub proof fn lemma_models_cmp_eq(a: Seq<Model>, b: Seq<Model>)
    ensures
        (models_cmp(a, b) == 0) <==> (a == b),
    decreases a,
{
    if a.len() > 0 && b.len() > 0 {
        lemma_model_cmp_eq(a[0], b[0]);
        if model_cmp(a[0], b[0]) == 0 {
            lemma_models_cmp_eq(a.drop_first(), b.drop_first());
            if models_cmp(a, b) == 0 {
                assert forall|i: int| 0 <= i < a.len() implies a[i] == b[i] by {
                    if i > 0 {
                        assert(a[i] == a.drop_first()[i - 1]);
                        assert(b[i] == b.drop_first()[i - 1]);
                    }
                }
                assert(a =~= b);
            }
            if a == b {
                assert(a.drop_first() == b.drop_first());
            }
        }
    } else if a.len() == 0 && b.len() == 0 {
        assert(a =~= b);
    }
}

/// Two pair sequences compare as zero exactly when they are equal.
pub proof fn lemma_model_pairs_cmp_eq(a: Seq<(Model, Model)>, b: Seq<(Model, Model)>)
    ensures
        (model_pairs_cmp(a, b) == 0) <==> (a == b),
    decreases a,
{
    if a.len() > 0 && b.len() > 0 {
        lemma_model_cmp_eq(a[0].0, b[0].0);
        lemma_model_cmp_eq(a[0].1, b[0].1);
        if model_cmp(a[0].0, b[0].0) == 0 && model_cmp(a[0].1, b[0].1) == 0 {
            lemma_model_pairs_cmp_eq(a.drop_first(), b.drop_first());
            if model_pairs_cmp(a, b) == 0 {
                assert forall|i: int| 0 <= i < a.len() implies a[i] == b[i] by {
                    if i > 0 {
                        assert(a[i] == a.drop_first()[i - 1]);
                        assert(b[i] == b.drop_first()[i - 1]);
                    } else {
                        assert(a[0] == (a[0].0, a[0].1));
                        assert(b[0] == (b[0].0, b[0].1));
                    }
                }
                assert(a =~= b);
            }
            if a == b {
                assert(a.drop_first() == b.drop_first());
            }
        }
    } else if a.len() == 0 && b.len() == 0 {
        assert(a =~= b);
    }
}

impl View for Dynamic {
    type V = Model;

    open spec fn view(&self) -> Model {
        value_model(*self)
    }
}

/// `seq_model` maps the sequence element by element.
pub proof fn lemma_seq_model(vs: Seq<Dynamic>)
    ensures
        seq_model(vs).len() == vs.len(),
        forall|i: int| 0 <= i < vs.len() ==> seq_model(vs)[i] == value_model(vs[i]),
    decreases vs.len(),
{
    if vs.len() > 0 {
        lemma_seq_model(vs.drop_last());
    }
}

/// `pairs_model` maps the sequence element by element.
pub proof fn lemma_pairs_model(ps: Seq<(Dynamic, Dynamic)>)
    ensures
        pairs_model(ps).len() == ps.len(),
        forall|i: int|
            0 <= i < ps.len() ==> pairs_model(ps)[i] == (
                value_model(ps[i].0),
                value_model(ps[i].1),
            ),
    decreases ps.len(),
{
    if ps.len() > 0 {
        lemma_pairs_model(ps.drop_last());
    }
}

impl Dynamic {
    /// Structural equality, defined recursively over the variants: two
    /// values are equal exactly when their models are.
    #[verifier::loop_isolation(false)]
    pub fn deep_eq(&self, other: &Dynamic) -> (r: bool)
        ensures
            r == (self@ == other@),
        decreases self,
    {
        match (self, other) {
            (Dynamic::Null, Dynamic::Null) => true,
            (Dynamic::Bool(a), Dynamic::Bool(b)) => a == b,
            (Dynamic::U8(a), Dynamic::U8(b)) => a == b,
            (Dynamic::U16(a), Dynamic::U16(b)) => a == b,
            (Dynamic::U32(a), Dynamic::U32(b)) => a == b,
            (Dynamic::U64(a), Dynamic::U64(b)) => a == b,
            (Dynamic::I8(a), Dynamic::I8(b)) => a == b,
            (Dynamic::I16(a), Dynamic::I16(b)) => a == b,
            (Dynamic::I32(a), Dynamic::I32(b)) => a == b,
            (Dynamic::I64(a), Dynamic::I64(b)) => a == b,
            (Dynamic::Char(a), Dynamic::Char(b)) => {
                let x: u32 = *a as u32;
                let y: u32 = *b as u32;
                proof {
                    if x == y {
                        vstd::utf8::char_u32_cast(*a, x);
                        vstd::utf8::char_u32_cast(*b, y);
                    }
                }
                x == y
            },
            (Dynamic::Text(a), Dynamic::Text(b)) => {
                let c = str_three_way(a.as_str(), b.as_str());
                proof {
                    if c == 0 {
                        lemma_lex_cmp_eq(a@, b@);
                    } else {
                        lemma_lex_cmp_from_refl(a@, 0);
                    }
                }
                c == 0
            },
            (Dynamic::Bytes(a), Dynamic::Bytes(b)) => {
                if a.len() != b.len() {
                    return false;
                }
                let mut i: usize = 0;
                while i < a.len()
                    invariant
                        i <= a@.len(),
                        forall|j: int| 0 <= j < i ==> a@[j] == b@[j],
                    decreases a@.len() - i,
                {
                    if a[i] != b[i] {
                        return false;
                    }
                    i = i + 1;
                }
                proof {
                    assert(a@ =~= b@);
                }
                true
            },
            (Dynamic::List(a), Dynamic::List(b)) => {
                proof {
                    lemma_seq_model(a@);
                    lemma_seq_model(b@);
                }
                if a.len() != b.len() {
                    return false;
                }
                let mut i: usize = 0;
                while i < a.len()
                    invariant
                        i <= a@.len(),
                        forall|j: int| 0 <= j < i ==> seq_model(a@)[j] == seq_model(b@)[j],
                    decreases a@.len() - i,
                {
                    if !a[i].deep_eq(&b[i]) {
                        proof {
                            assert(seq_model(a@)[i as int] != seq_model(b@)[i as int]);
                        }
                        return false;
                    }
                    i = i + 1;
                }
                proof {
                    assert(seq_model(a@) =~= seq_model(b@));
                }
                true
            },
            (Dynamic::Dict(a), Dynamic::Dict(b)) => {
                proof {
                    lemma_pairs_model(a@);
                    lemma_pairs_model(b@);
                }
                if a.len() != b.len() {
                    return false;
                }
                let mut i: usize = 0;
                while i < a.len()
                    invariant
                        i <= a@.len(),
                        forall|j: int| 0 <= j < i ==> pairs_model(a@)[j] == pairs_model(b@)[j],
                    decreases a@.len() - i,
                {
                    if !a[i].0.deep_eq(&b[i].0) || !a[i].1.deep_eq(&b[i].1) {
                        proof {
                            assert(pairs_model(a@)[i as int] != pairs_model(b@)[i as int]);
                        }
                        return false;
                    }
                    i = i + 1;
                }
                proof {
                    assert(pairs_model(a@) =~= pairs_model(b@));
                }
                true
            },
            (Dynamic::Opt(a), Dynamic::Opt(b)) => match (a, b) {
                (Option::None, Option::None) => true,
                (Option::Some(x), Option::Some(y)) => x.deep_eq(y),
                _ => false,
            },
            (Dynamic::Unit, Dynamic::Unit) => true,
            (Dynamic::Newtype(a), Dynamic::Newtype(b)) => a.deep_eq(b),
            _ => false,
        }
    }

    /// The variant's rank in the total ordering.
    fn rank_of(&self) -> (r: u8)
        ensures
            r as int == rank(self@),
    {
        match self {
            Dynamic::Null => 0,
            Dynamic::Bool(_) => 1,
            Dynamic::U8(_) => 2,
            Dynamic::U16(_) => 3,
            Dynamic::U32(_) => 4,
            Dynamic::U64(_) => 5,
            Dynamic::I8(_) => 6,
            Dynamic::I16(_) => 7,
            Dynamic::I32(_) => 8,
            Dynamic::I64(_) => 9,
            Dynamic::Char(_) => 10,
            Dynamic::Text(_) => 11,
            Dynamic::Bytes(_) => 12,
            Dynamic::List(_) => 13,
            Dynamic::Dict(_) => 14,
            Dynamic::Opt(_) => 15,
            Dynamic::Unit => 16,
            Dynamic::Newtype(_) => 17,
        }
    }

    /// Three-way structural comparison in the total order [`model_cmp`]
    /// states: variants order by rank, scalars by value, text and
    /// composites lexicographically.
    #[verifier::loop_isolation(false)]
    pub fn deep_cmp(&self, other: &Dynamic) -> (r: i32)
        ensures
            r == model_cmp(self@, other@),
            -1 <= r <= 1,
        decreases self,
    {
        match (self, other) {
            (Dynamic::Null, Dynamic::Null) => 0,
            (Dynamic::Bool(a), Dynamic::Bool(b)) => if a == b {
                0
            } else if *b {
                -1
            } else {
                1
            },
            (Dynamic::U8(a), Dynamic::U8(b)) => if a < b {
                -1
            } else if b < a {
                1
            } else {
                0
            },
            (Dynamic::U16(a), Dynamic::U16(b)) => if a < b {
                -1
            } else if b < a {
                1
            } else {
                0
            },
            (Dynamic::U32(a), Dynamic::U32(b)) => if a < b {
                -1
            } else if b < a {
                1
            } else {
                0
            },
            (Dynamic::U64(a), Dynamic::U64(b)) => if a < b {
                -1
            } else if b < a {
                1
            } else {
                0
            },
            (Dynamic::I8(a), Dynamic::I8(b)) => if a < b {
                -1
            } else if b < a {
                1
            } else {
                0
            },
            (Dynamic::I16(a), Dynamic::I16(b)) => if a < b {
                -1
            } else if b < a {
                1
            } else {
                0
            },
            (Dynamic::I32(a), Dynamic::I32(b)) => if a < b {
                -1
            } else if b < a {
                1
            } else {
                0
            },
            (Dynamic::I64(a), Dynamic::I64(b)) => if a < b {
                -1
            } else if b < a {
                1
            } else {
                0
            },
            (Dynamic::Char(a), Dynamic::Char(b)) => {
                let x: u32 = *a as u32;
                let y: u32 = *b as u32;
                if x < y {
                    -1
                } else if y < x {
                    1
                } else {
                    0
                }
            },
            (Dynamic::Text(a), Dynamic::Text(b)) => str_three_way(a.as_str(), b.as_str()),
            (Dynamic::Bytes(a), Dynamic::Bytes(b)) => {
                let n = a.len();
                let m = b.len();
                let mut i: usize = 0;
                proof {
                    assert(a@.skip(0) =~= a@);
                    assert(b@.skip(0) =~= b@);
                }
                while i < n && i < m
                    invariant
                        i <= n,
                        i <= m,
                        n == a@.len(),
                        m == b@.len(),
                        bytes_cmp(a@, b@) == bytes_cmp(a@.skip(i as int), b@.skip(i as int)),
                    decreases n - i,
                {
                    proof {
                        assert(a@.skip(i as int)[0] == a@[i as int]);
                        assert(b@.skip(i as int)[0] == b@[i as int]);
                        assert(a@.skip(i as int).drop_first() =~= a@.skip(i as int + 1));
                        assert(b@.skip(i as int).drop_first() =~= b@.skip(i as int + 1));
                    }
                    if a[i] < b[i] {
                        return -1;
                    }
                    if b[i] < a[i] {
                        return 1;
                    }
                    i = i + 1;
                }
                if i < m {
                    return -1;
                }
                if i < n {
                    return 1;
                }
                0
            },
            (Dynamic::List(a), Dynamic::List(b)) => {
                proof {
                    lemma_seq_model(a@);
                    lemma_seq_model(b@);
                }
                let ghost sa = seq_model(a@);
                let ghost sb = seq_model(b@);
                let n = a.len();
                let m = b.len();
                let mut i: usize = 0;
                proof {
                    assert(sa.skip(0) =~= sa);
                    assert(sb.skip(0) =~= sb);
                }
                while i < n && i < m
                    invariant
                        i <= n,
                        i <= m,
                        n == a@.len(),
                        m == b@.len(),
                        sa == seq_model(a@),
                        sb == seq_model(b@),
                        sa.len() == n,
                        sb.len() == m,
                        models_cmp(sa, sb) == models_cmp(sa.skip(i as int), sb.skip(i as int)),
                    decreases n - i,
                {
                    proof {
                        assert(sa.skip(i as int)[0] == sa[i as int]);
                        assert(sb.skip(i as int)[0] == sb[i as int]);
                        assert(sa.skip(i as int).drop_first() =~= sa.skip(i as int + 1));
                        assert(sb.skip(i as int).drop_first() =~= sb.skip(i as int + 1));
                    }
                    let c = a[i].deep_cmp(&b[i]);
                    if c != 0 {
                        return c;
                    }
                    i = i + 1;
                }
                if i < m {
                    return -1;
                }
                if i < n {
                    return 1;
                }
                0
            },
            (Dynamic::Dict(a), Dynamic::Dict(b)) => {
                proof {
                    lemma_pairs_model(a@);
                    lemma_pairs_model(b@);
                }
                let ghost sa = pairs_model(a@);
                let ghost sb = pairs_model(b@);
                let n = a.len();
                let m = b.len();
                let mut i: usize = 0;
                proof {
                    assert(sa.skip(0) =~= sa);
                    assert(sb.skip(0) =~= sb);
                }
                while i < n && i < m
                    invariant
                        i <= n,
                        i <= m,
                        n == a@.len(),
                        m == b@.len(),
                        sa == pairs_model(a@),
                        sb == pairs_model(b@),
                        sa.len() == n,
                        sb.len() == m,
                        model_pairs_cmp(sa, sb) == model_pairs_cmp(
                            sa.skip(i as int),
                            sb.skip(i as int),
                        ),
                    decreases n - i,
                {
                    proof {
                        assert(sa.skip(i as int)[0] == sa[i as int]);
                        assert(sb.skip(i as int)[0] == sb[i as int]);
                        assert(sa.skip(i as int).drop_first() =~= sa.skip(i as int + 1));
                        assert(sb.skip(i as int).drop_first() =~= sb.skip(i as int + 1));
                    }
                    let c = a[i].0.deep_cmp(&b[i].0);
                    if c != 0 {
                        return c;
                    }
                    let c2 = a[i].1.deep_cmp(&b[i].1);
                    if c2 != 0 {
                        return c2;
                    }
                    i = i + 1;
                }
                if i < m {
                    return -1;
                }
                if i < n {
                    return 1;
                }
                0
            },
            (Dynamic::Opt(a), Dynamic::Opt(b)) => match (a, b) {
                (Option::None, Option::None) => 0,
                (Option::None, Option::Some(_)) => -1,
                (Option::Some(_), Option::None) => 1,
                (Option::Some(x), Option::Some(y)) => x.deep_cmp(y),
            },
            (Dynamic::Unit, Dynamic::Unit) => 0,
            (Dynamic::Newtype(a), Dynamic::Newtype(b)) => a.deep_cmp(b),
            _ => {
                let ra = self.rank_of();
                let rb = other.rank_of();
                if ra < rb {
                    -1
                } else {
                    1
                }
            },
        }
    }
}

} // verus!
