//! The ordered key-value container.
//!
//! A [`Context`] maps `String` keys to [`Dynamic`] entries and keeps its
//! entries sorted by strictly ascending lexicographic key order at all
//! times, so iteration and serialization order never depends on insertion
//! order.  The container is modelled as the sequence of its entries
//! (`Seq<(Seq<char>, Model)>`); [`entries_insert`], [`lookup`] and
//! [`extend_fold`] are the specification-level meanings of the mutating and
//! querying operations.
use vstd::prelude::*;

use crate::order::lemma_lex_cmp_eq;
use crate::order::lemma_lex_cmp_flip;
use crate::order::lemma_lex_cmp_from_refl;
use crate::order::lemma_lex_lt_trans;
use crate::order::lex_lt;
use crate::order::str_three_way;
use crate::value::Model;
use crate::value::Dynamic;

verus! {

/// The entry sequence a vector of owned pairs stands for.
pub open spec fn entries_model(s: Seq<(String, Dynamic)>) -> Seq<(Seq<char>, Model)> {
    s.map_values(|p: (String, Dynamic)| (p.0@, p.1@))
}

/// Keys appear in strictly ascending lexicographic order (hence each key
/// appears at most once).
pub open spec fn sorted_keys(s: Seq<(Seq<char>, Model)>) -> bool {
    forall|i: int, j: int| 0 <= i < j < s.len() ==> lex_lt(s[i].0, s[j].0)
}

/// The entry sequence after upserting `(k, v)`: the pair replaces an entry
/// with an equal key, and otherwise sits at its sorted position.
pub open spec fn entries_insert(
    s: Seq<(Seq<char>, Model)>,
    k: Seq<char>,
    v: Model,
) -> Seq<(Seq<char>, Model)>
    decreases s.len(),
{
    if s.len() == 0 {
        seq![(k, v)]
    } else if lex_lt(k, s[0].0) {
        seq![(k, v)] + s
    } else if k == s[0].0 {
        seq![(k, v)] + s.drop_first()
    } else {
        seq![s[0]] + entries_insert(s.drop_first(), k, v)
    }
}

/// The value stored under `k`, if any.
pub open spec fn lookup(s: Seq<(Seq<char>, Model)>, k: Seq<char>) -> Option<Model>
    decreases s.len(),
{
    if s.len() == 0 {
        Option::None
    } else if s[0].0 == k {
        Option::Some(s[0].1)
    } else {
        lookup(s.drop_first(), k)
    }
}

/// The entry sequence after upserting every pair of `d` in order.
pub open spec fn extend_fold(
    s: Seq<(Seq<char>, Model)>,
    d: Seq<(Seq<char>, Model)>,
) -> Seq<(Seq<char>, Model)>
    decreases d.len(),
{
    if d.len() == 0 {
        s
    } else {
        extend_fold(entries_insert(s, d[0].0, d[0].1), d.drop_first())
    }
}

/// Upserting places the new pair at the position `i` that the caller has
/// located: after the entries whose keys sort below `k`, replacing an entry
/// with an equal key, before everything else.
pub proof fn lemma_entries_insert_splice(
    s: Seq<(Seq<char>, Model)>,
    k: Seq<char>,
    v: Model,
    i: int,
)
    requires
        0 <= i <= s.len(),
        forall|j: int| 0 <= j < i ==> lex_lt(s[j].0, k),
    ensures
        i < s.len() && s[i].0 == k ==> entries_insert(s, k, v) =~= s.take(i) + seq![(k, v)]
            + s.skip(i + 1),
        i < s.len() && lex_lt(k, s[i].0) ==> entries_insert(s, k, v) =~= s.take(i) + seq![(k, v)]
            + s.skip(i),
        i == s.len() ==> entries_insert(s, k, v) =~= s.take(i) + seq![(k, v)] + s.skip(i),
    decreases i,
{
    if i == 0 {
        if s.len() > 0 && s[0].0 == k {
            lemma_lex_cmp_from_refl(k, 0);
            assert(!lex_lt(k, s[0].0));
        }
    } else {
        assert(lex_lt(s[0].0, k));
        lemma_lex_cmp_flip(s[0].0, k);
        assert(!lex_lt(k, s[0].0));
        if k == s[0].0 {
            lemma_lex_cmp_from_refl(k, 0);
            assert(false);
        }
        let d = s.drop_first();
        assert(forall|j: int| 0 <= j < i - 1 ==> lex_lt(d[j].0, k));
        lemma_entries_insert_splice(d, k, v, i - 1);
        assert(entries_insert(s, k, v) == seq![s[0]] + entries_insert(d, k, v));
        if i < s.len() && s[i].0 == k {
            assert(d[i - 1].0 == k);
            assert(seq![s[0]] + (d.take(i - 1) + seq![(k, v)] + d.skip(i)) =~= s.take(i) + seq![
                (k, v),
            ] + s.skip(i + 1));
        } else if i < s.len() && lex_lt(k, s[i].0) {
            assert(seq![s[0]] + (d.take(i - 1) + seq![(k, v)] + d.skip(i - 1)) =~= s.take(i)
                + seq![(k, v)] + s.skip(i));
        } else if i == s.len() {
            assert(seq![s[0]] + (d.take(i - 1) + seq![(k, v)] + d.skip(i - 1)) =~= s.take(i)
                + seq![(k, v)] + s.skip(i));
        }
    }
}

/// Looking a key up after an upsert finds the new value, and any other key
/// finds what it found before.
pub proof fn lemma_entries_insert_lookup(
    s: Seq<(Seq<char>, Model)>,
    k: Seq<char>,
    v: Model,
    k2: Seq<char>,
)
    ensures
        lookup(entries_insert(s, k, v), k2) == if k2 == k {
            Option::Some(v)
        } else {
            lookup(s, k2)
        },
    decreases s.len(),
{
    let r = entries_insert(s, k, v);
    if s.len() == 0 {
        assert(r == seq![(k, v)]);
        assert(r.drop_first() =~= Seq::<(Seq<char>, Model)>::empty());
    } else if lex_lt(k, s[0].0) {
        assert(r == seq![(k, v)] + s);
        assert(r.drop_first() =~= s);
    } else if k == s[0].0 {
        assert(r == seq![(k, v)] + s.drop_first());
        assert(r.drop_first() =~= s.drop_first());
    } else {
        assert(r == seq![s[0]] + entries_insert(s.drop_first(), k, v));
        assert(r.drop_first() =~= entries_insert(s.drop_first(), k, v));
        assert(r[0] == s[0]);
        assert(s[0].0 != k);
        lemma_entries_insert_lookup(s.drop_first(), k, v, k2);
    }
}

/// Upserting twice under one key is upserting the second value once; the
/// key then holds exactly the second value.
pub proof fn lemma_insert_upsert(
    s: Seq<(Seq<char>, Model)>,
    k: Seq<char>,
    v1: Model,
    v2: Model,
)
    ensures
        entries_insert(entries_insert(s, k, v1), k, v2) =~= entries_insert(s, k, v2),
        lookup(entries_insert(entries_insert(s, k, v1), k, v2), k) == Option::Some(v2),
    decreases s.len(),
{
    lemma_lex_cmp_from_refl(k, 0);
    assert(!lex_lt(k, k));
    let r1 = entries_insert(s, k, v1);
    if s.len() == 0 {
        assert(r1 == seq![(k, v1)]);
        assert(r1.drop_first() =~= Seq::<(Seq<char>, Model)>::empty());
    } else if lex_lt(k, s[0].0) {
        assert(r1 == seq![(k, v1)] + s);
        assert(r1.drop_first() =~= s);
    } else if k == s[0].0 {
        assert(r1 == seq![(k, v1)] + s.drop_first());
        assert(r1.drop_first() =~= s.drop_first());
    } else {
        assert(r1 == seq![s[0]] + entries_insert(s.drop_first(), k, v1));
        assert(r1.drop_first() =~= entries_insert(s.drop_first(), k, v1));
        assert(r1[0] == s[0]);
        lemma_insert_upsert(s.drop_first(), k, v1, v2);
        assert(entries_insert(r1, k, v2) =~= seq![s[0]] + entries_insert(
            r1.drop_first(),
            k,
            v2,
        ));
    }
    lemma_entries_insert_lookup(entries_insert(s, k, v1), k, v2, k);
}

/// Extending with a single pair after inserting the same key leaves the
/// pair's value: the bulk upsert wins over the earlier insert.
pub proof fn lemma_extend_overrides(
    s: Seq<(Seq<char>, Model)>,
    k: Seq<char>,
    v1: Model,
    v2: Model,
)
    ensures
        lookup(extend_fold(entries_insert(s, k, v1), seq![(k, v2)]), k) == Option::Some(v2),
{
    let d = seq![(k, v2)];
    let x = entries_insert(s, k, v1);
    let y = entries_insert(x, k, v2);
    assert(d.drop_first() =~= Seq::<(Seq<char>, Model)>::empty());
    assert(extend_fold(y, d.drop_first()) == y);
    assert(extend_fold(x, d) == y);
    lemma_insert_upsert(s, k, v1, v2);
}

/// An ordered mapping from text keys to dynamic values.  Entries are kept
/// in strictly ascending lexicographic key order; [`Context::insert`] and
/// [`Context::extend`] upsert, so a key is never present twice.
#[derive(Debug)]
pub struct Context {
    inner: Vec<(String, Dynamic)>,
}

impl View for Context {
    type V = Seq<(Seq<char>, Model)>;

    closed spec fn view(&self) -> Seq<(Seq<char>, Model)> {
        entries_model(self.inner@)
    }
}

impl Context {
    /// The container's invariant: entries sorted by strictly ascending key.
    pub open spec fn wf(&self) -> bool {
        sorted_keys(self@)
    }

    /// Creates an empty context.
    pub fn new() -> (c: Context)
        ensures
            c.wf(),
            c@ == Seq::<(Seq<char>, Model)>::empty(),
    {
        let c = Context { inner: Vec::new() };
        proof {
            assert(c@ =~= Seq::<(Seq<char>, Model)>::empty());
        }
        c
    }

    /// Scans for `k`: returns the count of entries whose keys sort below
    /// `k`, and whether the entry at that position holds `k` itself.
    fn find_slot(&self, k: &str) -> (r: (usize, bool))
        requires
            self.wf(),
        ensures
            r.0 <= self@.len(),
            forall|j: int| 0 <= j < r.0 ==> lex_lt(self@[j].0, k@),
            r.1 ==> r.0 < self@.len() && self@[r.0 as int].0 == k@,
            !r.1 && r.0 < self@.len() ==> lex_lt(k@, self@[r.0 as int].0),
    {
        let n = self.inner.len();
        let mut i: usize = 0;
        loop
            invariant
                i <= n,
                n == self.inner@.len(),
                self.wf(),
                self@.len() == n,
                forall|j: int| 0 <= j < i ==> lex_lt(self@[j].0, k@),
            decreases n - i,
        {
            if i == n {
                return (i, false);
            }
            let c = str_three_way(self.inner[i].0.as_str(), k);
            proof {
                assert(self@[i as int].0 == self.inner@[i as int].0@);
            }
            if c == 0 {
                proof {
                    lemma_lex_cmp_eq(self.inner@[i as int].0@, k@);
                }
                return (i, true);
            }
            if c > 0 {
                proof {
                    lemma_lex_cmp_flip(self.inner@[i as int].0@, k@);
                }
                return (i, false);
            }
            i = i + 1;
        }
    }

    /// Upserts `(k, v)`: overwrites silently when `k` is already present,
    /// and keeps the entries sorted.
    pub fn insert(&mut self, k: String, v: Dynamic)
        requires
            old(self).wf(),
        ensures
            final(self).wf(),
            final(self)@ == entries_insert(old(self)@, k@, v@),
    {
        let ghost s = self@;
        let (i, found) = self.find_slot(k.as_str());
        proof {
            lemma_entries_insert_splice(s, k@, v@, i as int);
        }
        if found {
            self.inner.remove(i);
            self.inner.insert(i, (k, v));
            proof {
                assert(self@ =~= s.take(i as int) + seq![(k@, v@)] + s.skip(i as int + 1));
                assert(self@ =~= entries_insert(s, k@, v@));
            }
        } else {
            self.inner.insert(i, (k, v));
            proof {
                assert(self@ =~= s.take(i as int) + seq![(k@, v@)] + s.skip(i as int));
                assert(self@ =~= entries_insert(s, k@, v@));
            }
        }
        proof {
            let r = self@;
            assert forall|a: int, b: int| 0 <= a < b < r.len() implies lex_lt(r[a].0, r[b].0) by {
                let gap: int = if found {
                    1
                } else {
                    0
                };
                if a < i && b < i {
                } else if a < i && b == i {
                } else if a < i && b > i {
                    assert(r[b] == s[b - 1 + gap]);
                } else if a == i && b > i {
                    assert(r[b] == s[b - 1 + gap]);
                    if found {
                        assert(lex_lt(s[i as int].0, s[b - 1 + gap].0));
                    } else if b - 1 + gap == i {
                        assert(lex_lt(k@, s[i as int].0));
                    } else {
                        lemma_lex_lt_trans(k@, s[i as int].0, s[b - 1 + gap].0);
                    }
                } else {
                    assert(r[a] == s[a - 1 + gap]);
                    assert(r[b] == s[b - 1 + gap]);
                }
            }
        }
    }

    /// Looks the key up without mutating; `None` when absent.
    pub fn get(&self, k: &str) -> (r: Option<&Dynamic>)
        ensures
            match r {
                Option::Some(v) => lookup(self@, k@) == Option::Some(v@),
                Option::None => lookup(self@, k@) is None,
            },
    {
        let n = self.inner.len();
        let mut i: usize = 0;
        proof {
            assert(self@.skip(0) =~= self@);
        }
        loop
            invariant
                i <= n,
                n == self.inner@.len(),
                self@.len() == n,
                lookup(self@, k@) == lookup(self@.skip(i as int), k@),
            decreases n - i,
        {
            if i == n {
                proof {
                    assert(self@.skip(i as int) =~= Seq::<(Seq<char>, Model)>::empty());
                }
                return Option::None;
            }
            let c = str_three_way(self.inner[i].0.as_str(), k);
            proof {
                assert(self@[i as int] == (self.inner@[i as int].0@, self.inner@[i as int].1@));
                assert(self@.skip(i as int)[0] == self@[i as int]);
            }
            if c == 0 {
                proof {
                    lemma_lex_cmp_eq(self.inner@[i as int].0@, k@);
                }
                return Option::Some(&self.inner[i].1);
            }
            proof {
                lemma_lex_cmp_from_refl(self.inner@[i as int].0@, 0);
                assert(self.inner@[i as int].0@ != k@);
                assert(self@.skip(i as int).drop_first() =~= self@.skip(i as int + 1));
            }
            i = i + 1;
        }
    }

    /// Upserts every pair of `data`, front to back; on duplicate keys the
    /// later pair wins, and `data`'s pairs win over prior content.
    pub fn extend(&mut self, data: Vec<(String, Dynamic)>)
        requires
            old(self).wf(),
        ensures
            final(self).wf(),
            final(self)@ == extend_fold(old(self)@, entries_model(data@)),
    {
        let mut rest = data;
        while rest.len() > 0
            invariant
                self.wf(),
                extend_fold(old(self)@, entries_model(data@)) == extend_fold(
                    self@,
                    entries_model(rest@),
                ),
            decreases rest.len(),
        {
            let ghost r0 = rest@;
            let (k, v) = rest.remove(0);
            proof {
                assert(entries_model(r0)[0] == (k@, v@));
                assert(entries_model(rest@) =~= entries_model(r0).drop_first());
            }
            self.insert(k, v);
        }
        proof {
            assert(entries_model(rest@) =~= Seq::<(Seq<char>, Model)>::empty());
        }
    }

    /// Consumes the context, yielding its entries in key order.
    pub fn into_entries(self) -> (r: Vec<(String, Dynamic)>)
        ensures
            entries_model(r@) == self@,
    {
        self.inner
    }

    /// Borrows the entries in key order.
    pub fn entries(&self) -> (r: &Vec<(String, Dynamic)>)
        ensures
            entries_model(r@) == self@,
    {
        &self.inner
    }

    /// Builds a context from pairs that are already sorted by strictly
    /// ascending key.
    pub(crate) fn from_sorted_entries(pairs: Vec<(String, Dynamic)>) -> (c: Context)
        requires
            sorted_keys(entries_model(pairs@)),
        ensures
            c.wf(),
            c@ == entries_model(pairs@),
    {
        Context { inner: pairs }
    }
}

/// Every context iterates its keys in strictly ascending lexicographic
/// order: the well-formedness every operation preserves is exactly that
/// ordering statement.
pub proof fn lemma_context_keys_sorted(c: &Context)
    requires
        c.wf(),
    ensures
        forall|i: int, j: int| 0 <= i < j < c@.len() ==> lex_lt(c@[i].0, c@[j].0),
{
}

} // verus!
