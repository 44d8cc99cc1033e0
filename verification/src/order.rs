//! Lexicographic ordering of keys.
//!
//! Keys are compared character by character on Unicode scalar values, the
//! same total order that `BTreeMap<String, _>` sorts by for the inputs the
//! formats produce.  The comparison is specified as a three-way recursive
//! function over `Seq<char>` together with the lemmas (reflexivity,
//! antisymmetry, transitivity, identity of indiscernibles) that the sorted
//! container proofs rely on.
use vstd::prelude::*;

use vstd::string::StrSliceExecFns;

verus! {

/// Three-way comparison of the suffixes of `a` and `b` that start at
/// position `i`: negative when `a`'s suffix sorts first, positive when
/// `b`'s does, zero when the suffixes are equal.
pub open spec fn lex_cmp_from(a: Seq<char>, b: Seq<char>, i: int) -> int
    decreases a.len() - i,
{
    if i < a.len() && i < b.len() {
        if (a[i] as u32) < (b[i] as u32) {
            -1
        } else if (b[i] as u32) < (a[i] as u32) {
            1
        } else {
            lex_cmp_from(a, b, i + 1)
        }
    } else if i < b.len() {
        -1
    } else if i < a.len() {
        1
    } else {
        0
    }
}

/// Three-way lexicographic comparison of two whole key sequences.
pub open spec fn lex_cmp(a: Seq<char>, b: Seq<char>) -> int {
    lex_cmp_from(a, b, 0)
}

/// `a` sorts strictly before `b`.
pub open spec fn lex_lt(a: Seq<char>, b: Seq<char>) -> bool {
    lex_cmp(a, b) < 0
}

/// A sequence compares as equal to itself.
pub proof fn lemma_lex_cmp_from_refl(a: Seq<char>, i: int)
    ensures
        lex_cmp_from(a, a, i) == 0,
    decreases a.len() - i,
{
    if i < a.len() {
        lemma_lex_cmp_from_refl(a, i + 1);
    }
}

/// Sequences whose suffixes compare as equal agree from `i` on and have
/// the same length.
pub proof fn lemma_lex_cmp_from_eq(a: Seq<char>, b: Seq<char>, i: int)
    requires
        0 <= i <= a.len(),
        i <= b.len(),
        lex_cmp_from(a, b, i) == 0,
    ensures
        a.len() == b.len(),
        forall|j: int| i <= j < a.len() ==> a[j] == b[j],
    decreases a.len() - i,
{
    if i < a.len() && i < b.len() {
        lemma_lex_cmp_from_eq(a, b, i + 1);
        assert((a[i] as u32) == (b[i] as u32));
        vstd::utf8::char_u32_cast(a[i], a[i] as u32);
        vstd::utf8::char_u32_cast(b[i], b[i] as u32);
        assert(a[i] == b[i]);
        assert(forall|j: int| i <= j < a.len() ==> a[j] == b[j]) by {
            assert(forall|j: int| i + 1 <= j < a.len() ==> a[j] == b[j]);
        }
    }
}

/// Sequences that compare as equal are equal.
pub proof fn lemma_lex_cmp_eq(a: Seq<char>, b: Seq<char>)
    requires
        lex_cmp(a, b) == 0,
    ensures
        a == b,
{
    lemma_lex_cmp_from_eq(a, b, 0);
    assert(a =~= b);
}

/// Swapping the arguments flips the sign of the comparison.
pub proof fn lemma_lex_cmp_from_flip(a: Seq<char>, b: Seq<char>, i: int)
    ensures
        lex_cmp_from(b, a, i) == -lex_cmp_from(a, b, i),
    decreases a.len() - i,
{
    if i < a.len() && i < b.len() {
        lemma_lex_cmp_from_flip(a, b, i + 1);
    }
}

/// Swapping the arguments flips the sign of the whole comparison.
pub proof fn lemma_lex_cmp_flip(a: Seq<char>, b: Seq<char>)
    ensures
        lex_cmp(b, a) == -lex_cmp(a, b),
{
    lemma_lex_cmp_from_flip(a, b, 0);
}

/// The strict order on suffixes is transitive.
pub proof fn lemma_lex_cmp_from_trans(a: Seq<char>, b: Seq<char>, c: Seq<char>, i: int)
    requires
        0 <= i,
        lex_cmp_from(a, b, i) < 0,
        lex_cmp_from(b, c, i) < 0,
    ensures
        lex_cmp_from(a, c, i) < 0,
    decreases a.len() - i,
{
    if i < a.len() && i < b.len() && i < c.len() && (a[i] as u32) == (b[i] as u32) && (b[i]
        as u32) == (c[i] as u32) {
        lemma_lex_cmp_from_trans(a, b, c, i + 1);
    }
}

/// The strict lexicographic order is transitive.
pub proof fn lemma_lex_lt_trans(a: Seq<char>, b: Seq<char>, c: Seq<char>)
    requires
        lex_lt(a, b),
        lex_lt(b, c),
    ensures
        lex_lt(a, c),
{
    lemma_lex_cmp_from_trans(a, b, c, 0);
}

/// Three-way comparison of two string slices, `-1`, `0` or `1` according
/// to the lexicographic order of their character sequences.
pub fn str_three_way(a: &str, b: &str) -> (c: i32)
    ensures
        c == lex_cmp(a@, b@),
        -1 <= c <= 1,
{
    let alen: usize = a.unicode_len();
    let blen: usize = b.unicode_len();
    let mut i: usize = 0;
    loop
        invariant
            i <= alen,
            i <= blen,
            alen == a@.len(),
            blen == b@.len(),
            lex_cmp(a@, b@) == lex_cmp_from(a@, b@, i as int),
        decreases alen - i,
    {
        if i == alen || i == blen {
            if i < blen {
                return -1;
            }
            if i < alen {
                return 1;
            }
            return 0;
        }
        let ca: char = a.get_char(i);
        let cb: char = b.get_char(i);
        let x: u32 = ca as u32;
        let y: u32 = cb as u32;
        if x < y {
            return -1;
        }
        if y < x {
            return 1;
        }
        i = i + 1;
    }
}

} // verus!
