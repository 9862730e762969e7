//! Variable-name composition.
//!
//! A scalar field's variable is `prefix + fragment`.  Nesting extends the
//! prefix with a separator — `:` or `__`, both accepted — and sequence
//! elements insert a decimal index between separators.  The lemmas here show
//! that names built for different indices never collide, which both bounds
//! the probing loops and keeps the discovered length well defined.

use vstd::prelude::*;
use crate::digits::{all_digits, char_digit, dec_digits, lemma_dec_digits_value, lemma_dec_digits_injective};

verus! {

broadcast use vstd::seq::group_seq_axioms, vstd::set::group_set_axioms;

/// The colon separator.
pub open spec fn colon_sep() -> Seq<char> {
    seq![':']
}

/// The double-underscore separator.
pub open spec fn us_sep() -> Seq<char> {
    seq!['_', '_']
}

/// The variable name of element `i` of a plain sequence, for one separator.
pub open spec fn seq_elem_name(base: Seq<char>, sep: Seq<char>, i: nat) -> Seq<char> {
    base + sep + dec_digits(i)
}

/// The child prefix of element `i` of a nested sequence, for one separator.
pub open spec fn nseq_elem_prefix(base: Seq<char>, sep: Seq<char>, i: nat) -> Seq<char> {
    base + sep + dec_digits(i) + sep
}

/// Equal concatenations with the same head have equal tails.
pub proof fn lemma_concat_cancel(x: Seq<char>, u: Seq<char>, v: Seq<char>)
    requires
        x + u == x + v,
    ensures
        u == v,
{
    let xu = x + u;
    let xv = x + v;
    assert(xu.len() == xv.len());
    assert(u =~= xu.subrange(x.len() as int, xu.len() as int));
    assert(v =~= xv.subrange(x.len() as int, xv.len() as int));
    assert(u =~= v);
}

/// Element names determine their separator and index: names built from the
/// same base never collide across indices or separator forms.
pub proof fn lemma_seq_elem_name_injective(
    base: Seq<char>,
    s1: Seq<char>,
    s2: Seq<char>,
    i: nat,
    j: nat,
)
    requires
        s1 == colon_sep() || s1 == us_sep(),
        s2 == colon_sep() || s2 == us_sep(),
        seq_elem_name(base, s1, i) == seq_elem_name(base, s2, j),
    ensures
        s1 == s2,
        i == j,
{
    let a = seq_elem_name(base, s1, i);
    let b = seq_elem_name(base, s2, j);
    lemma_dec_digits_value(i);
    lemma_dec_digits_value(j);
    if s1 != s2 {
        assert(a[base.len() as int] == s1[0]);
        assert(b[base.len() as int] == s2[0]);
        assert(s1[0] != s2[0]);
        assert(false);
    }
    assert(base + s1 + dec_digits(i) == (base + s1) + dec_digits(i));
    assert(base + s2 + dec_digits(j) == (base + s1) + dec_digits(j));
    lemma_concat_cancel(base + s1, dec_digits(i), dec_digits(j));
    if i != j {
        lemma_dec_digits_injective(i, j);
        assert(false);
    }
}

/// No name can carry the element prefixes of two different indices of the
/// same nested sequence, in either separator form.
pub proof fn lemma_nseq_prefix_exclusive(
    base: Seq<char>,
    s1: Seq<char>,
    s2: Seq<char>,
    i: nat,
    j: nat,
    k: Seq<char>,
)
    requires
        s1 == colon_sep() || s1 == us_sep(),
        s2 == colon_sep() || s2 == us_sep(),
        nseq_elem_prefix(base, s1, i).is_prefix_of(k),
        nseq_elem_prefix(base, s2, j).is_prefix_of(k),
    ensures
        i == j,
{
    let p1 = nseq_elem_prefix(base, s1, i);
    let p2 = nseq_elem_prefix(base, s2, j);
    let d1 = dec_digits(i);
    let d2 = dec_digits(j);
    lemma_dec_digits_value(i);
    lemma_dec_digits_value(j);
    assert(forall|t: int| 0 <= t < p1.len() ==> k[t] == p1[t]);
    assert(forall|t: int| 0 <= t < p2.len() ==> k[t] == p2[t]);
    if s1 != s2 {
        assert(p1[base.len() as int] == s1[0]);
        assert(p2[base.len() as int] == s2[0]);
        assert(s1[0] != s2[0]);
        assert(false);
    }
    let sl = s1.len() as int;
    // Digit positions of both prefixes coincide where they overlap.
    assert(forall|p: int| 0 <= p < d1.len() ==> p1[base.len() + sl + p] == d1[p]);
    assert(forall|p: int| 0 <= p < d2.len() ==> p2[base.len() + sl + p] == d2[p]);
    if d1.len() == d2.len() {
        assert(d1 =~= d2) by {
            assert forall|p: int| 0 <= p < d1.len() implies d1[p] == d2[p] by {
                assert(k[base.len() + sl + p] == d1[p]);
                assert(k[base.len() + sl + p] == d2[p]);
            }
        }
        if i != j {
            lemma_dec_digits_injective(i, j);
        }
    } else if d1.len() < d2.len() {
        let q = base.len() + sl + d1.len();
        assert(p1[q as int] == s1[0]);
        assert(p2[q as int] == d2[d1.len() as int]);
        assert(k[q as int] == s1[0]);
        assert(k[q as int] == d2[d1.len() as int]);
        assert(char_digit(d2[d1.len() as int]) is Some);
        assert(char_digit(s1[0]) is None);
        assert(false);
    } else {
        let q = base.len() + sl + d2.len();
        assert(p2[q as int] == s2[0]);
        assert(p1[q as int] == d1[d2.len() as int]);
        assert(k[q as int] == s2[0]);
        assert(k[q as int] == d1[d2.len() as int]);
        assert(char_digit(d1[d2.len() as int]) is Some);
        assert(char_digit(s2[0]) is None);
        assert(false);
    }
}

/// A concatenation extends its head.
pub proof fn lemma_prefix_of_concat(p: Seq<char>, q: Seq<char>)
    ensures
        p.is_prefix_of(p + q),
{
    assert(p =~= (p + q).subrange(0, p.len() as int));
}

/// Being a prefix is transitive.
pub proof fn lemma_prefix_trans(a: Seq<char>, b: Seq<char>, c: Seq<char>)
    requires
        a.is_prefix_of(b),
        b.is_prefix_of(c),
    ensures
        a.is_prefix_of(c),
{
    assert(a =~= c.subrange(0, a.len() as int)) by {
        assert forall|t: int| 0 <= t < a.len() implies a[t] == c[t] by {
            assert(a[t] == b.subrange(0, a.len() as int)[t]);
            assert(b[t] == c.subrange(0, b.len() as int)[t]);
        }
    }
}

/// An element name extends the sequence's base name.
pub proof fn lemma_seq_elem_name_extends(base: Seq<char>, sep: Seq<char>, i: nat)
    ensures
        base.is_prefix_of(seq_elem_name(base, sep, i)),
{
    assert(seq_elem_name(base, sep, i) =~= base + (sep + dec_digits(i)));
    lemma_prefix_of_concat(base, sep + dec_digits(i));
}

/// An element prefix extends the sequence's base name.
pub proof fn lemma_nseq_elem_prefix_extends(base: Seq<char>, sep: Seq<char>, i: nat)
    ensures
        base.is_prefix_of(nseq_elem_prefix(base, sep, i)),
{
    assert(nseq_elem_prefix(base, sep, i) =~= base + (sep + dec_digits(i) + sep));
    lemma_prefix_of_concat(base, sep + dec_digits(i) + sep);
}

/// Pairwise distinct names that all lie in one finite set are no more
/// numerous than the set.
pub proof fn lemma_distinct_names_bound(
    w: spec_fn(int) -> Seq<char>,
    n: nat,
    dom: Set<Seq<char>>,
)
    requires
        dom.finite(),
        forall|i: int| 0 <= i < n ==> dom.contains(#[trigger] w(i)),
        forall|i: int, j: int| 0 <= i < j < n ==> #[trigger] w(i) != #[trigger] w(j),
    ensures
        n <= dom.len(),
    decreases n,
{
    if n > 0 {
        let last = w(n - 1);
        let rest = dom.remove(last);
        assert(forall|i: int| 0 <= i < n - 1 ==> rest.contains(#[trigger] w(i)));
        lemma_distinct_names_bound(w, (n - 1) as nat, rest);
        assert(rest.len() == dom.len() - 1);
    }
}

} // verus!
