//! Sorting names in the order of `str` (and of UTF-8 paths in one directory).

use vstd::prelude::*;
use crate::text::{lex_le, str_le, lemma_lex_total, lemma_lex_transitive, lemma_lex_antisymmetric};

verus! {

broadcast use vstd::multiset::group_multiset_axioms, vstd::seq_lib::group_to_multiset_ensures;

/// The names are in non-decreasing lexicographic order.
pub open spec fn sorted_names(s: Seq<String>) -> bool {
    forall|i: int, j: int| 0 <= i < j < s.len() ==> lex_le(#[trigger] s[i]@, #[trigger] s[j]@)
}

proof fn lemma_insert_multiset(s: Seq<String>, p: int, x: String)
    requires
        0 <= p <= s.len(),
    ensures
        s.insert(p, x).to_multiset() =~= s.to_multiset().insert(x),
{
    let t = s.insert(p, x);
    assert(t.remove(p) =~= s);
    vstd::seq_lib::to_multiset_remove(t, p);
    assert(t[p] == x);
    assert(t.contains(x));
    assert(t.to_multiset().count(x) > 0);
}

/// Sorts names lexicographically (the order `Vec<PathBuf>::sort` gives to
/// the entries of one directory). Equal names keep their order.
pub fn sort_names(names: &Vec<String>) -> (out: Vec<String>)
    ensures
        sorted_names(out@),
        out@.to_multiset() == names@.to_multiset(),
{
    let mut out: Vec<String> = Vec::new();
    for i in 0..names.len()
        invariant
            sorted_names(out@),
            out@.to_multiset() == names@.take(i as int).to_multiset(),
    {
        let x = names[i].clone();
        let mut p: usize = 0;
        while p < out.len() && str_le(out[p].as_str(), x.as_str())
            invariant
                p <= out.len(),
                forall|k: int| 0 <= k < p ==> lex_le(#[trigger] out@[k]@, x@),
            decreases out.len() - p,
        {
            p = p + 1;
        }
        let ghost old_out = out@;
        proof {
            if p < old_out.len() {
                lemma_lex_total(old_out[p as int]@, x@);
            }
        }
        out.insert(p, x);
        proof {
            assert forall|a: int, b: int| 0 <= a < b < out@.len() implies lex_le(#[trigger] out@[a]@, #[trigger] out@[b]@) by {
                if a < p && b == p {
                } else if a == p {
                    if b - 1 > p {
                        lemma_lex_transitive(x@, old_out[p as int]@, old_out[b - 1]@);
                    }
                } else if a < p && b > p {
                    lemma_lex_total(old_out[p as int]@, x@);
                    lemma_lex_transitive(old_out[a]@, x@, old_out[p as int]@);
                    if b - 1 > p {
                        lemma_lex_transitive(old_out[a]@, old_out[p as int]@, old_out[b - 1]@);
                    }
                }
            }
            lemma_insert_multiset(old_out, p as int, x);
            assert(names@.take(i + 1) =~= names@.take(i as int).push(names@[i as int]));
        }
    }
    assert(names@.take(names@.len() as int) =~= names@);
    out
}

/// Law: a listing of distinct names has one sorted arrangement. Any two
/// sorted sequences that hold the same names agree position by position,
/// so the `i`-th entry of a sorted listing is the name with exactly `i`
/// names before it.
pub proof fn law_sorted_arrangement_unique(a: Seq<String>, b: Seq<String>)
    requires
        sorted_names(a),
        sorted_names(b),
        a.to_multiset() == b.to_multiset(),
        forall|i: int, j: int| 0 <= i < j < a.len() ==> (#[trigger] a[i])@ != (#[trigger] a[j])@,
    ensures
        a == b,
    decreases a.len(),
{
    vstd::seq_lib::to_multiset_len(a);
    vstd::seq_lib::to_multiset_len(b);
    if a.len() == 0 {
        assert(a =~= b);
    } else {
        vstd::seq_lib::to_multiset_contains(a, a[0]);
        vstd::seq_lib::to_multiset_contains(b, b[0]);
        assert(b.to_multiset().count(b[0]) > 0);
        assert(a.contains(b[0]));
        assert(b.contains(a[0]));
        let j = choose|j: int| 0 <= j < a.len() && a[j] == b[0];
        let k = choose|k: int| 0 <= k < b.len() && b[k] == a[0];
        if j > 0 {
            assert(lex_le(a[0]@, a[j]@));
        }
        if k > 0 {
            assert(lex_le(b[0]@, b[k]@));
        }
        crate::text::lemma_lex_reflexive(a[0]@);
        crate::text::lemma_lex_reflexive(b[0]@);
        lemma_lex_antisymmetric(a[0]@, b[0]@);
        assert(j == 0);
        vstd::seq_lib::to_multiset_remove(a, 0);
        vstd::seq_lib::to_multiset_remove(b, 0);
        assert(a.remove(0) =~= a.drop_first());
        assert(b.remove(0) =~= b.drop_first());
        law_sorted_arrangement_unique(a.drop_first(), b.drop_first());
        assert(a =~= seq![a[0]] + a.drop_first());
        assert(b =~= seq![b[0]] + b.drop_first());
    }
}

} // verus!
