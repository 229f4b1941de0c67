//! Counting and ordering facts about sequences: how many entries satisfy a
//! predicate, how counts change under updates, why a fresh slot always
//! exists, and a verified sort used to order cards by position or stacking.

use vstd::prelude::*;
use vstd::relations::{sorted_by, total_ordering};

verus! {

/// How many entries of `s` satisfy `p`.
pub open spec fn count_where<A>(s: Seq<A>, p: spec_fn(A) -> bool) -> nat
    decreases s.len(),
{
    if s.len() == 0 {
        0
    } else {
        count_where(s.drop_last(), p) + (if p(s.last()) {
            1nat
        } else {
            0nat
        })
    }
}

/// A count never exceeds the sequence's length.
pub proof fn lemma_count_le_len<A>(s: Seq<A>, p: spec_fn(A) -> bool)
    ensures
        count_where(s, p) <= s.len(),
    decreases s.len(),
{
    if s.len() > 0 {
        lemma_count_le_len(s.drop_last(), p);
    }
}

/// Extending a prefix by one entry extends its count by that entry's verdict.
pub proof fn lemma_count_take_succ<A>(s: Seq<A>, i: int, p: spec_fn(A) -> bool)
    requires
        0 <= i < s.len(),
    ensures
        count_where(s.take(i + 1), p) == count_where(s.take(i), p) + (if p(s[i]) {
            1nat
        } else {
            0nat
        }),
{
    assert(s.take(i + 1).drop_last() =~= s.take(i));
    assert(s.take(i + 1).last() == s[i]);
}

/// The whole sequence is its own full prefix.
pub proof fn lemma_count_take_all<A>(s: Seq<A>, p: spec_fn(A) -> bool)
    ensures
        count_where(s.take(s.len() as int), p) == count_where(s, p),
{
    assert(s.take(s.len() as int) =~= s);
}

/// Replacing one entry changes the count by the verdicts' difference.
pub proof fn lemma_count_update<A>(s: Seq<A>, i: int, v: A, p: spec_fn(A) -> bool)
    requires
        0 <= i < s.len(),
    ensures
        count_where(s.update(i, v), p) + (if p(s[i]) {
            1nat
        } else {
            0nat
        }) == count_where(s, p) + (if p(v) {
            1nat
        } else {
            0nat
        }),
    decreases s.len(),
{
    if i == s.len() - 1 {
        assert(s.update(i, v).drop_last() =~= s.drop_last());
        assert(s.update(i, v).last() == v);
    } else {
        assert(s.update(i, v).drop_last() =~= s.drop_last().update(i, v));
        assert(s.update(i, v).last() == s.last());
        lemma_count_update(s.drop_last(), i, v, p);
    }
}

/// Counts agree whenever the two sequences' verdicts agree entry by entry.
pub proof fn lemma_count_pointwise<A, B>(
    s: Seq<A>,
    t: Seq<B>,
    p: spec_fn(A) -> bool,
    q: spec_fn(B) -> bool,
)
    requires
        s.len() == t.len(),
        forall|i: int| 0 <= i < s.len() ==> (p(#[trigger] s[i]) <==> q(#[trigger] t[i])),
    ensures
        count_where(s, p) == count_where(t, q),
    decreases s.len(),
{
    if s.len() > 0 {
        assert(p(s[s.len() - 1]) <==> q(t[t.len() - 1]));
        lemma_count_pointwise(s.drop_last(), t.drop_last(), p, q);
    }
}

/// A count is zero exactly when no entry satisfies the predicate.
pub proof fn lemma_count_zero<A>(s: Seq<A>, p: spec_fn(A) -> bool)
    ensures
        count_where(s, p) == 0 <==> (forall|i: int| 0 <= i < s.len() ==> !p(#[trigger] s[i])),
    decreases s.len(),
{
    if s.len() > 0 {
        lemma_count_zero(s.drop_last(), p);
        if count_where(s, p) == 0 {
            assert forall|i: int| 0 <= i < s.len() implies !p(#[trigger] s[i]) by {
                if i < s.len() - 1 {
                    assert(s.drop_last()[i] == s[i]);
                }
            }
        } else {
            if p(s.last()) {
            } else {
                let k = choose|i: int| 0 <= i < s.drop_last().len() && p(#[trigger] s.drop_last()[i]);
                assert(p(s[k]));
            }
        }
    }
}

/// Among the values `0 ..= s.len()` at least one does not occur in `s`: there
/// are more candidates than entries.
pub proof fn lemma_fresh_value(s: Seq<int>)
    ensures
        exists|v: int| 0 <= v <= s.len() && !s.contains(v),
{
    if forall|v: int| 0 <= v <= s.len() ==> s.contains(v) {
        let range = vstd::set_lib::set_int_range(0, s.len() as int + 1);
        vstd::set_lib::lemma_int_range(0, s.len() as int + 1);
        assert(range.subset_of(s.to_set()));
        s.lemma_cardinality_of_set();
        vstd::set_lib::lemma_len_subset(range, s.to_set());
        assert(false);
    }
}

/// A multiset equal to the identity on `0 .. n` is a permutation of it:
/// full length, all values below `n`, no value twice.
pub proof fn lemma_perm_props(perm: Seq<u64>, n: nat)
    requires
        n <= 0xffff_ffff_ffff_ffff,
        perm.to_multiset() == Seq::new(n, |i: int| i as u64).to_multiset(),
    ensures
        perm.len() == n,
        forall|j: int| 0 <= j < perm.len() ==> #[trigger] perm[j] < n,
        forall|a: int, b: int| 0 <= a < b < perm.len() ==> #[trigger] perm[a] != #[trigger] perm[b],
{
    broadcast use vstd::seq_lib::to_multiset_contains;
    broadcast use vstd::seq_lib::to_multiset_len;
    broadcast use vstd::seq_lib::lemma_seq_contains;
    broadcast use vstd::multiset::group_multiset_axioms;

    let id = Seq::new(n, |i: int| i as u64);
    assert(id.no_duplicates());
    id.lemma_multiset_has_no_duplicates();
    perm.lemma_multiset_has_no_duplicates_conv();
    assert(perm.len() == perm.to_multiset().len());
    assert(id.len() == id.to_multiset().len());
    assert forall|j: int| 0 <= j < perm.len() implies #[trigger] perm[j] < n by {
        assert(perm.contains(perm[j]));
        assert(perm.to_multiset().count(perm[j]) > 0);
        assert(id.to_multiset().count(perm[j]) > 0);
        assert(id.contains(perm[j]));
        let i = choose|i: int| 0 <= i < id.len() && id[i] == perm[j];
        assert(id[i] == i as u64);
    }
    assert forall|a: int, b: int|
        0 <= a < b < perm.len() implies #[trigger] perm[a] != #[trigger] perm[b] by {
        assert(perm.no_duplicates());
    }
}

/// A permutation of pairs keeps any field distinct: if no two entries of
/// `s` agree on `f`, no two entries of a multiset-equal `t` do either.
pub proof fn lemma_field_distinct_preserved<X>(
    s: Seq<(i64, u64)>,
    t: Seq<(i64, u64)>,
    f: spec_fn((i64, u64)) -> X,
)
    requires
        s.to_multiset() == t.to_multiset(),
        forall|a: int, b: int| 0 <= a < b < s.len() ==> f(#[trigger] s[a]) != f(#[trigger] s[b]),
    ensures
        forall|a: int, b: int| 0 <= a < b < t.len() ==> f(#[trigger] t[a]) != f(#[trigger] t[b]),
{
    broadcast use vstd::seq_lib::to_multiset_contains;
    broadcast use vstd::seq_lib::lemma_seq_contains;
    broadcast use vstd::multiset::group_multiset_axioms;

    assert(s.no_duplicates()) by {
        assert forall|a: int, b: int|
            0 <= a < s.len() && 0 <= b < s.len() && a != b implies s[a] != s[b] by {
            if a < b {
                assert(f(s[a]) != f(s[b]));
            } else {
                assert(f(s[b]) != f(s[a]));
            }
        }
    }
    s.lemma_multiset_has_no_duplicates();
    t.lemma_multiset_has_no_duplicates_conv();
    assert forall|a: int, b: int| 0 <= a < b < t.len() implies f(#[trigger] t[a]) != f(
        #[trigger] t[b],
    ) by {
        assert(t[a] != t[b]);
        assert(t.contains(t[a]));
        assert(t.contains(t[b]));
        assert(t.to_multiset().count(t[a]) > 0);
        assert(t.to_multiset().count(t[b]) > 0);
        assert(s.to_multiset().count(t[a]) > 0);
        assert(s.to_multiset().count(t[b]) > 0);
        assert(s.contains(t[a]));
        assert(s.contains(t[b]));
        let ia = choose|ia: int| 0 <= ia < s.len() && s[ia] == t[a];
        let ib = choose|ib: int| 0 <= ib < s.len() && s[ib] == t[b];
        assert(ia != ib);
        if ia < ib {
            assert(f(s[ia]) != f(s[ib]));
        } else {
            assert(f(s[ib]) != f(s[ia]));
        }
    }
}

/// The order the library sorts by: ascending key, ties broken by the tag.
pub open spec fn lex_leq() -> spec_fn((i64, u64), (i64, u64)) -> bool {
    |a: (i64, u64), b: (i64, u64)| a.0 < b.0 || (a.0 == b.0 && a.1 <= b.1)
}

/// The sort order is a total ordering.
pub proof fn lemma_lex_total()
    ensures
        total_ordering(lex_leq()),
{
}

/// Whether `a` sorts at or before `b`.
fn lex_before(a: (i64, u64), b: (i64, u64)) -> (r: bool)
    ensures
        r == (lex_leq())(a, b),
{
    a.0 < b.0 || (a.0 == b.0 && a.1 <= b.1)
}

/// Sorts key/tag pairs in place: ascending by key, ties broken by tag.
pub fn sort_key_pairs(v: &mut Vec<(i64, u64)>)
    ensures
        final(v)@.len() == old(v)@.len(),
        final(v)@.to_multiset() == old(v)@.to_multiset(),
        sorted_by(final(v)@, lex_leq()),
{
    let ghost orig = old(v)@;
    let ghost leq = lex_leq();
    let n = v.len();
    if n <= 1 {
        return ;
    }
    let mut i: usize = 1;
    while i < n
        invariant
            1 <= i <= n == v@.len() == orig.len(),
            v@.to_multiset() == orig.to_multiset(),
            leq == lex_leq(),
            sorted_by(v@.take(i as int), leq),
        decreases n - i,
    {
        let mut j: usize = i;
        proof {
            assert forall|a: int, b: int| 0 <= a < b <= i && b != i implies (leq)(
                #[trigger] v@[a],
                #[trigger] v@[b],
            ) by {
                assert(v@.take(i as int)[a] == v@[a]);
                assert(v@.take(i as int)[b] == v@[b]);
            }
        }
        while j > 0 && !lex_before(v[j - 1], v[j])
            invariant
                0 <= j <= i < n == v@.len() == orig.len(),
                v@.to_multiset() == orig.to_multiset(),
                leq == lex_leq(),
                forall|a: int, b: int|
                    0 <= a < b <= i && b != j ==> (leq)(#[trigger] v@[a], #[trigger] v@[b]),
                forall|a: int| j < a <= i ==> (leq)(v@[j as int], #[trigger] v@[a]),
            decreases j,
        {
            let prev = v[j - 1];
            let here = v[j];
            let ghost before = v@;
            v.set(j - 1, here);
            v.set(j, prev);
            proof {
                broadcast use vstd::seq_lib::to_multiset_update;
                broadcast use vstd::seq_lib::to_multiset_contains;
                broadcast use vstd::multiset::group_multiset_axioms;
                broadcast use vstd::multiset::group_multiset_properties;

                let m0 = before.to_multiset();
                let mid = before.update(j as int - 1, here);
                assert(before.contains(prev)) by {
                    assert(before[j as int - 1] == prev);
                }
                assert(m0.count(prev) > 0);
                assert(mid.to_multiset() == m0.insert(here).remove(prev));
                assert(mid[j as int] == here);
                assert(v@ == mid.update(j as int, prev));
                assert(v@.to_multiset() == mid.to_multiset().insert(prev).remove(here));
                assert(v@.to_multiset() =~= before.to_multiset());
                assert forall|a: int, b: int|
                    0 <= a < b <= i && b != j - 1 implies (leq)(#[trigger] v@[a], #[trigger] v@[b]) by {
                    if a == j - 1 && b == j {
                    } else if a == j - 1 {
                        assert((leq)(before[j as int], before[b]));
                    } else if b == j {
                        assert((leq)(before[a], before[j - 1]));
                    } else if a == j {
                        assert((leq)(before[j - 1], before[b]));
                    } else {
                        assert((leq)(before[a], before[b]));
                    }
                }
                assert forall|a: int| j - 1 < a <= i implies (leq)(v@[j as int - 1], #[trigger] v@[a]) by {
                    if a == j {
                    } else {
                        assert((leq)(before[j as int], before[a]));
                    }
                }
            }
            j = j - 1;
        }
        proof {
            assert forall|a: int, b: int| 0 <= a < b < i + 1 implies (leq)(
                #[trigger] v@.take(i as int + 1)[a],
                #[trigger] v@.take(i as int + 1)[b],
            ) by {
                if b == j {
                    if a < j - 1 {
                        assert((leq)(v@[a], v@[j as int - 1]));
                    }
                    assert((leq)(v@[j as int - 1], v@[j as int]));
                    assert((leq)(v@[a], v@[b]));
                } else {
                    assert((leq)(v@[a], v@[b]));
                }
            }
            assert(sorted_by(v@.take(i as int + 1), leq));
        }
        i = i + 1;
    }
    proof {
        assert(v@.take(v@.len() as int) =~= v@);
    }
}

} // verus!
