//! Sequences: element-wise views, and sums of a measure over a sequence.

use vstd::prelude::*;

verus! {

/// The views of the elements of `s`, in order.
pub open spec fn views<T: View>(s: Seq<T>) -> Seq<T::V> {
    Seq::new(s.len(), |i: int| s[i]@)
}

/// The views of a sequence with one more element.
pub proof fn lemma_views_push<T: View>(s: Seq<T>, x: T)
    ensures
        views(s.push(x)) == views(s).push(x@),
{
    assert(views(s.push(x)) =~= views(s).push(x@));
}

/// The views of a sequence with one element replaced.
pub proof fn lemma_views_update<T: View>(s: Seq<T>, i: int, x: T)
    requires
        0 <= i < s.len(),
    ensures
        views(s.update(i, x)) == views(s).update(i, x@),
{
    assert(views(s.update(i, x)) =~= views(s).update(i, x@));
}

/// The views of a sequence with one element taken out.
pub proof fn lemma_views_remove<T: View>(s: Seq<T>, i: int)
    requires
        0 <= i < s.len(),
    ensures
        views(s.remove(i)) == views(s).remove(i),
{
    assert(views(s.remove(i)) =~= views(s).remove(i));
}

/// The sum of `f` over the elements of `s`.
pub open spec fn sum_by<T>(s: Seq<T>, f: spec_fn(T) -> int) -> int
    decreases s.len(),
{
    if s.len() == 0 {
        0
    } else {
        sum_by(s.drop_last(), f) + f(s.last())
    }
}

/// One more element adds its measure to the sum.
pub proof fn lemma_sum_push<T>(s: Seq<T>, x: T, f: spec_fn(T) -> int)
    ensures
        sum_by(s.push(x), f) == sum_by(s, f) + f(x),
{
    assert(s.push(x).drop_last() =~= s);
}

/// The sum over the first `i + 1` elements is the sum over the first `i`
/// plus the measure of the element at `i`.
pub proof fn lemma_sum_step<T>(s: Seq<T>, i: int, f: spec_fn(T) -> int)
    requires
        0 <= i < s.len(),
    ensures
        sum_by(s.take(i + 1), f) == sum_by(s.take(i), f) + f(s[i]),
{
    assert(s.take(i + 1).drop_last() =~= s.take(i));
}

/// The prefix of full length is the whole sequence.
pub proof fn lemma_sum_all<T>(s: Seq<T>)
    ensures
        s.take(s.len() as int) == s,
{
    assert(s.take(s.len() as int) =~= s);
}

/// The sum over two sequences one after the other is the sum of their
/// sums.
pub proof fn lemma_sum_concat<T>(a: Seq<T>, b: Seq<T>, f: spec_fn(T) -> int)
    ensures
        sum_by(a + b, f) == sum_by(a, f) + sum_by(b, f),
    decreases b.len(),
{
    if b.len() == 0 {
        assert(a + b =~= a);
    } else {
        assert((a + b).drop_last() =~= a + b.drop_last());
        lemma_sum_concat(a, b.drop_last(), f);
    }
}

/// Two measures that agree on every element of `s` have the same sum.
pub proof fn lemma_sum_same<T>(s: Seq<T>, f: spec_fn(T) -> int, g: spec_fn(T) -> int)
    requires
        forall|i: int| 0 <= i < s.len() ==> f(#[trigger] s[i]) == g(s[i]),
    ensures
        sum_by(s, f) == sum_by(s, g),
    decreases s.len(),
{
    if s.len() > 0 {
        assert(f(s[s.len() - 1]) == g(s[s.len() - 1]));
        lemma_sum_same(s.drop_last(), f, g);
    }
}

/// A measure that is nowhere larger than another has no larger sum.
pub proof fn lemma_sum_le<T>(s: Seq<T>, f: spec_fn(T) -> int, g: spec_fn(T) -> int)
    requires
        forall|i: int| 0 <= i < s.len() ==> f(#[trigger] s[i]) <= g(s[i]),
    ensures
        sum_by(s, f) <= sum_by(s, g),
    decreases s.len(),
{
    if s.len() > 0 {
        assert(f(s[s.len() - 1]) <= g(s[s.len() - 1]));
        lemma_sum_le(s.drop_last(), f, g);
    }
}

/// The sum of a measure between `lo` and `hi` lies between `lo` and `hi`
/// times the length.
pub proof fn lemma_sum_bounds<T>(s: Seq<T>, f: spec_fn(T) -> int, lo: int, hi: int)
    requires
        forall|i: int| 0 <= i < s.len() ==> lo <= f(#[trigger] s[i]) <= hi,
    ensures
        lo * s.len() <= sum_by(s, f) <= hi * s.len(),
    decreases s.len(),
{
    if s.len() > 0 {
        assert(lo <= f(s[s.len() - 1]) <= hi);
        lemma_sum_bounds(s.drop_last(), f, lo, hi);
        assert(lo * s.len() == lo * (s.len() - 1) + lo) by (nonlinear_arith);
        assert(hi * s.len() == hi * (s.len() - 1) + hi) by (nonlinear_arith);
    } else {
        assert(lo * 0 == 0 && hi * 0 == 0);
    }
}

/// With a measure that is never negative, a prefix sums to no more than
/// the whole.
pub proof fn lemma_sum_prefix_le<T>(s: Seq<T>, i: int, f: spec_fn(T) -> int)
    requires
        0 <= i <= s.len(),
        forall|j: int| 0 <= j < s.len() ==> 0 <= f(#[trigger] s[j]),
    ensures
        0 <= sum_by(s.take(i), f) <= sum_by(s, f),
    decreases s.len() - i,
{
    if i == s.len() {
        lemma_sum_all(s);
        lemma_sum_nonnegative(s, f);
    } else {
        lemma_sum_prefix_le(s, i + 1, f);
        lemma_sum_step(s, i, f);
        lemma_sum_nonnegative(s.take(i), f);
    }
}

/// A measure that is never negative has no negative sum.
pub proof fn lemma_sum_nonnegative<T>(s: Seq<T>, f: spec_fn(T) -> int)
    requires
        forall|j: int| 0 <= j < s.len() ==> 0 <= f(#[trigger] s[j]),
    ensures
        0 <= sum_by(s, f),
    decreases s.len(),
{
    if s.len() > 0 {
        assert(0 <= f(s[s.len() - 1]));
        lemma_sum_nonnegative(s.drop_last(), f);
    }
}

/// Replacing the element at `i` changes the sum by the difference of the
/// two measures.
pub proof fn lemma_sum_update<T>(s: Seq<T>, i: int, x: T, f: spec_fn(T) -> int)
    requires
        0 <= i < s.len(),
    ensures
        sum_by(s.update(i, x), f) == sum_by(s, f) - f(s[i]) + f(x),
    decreases s.len(),
{
    let u = s.update(i, x);
    if i == s.len() - 1 {
        assert(u.drop_last() =~= s.drop_last());
    } else {
        assert(u.drop_last() =~= s.drop_last().update(i, x));
        lemma_sum_update(s.drop_last(), i, x, f);
    }
}

/// Removing the element at `i` takes its measure out of the sum.
pub proof fn lemma_sum_remove<T>(s: Seq<T>, i: int, f: spec_fn(T) -> int)
    requires
        0 <= i < s.len(),
    ensures
        sum_by(s.remove(i), f) == sum_by(s, f) - f(s[i]),
    decreases s.len(),
{
    let r = s.remove(i);
    if i == s.len() - 1 {
        assert(r =~= s.drop_last());
    } else {
        assert(r.drop_last() =~= s.drop_last().remove(i));
        assert(r.last() == s.last());
        lemma_sum_remove(s.drop_last(), i, f);
    }
}

/// An element of a filtered sequence meets the test and stands in the
/// sequence that was filtered.
pub proof fn lemma_filter_member<T>(s: Seq<T>, keep: spec_fn(T) -> bool, i: int)
    requires
        0 <= i < s.filter(keep).len(),
    ensures
        keep(s.filter(keep)[i]),
        exists|a: int| 0 <= a < s.len() && #[trigger] s[a] == s.filter(keep)[i],
    decreases s.len(),
{
    reveal(Seq::filter);
    if s.len() > 0 {
        let head = s.drop_last();
        if keep(s.last()) && i == head.filter(keep).len() {
            assert(s[s.len() - 1] == s.filter(keep)[i]);
        } else {
            lemma_filter_member(head, keep, i);
            let a = choose|a: int| 0 <= a < head.len() && #[trigger] head[a]
                == head.filter(keep)[i];
            assert(s[a] == s.filter(keep)[i]);
        }
    }
}

/// Filtering keeps the order: two elements of the filtered sequence stand
/// in the same order in the sequence that was filtered.
pub proof fn lemma_filter_order<T>(s: Seq<T>, keep: spec_fn(T) -> bool, i: int, j: int)
    requires
        0 <= i < j < s.filter(keep).len(),
    ensures
        exists|a: int, b: int|
            0 <= a < b < s.len() && #[trigger] s[a] == s.filter(keep)[i] && #[trigger] s[b]
                == s.filter(keep)[j],
    decreases s.len(),
{
    reveal(Seq::filter);
    if s.len() > 0 {
        let head = s.drop_last();
        if keep(s.last()) && j == head.filter(keep).len() {
            lemma_filter_member(head, keep, i);
            let a = choose|a: int| 0 <= a < head.len() && #[trigger] head[a]
                == head.filter(keep)[i];
            let b = s.len() - 1;
            assert(s[a] == s.filter(keep)[i] && s[b] == s.filter(keep)[j]);
        } else {
            lemma_filter_order(head, keep, i, j);
            let (a, b) = choose|a: int, b: int|
                0 <= a < b < head.len() && #[trigger] head[a] == head.filter(keep)[i]
                    && #[trigger] head[b] == head.filter(keep)[j];
            assert(s[a] == s.filter(keep)[i] && s[b] == s.filter(keep)[j]);
        }
    }
}

/// An element that meets the test stands in the filtered sequence.
pub proof fn lemma_filter_keeps<T>(s: Seq<T>, keep: spec_fn(T) -> bool, a: int)
    requires
        0 <= a < s.len(),
        keep(s[a]),
    ensures
        exists|i: int| 0 <= i < s.filter(keep).len() && #[trigger] s.filter(keep)[i] == s[a],
    decreases s.len(),
{
    reveal(Seq::filter);
    let head = s.drop_last();
    if a == s.len() - 1 {
        assert(s.filter(keep)[head.filter(keep).len() as int] == s[a]);
    } else {
        lemma_filter_keeps(head, keep, a);
        let i = choose|i: int| 0 <= i < head.filter(keep).len() && #[trigger] head.filter(keep)[i]
            == head[a];
        assert(s.filter(keep)[i] == s[a]);
    }
}

/// The sum over a filtered sequence counts the elements that meet the
/// test and leaves the others out.
pub proof fn lemma_sum_filter<T>(s: Seq<T>, keep: spec_fn(T) -> bool, f: spec_fn(T) -> int)
    ensures
        sum_by(s.filter(keep), f) == sum_by(s, |x: T| if keep(x) { f(x) } else { 0 }),
    decreases s.len(),
{
    reveal(Seq::filter);
    let g = |x: T| if keep(x) { f(x) } else { 0 };
    if s.len() > 0 {
        let head = s.drop_last();
        lemma_sum_filter(head, keep, f);
        if keep(s.last()) {
            lemma_sum_push(head.filter(keep), s.last(), f);
        }
    }
}

/// With a measure that is zero wherever the test fails, filtering leaves
/// the sum as it is.
pub proof fn lemma_sum_filter_same<T>(s: Seq<T>, keep: spec_fn(T) -> bool, f: spec_fn(T) -> int)
    requires
        forall|i: int| 0 <= i < s.len() && !keep(#[trigger] s[i]) ==> f(s[i]) == 0,
    ensures
        sum_by(s.filter(keep), f) == sum_by(s, f),
{
    lemma_sum_filter(s, keep, f);
    let g = |x: T| if keep(x) { f(x) } else { 0 };
    assert forall|i: int| 0 <= i < s.len() implies g(#[trigger] s[i]) == f(s[i]) by {}
    lemma_sum_same(s, g, f);
}

/// With a measure that is never negative, filtering does not raise the
/// sum.
pub proof fn lemma_sum_filter_le<T>(s: Seq<T>, keep: spec_fn(T) -> bool, f: spec_fn(T) -> int)
    requires
        forall|i: int| 0 <= i < s.len() ==> 0 <= f(#[trigger] s[i]),
    ensures
        sum_by(s.filter(keep), f) <= sum_by(s, f),
{
    lemma_sum_filter(s, keep, f);
    let g = |x: T| if keep(x) { f(x) } else { 0 };
    assert forall|i: int| 0 <= i < s.len() implies g(#[trigger] s[i]) <= f(s[i]) by {}
    lemma_sum_le(s, g, f);
}

/// The positions below `n`, in order.
pub open spec fn positions(n: nat) -> Seq<int> {
    Seq::new(n, |j: int| j)
}

/// One for a position that meets the test, else nothing.
pub open spec fn one_where(test: spec_fn(int) -> bool) -> spec_fn(int) -> int {
    |j: int| if test(j) { 1int } else { 0 }
}

/// The number of positions below `n` that meet the test.
pub open spec fn count_where(n: nat, test: spec_fn(int) -> bool) -> int {
    sum_by(positions(n), one_where(test))
}

/// The sum of a measure over a sequence is the sum over its positions of
/// the measure of the element there.
pub proof fn lemma_sum_by_positions<T>(s: Seq<T>, f: spec_fn(T) -> int)
    ensures
        sum_by(s, f) == sum_by(positions(s.len()), |j: int| f(s[j])),
    decreases s.len(),
{
    let g = |j: int| f(s[j]);
    if s.len() > 0 {
        let head = s.drop_last();
        let h = |j: int| f(head[j]);
        lemma_sum_by_positions(head, f);
        assert(positions(s.len()).drop_last() =~= positions(head.len()));
        assert forall|k: int| 0 <= k < positions(head.len()).len() implies h(
            #[trigger] positions(head.len())[k],
        ) == g(positions(head.len())[k]) by {}
        lemma_sum_same(positions(head.len()), h, g);
    }
}

/// Two tests that differ at the position `x` alone, which one of them
/// meets, count one apart.
proof fn lemma_count_without(n: nat, test: spec_fn(int) -> bool, less: spec_fn(int) -> bool, x: int)
    requires
        forall|j: int| 0 <= j < n && j != x ==> #[trigger] test(j) == less(j),
        test(x),
        !less(x),
    ensures
        count_where(n, test) == count_where(n, less) + if 0 <= x < n {
            1int
        } else {
            0
        },
    decreases n,
{
    if n > 0 {
        let m = (n - 1) as nat;
        assert(positions(n).drop_last() =~= positions(m));
        lemma_count_without(m, test, less, x);
    }
}

/// Where `found` lists, each once, positions below `n` that meet the test,
/// at least as many positions meet it; and just as many where `found`
/// lists them all.
pub proof fn lemma_count_listed(n: nat, test: spec_fn(int) -> bool, found: Seq<int>)
    requires
        forall|k: int| 0 <= k < found.len() ==> 0 <= #[trigger] found[k] < n && test(found[k]),
        forall|k: int, l: int| 0 <= k < l < found.len() ==> found[k] != found[l],
    ensures
        count_where(n, test) >= found.len(),
        (forall|j: int| 0 <= j < n && #[trigger] test(j) ==> found.contains(j)) ==> count_where(
            n,
            test,
        )
            == found.len(),
    decreases found.len(),
{
    if found.len() == 0 {
        lemma_sum_nonnegative(positions(n), one_where(test));
        if forall|j: int| 0 <= j < n && #[trigger] test(j) ==> found.contains(j) {
            lemma_sum_bounds(positions(n), one_where(test), 0, 0);
        }
    } else {
        let x = found.last();
        let rest = found.drop_last();
        let less = |j: int| test(j) && j != x;
        assert(test(found[found.len() - 1]));
        lemma_count_without(n, test, less, x);
        assert forall|k: int| 0 <= k < rest.len() implies 0 <= #[trigger] rest[k] < n && less(
            rest[k],
        ) by {
            assert(rest[k] == found[k]);
            assert(found[k] != found[found.len() - 1]);
        }
        assert forall|k: int, l: int| 0 <= k < l < rest.len() implies rest[k] != rest[l] by {
            assert(rest[k] == found[k] && rest[l] == found[l]);
        }
        lemma_count_listed(n, less, rest);
        if forall|j: int| 0 <= j < n && #[trigger] test(j) ==> found.contains(j) {
            assert forall|j: int| 0 <= j < n && #[trigger] less(j) implies rest.contains(j) by {
                assert(found.contains(j));
                let k = choose|k: int| 0 <= k < found.len() && found[k] == j;
                assert(rest[k] == j);
            }
        }
    }
}

} // verus!
