//! Ranking: the best `limit` candidates of a list, best first, where ties
//! keep the order in which the candidates were given.

use crate::seqs::{count_where, lemma_count_listed};
use vstd::prelude::*;

verus! {

/// An order by which candidates are ranked: `above` is a strict weak order
/// on the eligible keys. A candidate whose key is not eligible takes no
/// part.
pub trait RankOrder: Sized {
    /// Whether a candidate with this key takes part in the ranking.
    spec fn eligible(self) -> bool;

    /// Whether this key ranks strictly above `other`.
    spec fn above(self, other: Self) -> bool;

    proof fn lemma_irreflexive(a: Self)
        requires
            a.eligible(),
        ensures
            !a.above(a),
    ;

    proof fn lemma_transitive(a: Self, b: Self, c: Self)
        requires
            a.eligible(),
            b.eligible(),
            c.eligible(),
            a.above(b),
            b.above(c),
        ensures
            a.above(c),
    ;

    proof fn lemma_negatively_transitive(a: Self, b: Self, c: Self)
        requires
            a.eligible(),
            b.eligible(),
            c.eligible(),
            !a.above(b),
            !b.above(c),
        ensures
            !a.above(c),
    ;
}

/// A key as the program holds it, standing for a key of the order `G`.
pub trait RankKey<G: RankOrder>: Sized {
    /// The key of the order that this value stands for.
    spec fn order_key(&self) -> G;

    fn is_eligible(&self) -> (out: bool)
        ensures
            out == self.order_key().eligible(),
    ;

    fn is_above(&self, other: &Self) -> (out: bool)
        requires
            self.order_key().eligible(),
            other.order_key().eligible(),
        ensures
            out == self.order_key().above(other.order_key()),
    ;
}

/// The keys of the order that `keys` stand for.
pub open spec fn order_keys<G: RankOrder, K: RankKey<G>>(keys: Seq<K>) -> Seq<G> {
    Seq::new(keys.len(), |i: int| keys[i].order_key())
}

/// Candidate `i` comes before candidate `j`: its key ranks above, or the
/// keys tie and `i` was given first.
pub open spec fn precedes<G: RankOrder>(keys: Seq<G>, i: int, j: int) -> bool {
    keys[i].above(keys[j]) || (!keys[j].above(keys[i]) && i < j)
}

/// Whether position `i` of `keys` holds an eligible candidate.
pub open spec fn is_candidate<G: RankOrder>(keys: Seq<G>, i: int) -> bool {
    0 <= i < keys.len() && keys[i].eligible()
}

/// Whether `picked` lists, best first, the best `limit` eligible candidates
/// among the first `upto` positions of `keys`.
pub open spec fn is_top_among<G: RankOrder>(
    keys: Seq<G>,
    upto: int,
    limit: int,
    picked: Seq<usize>,
) -> bool {
    &&& picked.len() <= limit
    &&& picked.len() <= upto
    &&& forall|p: int|
        0 <= p < picked.len() ==> is_candidate(keys, #[trigger] picked[p] as int) && picked[p]
            < upto
    &&& forall|p: int, q: int|
        0 <= p < q < picked.len() ==> precedes(
            keys,
            #[trigger] picked[p] as int,
            #[trigger] picked[q] as int,
        )
    &&& forall|i: int|
        is_candidate(keys, i) && i < upto && !picked.contains(i as usize) ==> picked.len()
            == limit && limit < upto && forall|p: int|
            0 <= p < picked.len() ==> precedes(keys, #[trigger] picked[p] as int, i)
}

/// Whether `picked` lists, best first, the best `limit` eligible candidates
/// of `keys` by their positions: it is no longer than `limit`, it is in
/// order, and a candidate is left out only when the list is full, shorter
/// than `keys`, and every member comes before it.
pub open spec fn is_top<G: RankOrder>(keys: Seq<G>, limit: int, picked: Seq<usize>) -> bool {
    is_top_among(keys, keys.len() as int, limit, picked)
}

/// The positions of the best `limit` eligible candidates of `keys`, best
/// first.
pub open spec fn top<G: RankOrder>(keys: Seq<G>, limit: int) -> Seq<usize> {
    choose|picked: Seq<usize>| is_top(keys, limit, picked)
}

/// What comes before a candidate comes before what that candidate comes
/// before.
pub proof fn lemma_precedes_transitive<G: RankOrder>(keys: Seq<G>, a: int, b: int, c: int)
    requires
        is_candidate(keys, a),
        is_candidate(keys, b),
        is_candidate(keys, c),
        precedes(keys, a, b),
        precedes(keys, b, c),
    ensures
        precedes(keys, a, c),
{
    let ka = keys[a];
    let kb = keys[b];
    let kc = keys[c];
    if ka.above(kb) {
        if kb.above(kc) {
            G::lemma_transitive(ka, kb, kc);
        } else {
            if !ka.above(kc) {
                G::lemma_negatively_transitive(ka, kc, kb);
            }
        }
    } else {
        if kb.above(kc) {
            if !ka.above(kc) {
                G::lemma_negatively_transitive(kb, ka, kc);
            }
        } else {
            G::lemma_negatively_transitive(kc, kb, ka);
        }
    }
}

/// Of two candidates at most one comes before the other, and none comes
/// before itself.
pub proof fn lemma_precedes_asymmetric<G: RankOrder>(keys: Seq<G>, a: int, b: int)
    requires
        is_candidate(keys, a),
        is_candidate(keys, b),
        precedes(keys, a, b),
    ensures
        !precedes(keys, b, a),
        a != b,
{
    let ka = keys[a];
    let kb = keys[b];
    G::lemma_irreflexive(ka);
    if ka.above(kb) && kb.above(ka) {
        G::lemma_transitive(ka, kb, ka);
    }
}

/// At most one list is the top of `keys` for a given limit: `is_top` pins
/// its members and their order.
pub proof fn lemma_top_unique<G: RankOrder>(keys: Seq<G>, limit: int, x: Seq<usize>, y: Seq<usize>)
    requires
        is_top(keys, limit, x),
        is_top(keys, limit, y),
    ensures
        x == y,
{
    lemma_top_prefix(keys, limit, x, y, x.len() as int);
    lemma_top_prefix(keys, limit, y, x, y.len() as int);
    if x.len() <= y.len() {
        lemma_top_same_length(keys, limit, x, y);
    } else {
        lemma_top_same_length(keys, limit, y, x);
    }
    assert(x =~= y);
}

/// Two tops of which one starts with the other have the same length.
proof fn lemma_top_same_length<G: RankOrder>(
    keys: Seq<G>,
    limit: int,
    x: Seq<usize>,
    y: Seq<usize>,
)
    requires
        is_top(keys, limit, x),
        is_top(keys, limit, y),
        x.len() <= y.len(),
        forall|p: int| 0 <= p < x.len() ==> x[p] == y[p],
    ensures
        x.len() == y.len(),
{
    if x.len() < y.len() {
        let extra = y[x.len() as int];
        assert(is_candidate(keys, extra as int));
        if x.contains(extra) {
            let p = choose|p: int| 0 <= p < x.len() && x[p] == extra;
            assert(precedes(keys, y[p] as int, y[x.len() as int] as int));
            lemma_precedes_asymmetric(keys, y[p] as int, extra as int);
        }
    }
}

proof fn lemma_top_prefix<G: RankOrder>(
    keys: Seq<G>,
    limit: int,
    x: Seq<usize>,
    y: Seq<usize>,
    upto: int,
)
    requires
        is_top(keys, limit, x),
        is_top(keys, limit, y),
        0 <= upto <= x.len(),
    ensures
        forall|p: int| 0 <= p < upto && p < y.len() ==> x[p] == y[p],
    decreases upto,
{
    if upto > 0 {
        lemma_top_prefix(keys, limit, x, y, upto - 1);
        let p = upto - 1;
        if p < y.len() && x[p] != y[p] {
            let a = x[p];
            let b = y[p];
            assert(is_candidate(keys, a as int));
            assert(is_candidate(keys, b as int));
            lemma_later_or_absent(keys, limit, x, y, p);
            lemma_later_or_absent(keys, limit, y, x, p);
            lemma_precedes_asymmetric(keys, a as int, b as int);
        }
    }
}

/// Where two tops agree before position `p` and differ at it, the member
/// of `y` at `p` comes before the member of `x` at `p`.
proof fn lemma_later_or_absent<G: RankOrder>(
    keys: Seq<G>,
    limit: int,
    x: Seq<usize>,
    y: Seq<usize>,
    p: int,
)
    requires
        is_top(keys, limit, x),
        is_top(keys, limit, y),
        0 <= p < x.len(),
        p < y.len(),
        x[p] != y[p],
        forall|q: int| 0 <= q < p ==> x[q] == y[q],
    ensures
        precedes(keys, y[p] as int, x[p] as int),
{
    let a = x[p];
    assert(is_candidate(keys, a as int));
    if y.contains(a) {
        let q = choose|q: int| 0 <= q < y.len() && y[q] == a;
        if q < p {
            assert(precedes(keys, x[q] as int, x[p] as int));
            lemma_precedes_asymmetric(keys, x[q] as int, x[p] as int);
        }
        assert(precedes(keys, y[p] as int, y[q] as int));
    }
}

/// Every member before position `q` comes before the new candidate `i`
/// once the member at `q - 1` is known not to rank below it.
proof fn lemma_earlier_members_precede<G: RankOrder>(
    keys: Seq<G>,
    limit: int,
    picked: Seq<usize>,
    i: int,
    q: int,
)
    requires
        is_top_among(keys, i, limit, picked),
        is_candidate(keys, i),
        0 <= q <= picked.len(),
        q > 0 ==> !keys[i].above(keys[picked[q - 1] as int]),
    ensures
        forall|p: int| 0 <= p < q ==> precedes(keys, #[trigger] picked[p] as int, i),
{
    assert forall|p: int| 0 <= p < q implies precedes(keys, #[trigger] picked[p] as int, i) by {
        let a = picked[p] as int;
        let b = picked[q - 1] as int;
        assert(is_candidate(keys, a));
        assert(is_candidate(keys, b));
        if p < q - 1 {
            assert(precedes(keys, picked[p] as int, picked[q - 1] as int));
            if keys[i].above(keys[a]) {
                if keys[a].above(keys[b]) {
                    G::lemma_transitive(keys[i], keys[a], keys[b]);
                } else {
                    G::lemma_negatively_transitive(keys[i], keys[b], keys[a]);
                }
            }
        }
    }
}

/// The list `picked` with the candidate `i` placed at position `q`, cut to
/// `limit` members; `picked` itself where `q` lies beyond the limit.
pub open spec fn placed(picked: Seq<usize>, q: int, i: usize, limit: int) -> Seq<usize> {
    if q < limit {
        let grown = picked.insert(q, i);
        if grown.len() > limit {
            grown.take(limit)
        } else {
            grown
        }
    } else {
        picked
    }
}

/// The top among the first `i` positions, with the candidate at `i` placed
/// behind the members that it does not rank above, is the top among the
/// first `i + 1` positions.
proof fn lemma_place<G: RankOrder>(keys: Seq<G>, limit: int, picked: Seq<usize>, i: int, q: int)
    requires
        is_top_among(keys, i, limit, picked),
        is_candidate(keys, i),
        i <= usize::MAX,
        0 <= q <= picked.len(),
        q > 0 ==> !keys[i].above(keys[picked[q - 1] as int]),
        forall|p: int| q <= p < picked.len() ==> keys[i].above(keys[#[trigger] picked[p] as int]),
    ensures
        is_top_among(keys, i + 1, limit, placed(picked, q, i as usize, limit)),
{
    lemma_earlier_members_precede(keys, limit, picked, i, q);
    let after = placed(picked, q, i as usize, limit);
    if q < limit {
        let grown = picked.insert(q, i as usize);
        assert forall|p: int| 0 <= p < grown.len() implies is_candidate(
            keys,
            #[trigger] grown[p] as int,
        ) && grown[p] < i + 1 by {
            if p < q {
                assert(grown[p] == picked[p]);
            } else if p > q {
                assert(grown[p] == picked[p - 1]);
            }
        }
        assert forall|p: int, r: int| 0 <= p < r < grown.len() implies precedes(
            keys,
            #[trigger] grown[p] as int,
            #[trigger] grown[r] as int,
        ) by {
            if r < q {
                assert(grown[p] == picked[p] && grown[r] == picked[r]);
            } else if r == q {
                assert(grown[p] == picked[p]);
            } else if p == q {
                assert(grown[r] == picked[r - 1]);
            } else if p < q {
                assert(grown[p] == picked[p] && grown[r] == picked[r - 1]);
            } else {
                assert(grown[p] == picked[p - 1] && grown[r] == picked[r - 1]);
            }
        }
        assert forall|p: int| 0 <= p < after.len() implies after[p] == grown[p] by {}
        assert forall|j: int|
            is_candidate(keys, j) && j < i + 1 && !after.contains(j as usize) implies after.len()
            == limit && limit < i + 1 && forall|p: int|
            0 <= p < after.len() ==> precedes(keys, #[trigger] after[p] as int, j) by {
            assert(j != i) by {
                assert(after[q] == i);
            }
            if picked.contains(j as usize) {
                let at = choose|at: int| 0 <= at < picked.len() && picked[at] == j;
                let moved = if at < q {
                    at
                } else {
                    at + 1
                };
                assert(grown[moved] == j);
                assert(moved >= after.len());
                assert forall|p: int| 0 <= p < after.len() implies precedes(
                    keys,
                    #[trigger] after[p] as int,
                    j,
                ) by {
                    assert(precedes(keys, grown[p] as int, grown[moved] as int));
                }
            } else {
                assert(picked.len() == limit);
                assert(after.len() == limit);
                let last = picked[limit - 1] as int;
                assert(is_candidate(keys, last));
                assert(precedes(keys, picked[limit - 1] as int, j));
                assert forall|p: int| 0 <= p < after.len() implies precedes(
                    keys,
                    #[trigger] after[p] as int,
                    j,
                ) by {
                    if p < q {
                        assert(after[p] == picked[p]);
                    } else if p == q {
                        assert(after[p] == i);
                        assert(precedes(keys, i, last));
                        lemma_precedes_transitive(keys, i, last, j);
                    } else {
                        assert(after[p] == picked[p - 1]);
                    }
                }
            }
        }
    } else {
        assert(q == limit && picked.len() == limit);
    }
}

/// The position at which the candidate `i` is placed: behind the members
/// that it does not rank above.
proof fn lemma_slot<G: RankOrder>(
    keys: Seq<G>,
    limit: int,
    picked: Seq<usize>,
    i: int,
    upper: int,
) -> (q: int)
    requires
        is_top_among(keys, i, limit, picked),
        is_candidate(keys, i),
        0 <= upper <= picked.len(),
        forall|p: int|
            upper <= p < picked.len() ==> keys[i].above(keys[#[trigger] picked[p] as int]),
    ensures
        0 <= q <= upper,
        q > 0 ==> !keys[i].above(keys[picked[q - 1] as int]),
        forall|p: int| q <= p < picked.len() ==> keys[i].above(keys[#[trigger] picked[p] as int]),
    decreases upper,
{
    if upper > 0 && keys[i].above(keys[picked[upper - 1] as int]) {
        lemma_slot(keys, limit, picked, i, upper - 1)
    } else {
        upper
    }
}

/// Among the first `upto` positions of any list of keys there is a top for
/// every limit.
proof fn lemma_top_among_exists<G: RankOrder>(keys: Seq<G>, upto: int, limit: int) -> (picked: Seq<
    usize,
>)
    requires
        0 <= upto <= keys.len(),
        upto <= usize::MAX,
        0 <= limit,
    ensures
        is_top_among(keys, upto, limit, picked),
    decreases upto,
{
    if upto == 0 {
        Seq::empty()
    } else {
        let i = upto - 1;
        let before = lemma_top_among_exists(keys, i, limit);
        if keys[i].eligible() {
            let q = lemma_slot(keys, limit, before, i, before.len() as int);
            lemma_place(keys, limit, before, i, q);
            placed(before, q, i as usize, limit)
        } else {
            before
        }
    }
}

/// The top of a list of keys is a top: it is in order, no longer than the
/// limit, and leaves a candidate out only when it is full and every member
/// comes before that candidate.
pub proof fn lemma_top_is_top<G: RankOrder>(keys: Seq<G>, limit: int)
    requires
        keys.len() <= usize::MAX,
        0 <= limit,
    ensures
        is_top(keys, limit, top(keys, limit)),
{
    let picked = lemma_top_among_exists(keys, keys.len() as int, limit);
    assert(is_top(keys, limit, picked));
}

/// The positions of the best `limit` eligible candidates of `keys`, best
/// first; candidates whose keys tie stay in the order of `keys`.
pub fn select_top<G: RankOrder, K: RankKey<G>>(keys: &Vec<K>, limit: usize) -> (picked: Vec<usize>)
    ensures
        is_top(order_keys(keys@), limit as int, picked@),
        picked@ == top(order_keys(keys@), limit as int),
{
    let ghost order = order_keys(keys@);
    let mut picked: Vec<usize> = Vec::new();
    let mut i: usize = 0;
    while i < keys.len()
        invariant
            i <= keys.len(),
            order == order_keys(keys@),
            is_top_among(order, i as int, limit as int, picked@),
        decreases keys.len() - i,
    {
        if keys[i].is_eligible() {
            let ghost before = picked@;
            let mut q: usize = picked.len();
            while q > 0 && keys[i].is_above(&keys[picked[q - 1]])
                invariant
                    i < keys.len(),
                    order == order_keys(keys@),
                    order[i as int].eligible(),
                    picked@ == before,
                    q <= picked.len(),
                    is_top_among(order, i as int, limit as int, picked@),
                    forall|p: int|
                        q <= p < picked.len() ==> order[i as int].above(
                            order[#[trigger] picked@[p] as int],
                        ),
                decreases q,
            {
                q -= 1;
            }
            proof {
                lemma_place(order, limit as int, before, i as int, q as int);
            }
            if q < limit {
                picked.insert(q, i);
                if picked.len() > limit {
                    picked.truncate(limit);
                }
            }
            proof {
                assert(picked@ =~= placed(before, q as int, i, limit as int));
            }
        }
        i += 1;
    }
    proof {
        lemma_top_unique(order, limit as int, picked@, top(order, limit as int));
    }
    picked
}

/// With a limit that reaches the length of `keys`, the top holds every
/// eligible candidate.
pub proof fn lemma_top_of_all<G: RankOrder>(keys: Seq<G>, limit: int, picked: Seq<usize>, i: int)
    requires
        is_top(keys, limit, picked),
        limit >= keys.len(),
        is_candidate(keys, i),
    ensures
        picked.contains(i as usize),
{
}

/// The test that the candidates meet which come before the candidate `i`.
pub open spec fn comes_before<G: RankOrder>(keys: Seq<G>, i: int) -> spec_fn(int) -> bool {
    |j: int| is_candidate(keys, j) && precedes(keys, j, i)
}

/// The rank of the candidate `i`: the number of candidates that come
/// before it.
pub open spec fn rank<G: RankOrder>(keys: Seq<G>, i: int) -> int {
    count_where(keys.len(), comes_before(keys, i))
}

/// The member at position `p` of a top has the rank `p`, and a candidate
/// is a member of the top just when its rank is below the limit.
pub proof fn lemma_rank_in_top<G: RankOrder>(keys: Seq<G>, limit: int, picked: Seq<usize>, i: int)
    requires
        keys.len() <= usize::MAX,
        is_top(keys, limit, picked),
        is_candidate(keys, i),
    ensures
        picked.contains(i as usize) <==> rank(keys, i) < limit,
        forall|p: int| 0 <= p < picked.len() && picked[p] == i ==> rank(keys, i) == p,
{
    let test = comes_before(keys, i);
    let n = keys.len();
    if picked.contains(i as usize) {
        let p = choose|p: int| 0 <= p < picked.len() && picked[p] == i as usize;
        let found = Seq::new(p as nat, |k: int| picked[k] as int);
        assert forall|k: int| 0 <= k < found.len() implies 0 <= #[trigger] found[k] < n && test(
            found[k],
        ) by {
            assert(is_candidate(keys, picked[k] as int));
            assert(precedes(keys, picked[k] as int, picked[p] as int));
        }
        assert forall|k: int, l: int| 0 <= k < l < found.len() implies found[k] != found[l] by {
            assert(is_candidate(keys, picked[k] as int));
            assert(is_candidate(keys, picked[l] as int));
            assert(precedes(keys, picked[k] as int, picked[l] as int));
            lemma_precedes_asymmetric(keys, picked[k] as int, picked[l] as int);
        }
        assert forall|j: int| 0 <= j < n && #[trigger] test(j) implies found.contains(j) by {
            lemma_precedes_asymmetric(keys, j, i);
            if picked.contains(j as usize) {
                let at = choose|at: int| 0 <= at < picked.len() && picked[at] == j as usize;
                if at > p {
                    assert(precedes(keys, picked[p] as int, picked[at] as int));
                }
                assert(found[at] == j);
            } else {
                assert(precedes(keys, picked[p] as int, j));
            }
        }
        lemma_count_listed(n, test, found);
        assert forall|r: int| 0 <= r < picked.len() && picked[r] == i implies r == p by {
            if r < p {
                assert(precedes(keys, picked[r] as int, picked[p] as int));
                lemma_precedes_asymmetric(keys, i, i);
            } else if p < r {
                assert(precedes(keys, picked[p] as int, picked[r] as int));
                lemma_precedes_asymmetric(keys, i, i);
            }
        }
    } else {
        let found = Seq::new(picked.len(), |k: int| picked[k] as int);
        assert forall|k: int| 0 <= k < found.len() implies 0 <= #[trigger] found[k] < n && test(
            found[k],
        ) by {
            assert(is_candidate(keys, picked[k] as int));
            assert(precedes(keys, picked[k] as int, i));
        }
        assert forall|k: int, l: int| 0 <= k < l < found.len() implies found[k] != found[l] by {
            assert(is_candidate(keys, picked[k] as int));
            assert(is_candidate(keys, picked[l] as int));
            assert(precedes(keys, picked[k] as int, picked[l] as int));
            lemma_precedes_asymmetric(keys, picked[k] as int, picked[l] as int);
        }
        lemma_count_listed(n, test, found);
    }
}

/// A top whose limit reaches the length of `keys` has as many members as
/// there are eligible candidates.
pub proof fn lemma_top_counts_all<G: RankOrder>(keys: Seq<G>, limit: int, picked: Seq<usize>)
    requires
        keys.len() <= usize::MAX,
        is_top(keys, limit, picked),
        limit >= keys.len(),
    ensures
        picked.len() == count_where(keys.len(), |j: int| is_candidate(keys, j)),
{
    let test = |j: int| is_candidate(keys, j);
    let found = Seq::new(picked.len(), |k: int| picked[k] as int);
    assert forall|k: int| 0 <= k < found.len() implies 0 <= #[trigger] found[k] < keys.len()
        && test(found[k]) by {
        assert(is_candidate(keys, picked[k] as int));
    }
    assert forall|k: int, l: int| 0 <= k < l < found.len() implies found[k] != found[l] by {
        assert(is_candidate(keys, picked[k] as int));
        assert(is_candidate(keys, picked[l] as int));
        assert(precedes(keys, picked[k] as int, picked[l] as int));
        lemma_precedes_asymmetric(keys, picked[k] as int, picked[l] as int);
    }
    assert forall|j: int| 0 <= j < keys.len() && #[trigger] test(j) implies found.contains(j) by {
        lemma_top_of_all(keys, limit, picked, j);
        let at = choose|at: int| 0 <= at < picked.len() && picked[at] == j as usize;
        assert(found[at] == j);
    }
    lemma_count_listed(keys.len(), test, found);
}

} // verus!
