//! Picking items from a sequence: the first that matches, and those whose
//! key is new.

use vstd::prelude::*;

verus! {

/// Whether position `i` is the first in `s` whose item matches.
pub open spec fn first_at<A>(s: Seq<A>, pred: spec_fn(A) -> bool, i: int) -> bool {
    &&& 0 <= i < s.len()
    &&& pred(s[i])
    &&& forall|j: int| 0 <= j < i ==> !pred(#[trigger] s[j])
}

/// Whether some item of `s` matches.
pub open spec fn any<A>(s: Seq<A>, pred: spec_fn(A) -> bool) -> bool {
    exists|i: int| 0 <= i < s.len() && pred(#[trigger] s[i])
}

/// The first item of `s` that matches.
pub open spec fn first<A>(s: Seq<A>, pred: spec_fn(A) -> bool) -> Option<A> {
    if any(s, pred) {
        Some(s[choose|i: int| first_at(s, pred, i)])
    } else {
        None
    }
}

/// A position that is found to be the first match is the one that `first` picks.
pub proof fn lemma_first_at<A>(s: Seq<A>, pred: spec_fn(A) -> bool, i: int)
    requires
        first_at(s, pred, i),
    ensures
        first(s, pred) == Some(s[i]),
{
    assert(pred(s[i]));
    let k = choose|k: int| first_at(s, pred, k);
    assert(first_at(s, pred, k));
    assert(k == i) by {
        if k < i {
            assert(!pred(s[k]));
        } else if i < k {
            assert(!pred(s[i]));
        }
    }
}

/// Where the item at `w` matches, there is a first position that matches.
pub proof fn lemma_first_exists<A>(s: Seq<A>, pred: spec_fn(A) -> bool, w: int)
    requires
        0 <= w < s.len(),
        pred(s[w]),
    ensures
        exists|k: int| first_at(s, pred, k) && k <= w,
    decreases w,
{
    if forall|j: int| 0 <= j < w ==> !pred(#[trigger] s[j]) {
        assert(first_at(s, pred, w));
    } else {
        let j = choose|j: int| 0 <= j < w && pred(#[trigger] s[j]);
        lemma_first_exists(s, pred, j);
    }
}

/// What `first` picks is an item of the sequence that matches, and nothing
/// before it matches.
pub proof fn lemma_first_is_member<A>(s: Seq<A>, pred: spec_fn(A) -> bool)
    requires
        first(s, pred) is Some,
    ensures
        pred(first(s, pred)->0),
        s.contains(first(s, pred)->0),
        exists|k: int| first_at(s, pred, k) && s[k] == first(s, pred)->0,
{
    let w = choose|i: int| 0 <= i < s.len() && pred(#[trigger] s[i]);
    lemma_first_exists(s, pred, w);
    let k = choose|k: int| first_at(s, pred, k);
    assert(first_at(s, pred, k));
}

/// Where nothing matches, `first` picks nothing.
pub proof fn lemma_first_none<A>(s: Seq<A>, pred: spec_fn(A) -> bool)
    requires
        forall|j: int| 0 <= j < s.len() ==> !pred(#[trigger] s[j]),
    ensures
        first(s, pred) is None,
{
}

/// The items of `s` whose key no earlier item has, in their order.
pub open spec fn distinct_by<A, K>(s: Seq<A>, key: spec_fn(A) -> K) -> Seq<A>
    decreases s.len(),
{
    if s.len() == 0 {
        s
    } else {
        let rest = distinct_by(s.drop_last(), key);
        if seen_before(s, key, s.len() - 1) {
            rest
        } else {
            rest.push(s.last())
        }
    }
}

/// Whether an item before position `i` has the key of the item at `i`.
pub open spec fn seen_before<A, K>(s: Seq<A>, key: spec_fn(A) -> K, i: int) -> bool {
    exists|j: int| 0 <= j < i && key(#[trigger] s[j]) == key(s[i])
}

/// One more item: it is kept if and only if its key is new.
pub proof fn lemma_distinct_step<A, K>(s: Seq<A>, key: spec_fn(A) -> K, i: int)
    requires
        0 <= i < s.len(),
    ensures
        distinct_by(s.take(i + 1), key) == if seen_before(s, key, i) {
            distinct_by(s.take(i), key)
        } else {
            distinct_by(s.take(i), key).push(s[i])
        },
{
    let t = s.take(i + 1);
    assert(t.drop_last() =~= s.take(i));
    assert(t.last() == s[i]);
    if seen_before(s, key, i) {
        let j = choose|j: int| 0 <= j < i && key(#[trigger] s[j]) == key(s[i]);
        assert(key(t[j]) == key(t[i]));
        assert(seen_before(t, key, t.len() - 1));
    } else {
        if seen_before(t, key, t.len() - 1) {
            let j = choose|j: int| 0 <= j < t.len() - 1 && key(#[trigger] t[j]) == key(t[t.len() - 1]);
            assert(key(s[j]) == key(s[i]));
            assert(false);
        }
    }
}

/// What stays has each key once and comes from the sequence, and every key
/// of the sequence stays.
pub proof fn lemma_distinct_by<A, K>(s: Seq<A>, key: spec_fn(A) -> K)
    ensures
        forall|i: int, j: int|
            0 <= i < j < distinct_by(s, key).len() ==> key(#[trigger] distinct_by(s, key)[i])
                != key(#[trigger] distinct_by(s, key)[j]),
        forall|i: int|
            0 <= i < distinct_by(s, key).len() ==> s.contains(#[trigger] distinct_by(s, key)[i]),
        forall|i: int|
            0 <= i < s.len() ==> exists|j: int|
                0 <= j < distinct_by(s, key).len() && key(#[trigger] distinct_by(s, key)[j]) == key(
                    #[trigger] s[i],
                ),
    decreases s.len(),
{
    if s.len() == 0 {
        return ;
    }
    let n = s.len() - 1;
    let rest = s.drop_last();
    let r = distinct_by(rest, key);
    let d = distinct_by(s, key);
    lemma_distinct_by(rest, key);
    assert forall|i: int| 0 <= i < r.len() implies s.contains(#[trigger] r[i]) by {
        assert(rest.contains(r[i]));
        let m = choose|m: int| 0 <= m < rest.len() && rest[m] == r[i];
        assert(s[m] == r[i]);
    }
    if seen_before(s, key, n) {
        assert(d == r);
        assert forall|i: int| 0 <= i < s.len() implies exists|j: int|
            0 <= j < d.len() && key(#[trigger] d[j]) == key(#[trigger] s[i]) by {
            if i < n {
                assert(rest[i] == s[i]);
                let j = choose|j: int| 0 <= j < r.len() && key(#[trigger] r[j]) == key(rest[i]);
                assert(key(d[j]) == key(s[i]));
            } else {
                let m = choose|m: int| 0 <= m < n && key(#[trigger] s[m]) == key(s[n]);
                assert(rest[m] == s[m]);
                let j = choose|j: int| 0 <= j < r.len() && key(#[trigger] r[j]) == key(rest[m]);
                assert(key(d[j]) == key(s[i]));
            }
        }
    } else {
        assert(d == r.push(s[n]));
        assert forall|i: int, j: int| 0 <= i < j < d.len() implies key(#[trigger] d[i]) != key(
            #[trigger] d[j],
        ) by {
            if j < r.len() {
                assert(d[i] == r[i] && d[j] == r[j]);
            } else {
                assert(d[i] == r[i]);
                assert(rest.contains(r[i]));
                let m = choose|m: int| 0 <= m < rest.len() && rest[m] == r[i];
                assert(s[m] == r[i]);
            }
        }
        assert forall|i: int| 0 <= i < d.len() implies s.contains(#[trigger] d[i]) by {
            if i < r.len() {
                assert(d[i] == r[i]);
            } else {
                assert(s[n] == d[i]);
            }
        }
        assert forall|i: int| 0 <= i < s.len() implies exists|j: int|
            0 <= j < d.len() && key(#[trigger] d[j]) == key(#[trigger] s[i]) by {
            if i < n {
                assert(rest[i] == s[i]);
                let j = choose|j: int| 0 <= j < r.len() && key(#[trigger] r[j]) == key(rest[i]);
                assert(d[j] == r[j]);
                assert(key(d[j]) == key(s[i]));
            } else {
                assert(d[r.len() as int] == s[n]);
                assert(key(d[r.len() as int]) == key(s[i]));
            }
        }
    }
}

/// Where nothing matches, a filter keeps nothing.
pub proof fn lemma_filter_nothing<A>(s: Seq<A>, pred: spec_fn(A) -> bool)
    requires
        forall|i: int| 0 <= i < s.len() ==> !pred(#[trigger] s[i]),
    ensures
        s.filter(pred) == Seq::<A>::empty(),
    decreases s.len(),
{
    reveal(Seq::filter);
    if s.len() > 0 {
        assert(!pred(s[s.len() - 1]));
        assert forall|i: int| 0 <= i < s.drop_last().len() implies !pred(
            #[trigger] s.drop_last()[i],
        ) by {
            assert(s.drop_last()[i] == s[i]);
        }
        lemma_filter_nothing(s.drop_last(), pred);
    }
}

/// A filter keeps the items of the sequence that match, and no others.
pub proof fn lemma_filter_members<A>(s: Seq<A>, pred: spec_fn(A) -> bool, x: A)
    ensures
        s.filter(pred).contains(x) <==> s.contains(x) && pred(x),
{
    if s.filter(pred).contains(x) {
        let k = choose|k: int| 0 <= k < s.filter(pred).len() && s.filter(pred)[k] == x;
        s.lemma_filter_pred(pred, k);
        s.lemma_filter_contains_rev(pred, x);
    }
    if s.contains(x) && pred(x) {
        let i = choose|i: int| 0 <= i < s.len() && s[i] == x;
        s.lemma_filter_contains(pred, i);
    }
}

/// Where nothing is mapped, a filtering map gives nothing.
pub proof fn lemma_filter_map_nothing<A, B>(s: Seq<A>, f: spec_fn(A) -> Option<B>)
    requires
        forall|i: int| 0 <= i < s.len() ==> f(#[trigger] s[i]) is None,
    ensures
        s.filter_map(f) == Seq::<B>::empty(),
    decreases s.len(),
{
    if s.len() > 0 {
        assert(f(s[s.len() - 1]) is None);
        assert forall|i: int| 0 <= i < s.drop_last().len() implies f(
            #[trigger] s.drop_last()[i],
        ) is None by {
            assert(s.drop_last()[i] == s[i]);
        }
        lemma_filter_map_nothing(s.drop_last(), f);
    }
}

/// Where every item is mapped, a filtering map gives one result for each.
pub proof fn lemma_filter_map_all<A, B>(s: Seq<A>, f: spec_fn(A) -> Option<B>)
    requires
        forall|i: int| 0 <= i < s.len() ==> f(#[trigger] s[i]) is Some,
    ensures
        s.filter_map(f).len() == s.len(),
        forall|i: int| 0 <= i < s.len() ==> Some(#[trigger] s.filter_map(f)[i]) == f(s[i]),
    decreases s.len(),
{
    if s.len() > 0 {
        let rest = s.drop_last();
        assert(f(s[s.len() - 1]) is Some);
        assert forall|i: int| 0 <= i < rest.len() implies f(#[trigger] rest[i]) is Some by {
            assert(rest[i] == s[i]);
        }
        lemma_filter_map_all(rest, f);
        assert forall|i: int| 0 <= i < s.len() implies Some(#[trigger] s.filter_map(f)[i]) == f(
            s[i],
        ) by {
            if i < rest.len() {
                assert(s.filter_map(f)[i] == rest.filter_map(f)[i]);
                assert(rest[i] == s[i]);
            }
        }
    }
}

/// What an item is mapped to is among the results of a filtering map.
pub proof fn lemma_filter_map_has<A, B>(s: Seq<A>, f: spec_fn(A) -> Option<B>, i: int)
    requires
        0 <= i < s.len(),
        f(s[i]) is Some,
    ensures
        s.filter_map(f).contains(f(s[i])->0),
    decreases s.len(),
{
    let rest = s.drop_last();
    let out = s.filter_map(f);
    if i == s.len() - 1 {
        assert(out[out.len() - 1] == f(s[i])->0);
    } else {
        assert(rest[i] == s[i]);
        lemma_filter_map_has(rest, f, i);
        let k = choose|k: int| 0 <= k < rest.filter_map(f).len() && rest.filter_map(f)[k] == f(s[i])->0;
        assert(out[k] == f(s[i])->0);
    }
}

} // verus!
