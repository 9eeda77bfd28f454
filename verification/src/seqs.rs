//! Sequence notions used by the store's contracts: first match, ascending
//! keys, and how filtering interacts with both.

use vstd::prelude::*;

verus! {

/// `i` is the position of the first element of `s` that satisfies `p`.
pub open spec fn is_first<T>(s: Seq<T>, p: spec_fn(T) -> bool, i: int) -> bool {
    &&& 0 <= i < s.len()
    &&& p(s[i])
    &&& forall|j: int| 0 <= j < i ==> !p(#[trigger] s[j])
}

/// No element of `s` satisfies `p`.
pub open spec fn none_match<T>(s: Seq<T>, p: spec_fn(T) -> bool) -> bool {
    forall|j: int| 0 <= j < s.len() ==> !p(#[trigger] s[j])
}

/// Some element of `s` satisfies `p`.
pub open spec fn any_match<T>(s: Seq<T>, p: spec_fn(T) -> bool) -> bool {
    exists|j: int| 0 <= j < s.len() && p(#[trigger] s[j])
}

/// The position of the first element of `s` that satisfies `p`.
pub open spec fn first_index<T>(s: Seq<T>, p: spec_fn(T) -> bool) -> Option<int> {
    if exists|i: int| is_first(s, p, i) {
        Some(choose|i: int| is_first(s, p, i))
    } else {
        None
    }
}

/// The first element of `s` that satisfies `p`.
pub open spec fn find_first<T>(s: Seq<T>, p: spec_fn(T) -> bool) -> Option<T> {
    match first_index(s, p) {
        Some(i) => Some(s[i]),
        None => None,
    }
}

/// A first match is the only first match.
pub proof fn lemma_first_found<T>(s: Seq<T>, p: spec_fn(T) -> bool, i: int)
    requires
        is_first(s, p, i),
    ensures
        first_index(s, p) == Some(i),
        find_first(s, p) == Some(s[i]),
{
    let k = choose|k: int| is_first(s, p, k);
    assert(is_first(s, p, k));
    if k < i {
        assert(!p(s[k]));
    }
    if i < k {
        assert(!p(s[i]));
    }
}

/// Without a match there is no first match.
pub proof fn lemma_first_absent<T>(s: Seq<T>, p: spec_fn(T) -> bool)
    requires
        none_match(s, p),
    ensures
        first_index(s, p) is None,
        find_first(s, p) is None,
{
    if exists|i: int| is_first(s, p, i) {
        let k = choose|k: int| is_first(s, p, k);
        assert(!p(s[k]));
    }
}

/// What a first match, or its absence, says of the sequence.
pub proof fn lemma_first_index<T>(s: Seq<T>, p: spec_fn(T) -> bool)
    ensures
        first_index(s, p) matches Some(i) ==> is_first(s, p, i),
        first_index(s, p) is None ==> none_match(s, p),
        first_index(s, p) is Some <==> any_match(s, p),
{
    if first_index(s, p) is None {
        if !none_match(s, p) {
            let j = choose|j: int| 0 <= j < s.len() && p(#[trigger] s[j]);
            lemma_least_match(s, p, j);
        }
    } else {
        let i = first_index(s, p)->0;
        assert(is_first(s, p, i));
        assert(p(s[i]));
    }
}

/// Below any match lies a first match.
pub proof fn lemma_least_match<T>(s: Seq<T>, p: spec_fn(T) -> bool, j: int)
    requires
        0 <= j < s.len(),
        p(s[j]),
    ensures
        exists|i: int| is_first(s, p, i) && i <= j,
    decreases j,
{
    if forall|k: int| 0 <= k < j ==> !p(#[trigger] s[k]) {
        assert(is_first(s, p, j));
    } else {
        let k = choose|k: int| 0 <= k < j && p(#[trigger] s[k]);
        lemma_least_match(s, p, k);
    }
}

/// The keys of `s` are positive and strictly increasing.
pub open spec fn ascending<T>(s: Seq<T>, key: spec_fn(T) -> i64) -> bool {
    &&& forall|i: int| 0 <= i < s.len() ==> 0 < key(#[trigger] s[i])
    &&& forall|i: int, j: int| 0 <= i < j < s.len() ==> key(#[trigger] s[i]) < key(#[trigger] s[j])
}

/// Every key of `s` is below `bound`.
pub open spec fn keys_below<T>(s: Seq<T>, key: spec_fn(T) -> i64, bound: int) -> bool {
    forall|i: int| 0 <= i < s.len() ==> key(#[trigger] s[i]) < bound
}

/// Filtering keeps the keys ascending, and each kept element comes from `s`.
pub proof fn lemma_filter_ascending<T>(s: Seq<T>, p: spec_fn(T) -> bool, key: spec_fn(T) -> i64)
    requires
        ascending(s, key),
    ensures
        ascending(s.filter(p), key),
        forall|i: int|
            0 <= i < s.filter(p).len() ==> s.contains(#[trigger] s.filter(p)[i]) && p(
                s.filter(p)[i],
            ),
    decreases s.len(),
{
    reveal(Seq::filter);
    if s.len() > 0 {
        let init = s.drop_last();
        lemma_filter_ascending(init, p, key);
        let f = init.filter(p);
        assert forall|i: int| 0 <= i < f.len() implies s.contains(#[trigger] f[i]) && key(f[i])
            < key(s.last()) by {
            let k = choose|k: int| 0 <= k < init.len() && init[k] == f[i];
            assert(s[k] == f[i]);
        }
        if p(s.last()) {
            assert(s[s.len() - 1] == s.last());
        }
    }
}

/// An element is kept by a filter exactly when it is in `s` and satisfies `p`.
pub proof fn lemma_filter_member<T>(s: Seq<T>, p: spec_fn(T) -> bool, x: T)
    ensures
        s.filter(p).contains(x) <==> s.contains(x) && p(x),
    decreases s.len(),
{
    reveal(Seq::filter);
    if s.len() > 0 {
        let init = s.drop_last();
        lemma_filter_member(init, p, x);
        let f = init.filter(p);
        if s.contains(x) && p(x) {
            let k = choose|k: int| 0 <= k < s.len() && s[k] == x;
            if k < s.len() - 1 {
                assert(init[k] == x);
                let m = choose|m: int| 0 <= m < f.len() && f[m] == x;
                assert(s.filter(p)[m] == x);
            } else {
                assert(s.filter(p).last() == x);
            }
        }
        if s.filter(p).contains(x) {
            let m = choose|m: int| 0 <= m < s.filter(p).len() && s.filter(p)[m] == x;
            if m < f.len() {
                assert(f[m] == x);
                assert(f.contains(x));
                let k = choose|k: int| 0 <= k < init.len() && init[k] == x;
                assert(s[k] == x);
            } else {
                assert(s[s.len() - 1] == x);
            }
        }
    }
}

/// One more element of `s` taken: how the filter of the prefix grows.
pub proof fn lemma_filter_step<T>(s: Seq<T>, p: spec_fn(T) -> bool, i: int)
    requires
        0 <= i < s.len(),
    ensures
        s.take(i + 1).filter(p) == if p(s[i]) {
            s.take(i).filter(p).push(s[i])
        } else {
            s.take(i).filter(p)
        },
{
    reveal(Seq::filter);
    assert(s.take(i + 1).drop_last() =~= s.take(i));
}


/// One more element of `s` taken: how the mapped filter of the prefix grows.
pub proof fn lemma_filter_map_step<T, U>(s: Seq<T>, f: spec_fn(T) -> Option<U>, i: int)
    requires
        0 <= i < s.len(),
    ensures
        s.take(i + 1).filter_map(f) == match f(s[i]) {
            Some(x) => s.take(i).filter_map(f).push(x),
            None => s.take(i).filter_map(f),
        },
{
    reveal(Seq::filter_map);
    assert(s.take(i + 1).drop_last() =~= s.take(i));
    match f(s[i]) {
        Some(x) => {
            assert(s.take(i).filter_map(f) + seq![x] =~= s.take(i).filter_map(f).push(x));
        },
        None => {},
    }
}

/// The filter of a prefix is a prefix of the filter.
pub proof fn lemma_filter_prefix<T>(s: Seq<T>, p: spec_fn(T) -> bool, i: int)
    requires
        0 <= i <= s.len(),
    ensures
        s.take(i).filter(p).len() <= s.filter(p).len(),
        s.take(i).filter(p) == s.filter(p).take(s.take(i).filter(p).len() as int),
{
    assert(s =~= s.take(i) + s.skip(i));
    Seq::filter_distributes_over_add(s.take(i), s.skip(i), p);
    let a = s.take(i).filter(p);
    let b = s.skip(i).filter(p);
    assert((a + b).take(a.len() as int) =~= a);
}


/// The mapped filter of a prefix is no longer than that of the whole.
pub proof fn lemma_filter_map_prefix<T, U>(s: Seq<T>, f: spec_fn(T) -> Option<U>, i: int)
    requires
        0 <= i <= s.len(),
    ensures
        s.take(i).filter_map(f).len() <= s.filter_map(f).len(),
    decreases s.len() - i,
{
    if i < s.len() {
        lemma_filter_map_step(s, f, i);
        lemma_filter_map_prefix(s, f, i + 1);
    } else {
        assert(s.take(i) =~= s);
    }
}


/// Two predicates that agree on every element find the same first match.
pub proof fn lemma_first_agree<T>(s: Seq<T>, p: spec_fn(T) -> bool, q: spec_fn(T) -> bool)
    requires
        forall|i: int| 0 <= i < s.len() ==> p(#[trigger] s[i]) == q(s[i]),
    ensures
        first_index(s, p) == first_index(s, q),
        find_first(s, p) == find_first(s, q),
{
    lemma_first_index(s, p);
    match first_index(s, p) {
        Some(i) => {
            assert(is_first(s, q, i));
            lemma_first_found(s, q, i);
        },
        None => {
            assert(none_match(s, q));
            lemma_first_absent(s, q);
        },
    }
}

/// Two predicates that agree on every element keep the same elements.
pub proof fn lemma_filter_agree<T>(s: Seq<T>, p: spec_fn(T) -> bool, q: spec_fn(T) -> bool)
    requires
        forall|i: int| 0 <= i < s.len() ==> p(#[trigger] s[i]) == q(s[i]),
    ensures
        s.filter(p) == s.filter(q),
    decreases s.len(),
{
    reveal(Seq::filter);
    if s.len() > 0 {
        let init = s.drop_last();
        assert forall|i: int| 0 <= i < init.len() implies p(#[trigger] init[i]) == q(init[i]) by {
            assert(init[i] == s[i]);
        }
        lemma_filter_agree(init, p, q);
        assert(p(s[s.len() - 1]) == q(s[s.len() - 1]));
    }
}

/// Where nothing is mapped, the mapped filter is empty.
pub proof fn lemma_filter_map_none<T, U>(s: Seq<T>, f: spec_fn(T) -> Option<U>)
    requires
        forall|i: int| 0 <= i < s.len() ==> f(#[trigger] s[i]) is None,
    ensures
        s.filter_map(f).len() == 0,
    decreases s.len(),
{
    reveal(Seq::filter_map);
    if s.len() > 0 {
        let init = s.drop_last();
        assert forall|i: int| 0 <= i < init.len() implies f(#[trigger] init[i]) is None by {
            assert(init[i] == s[i]);
        }
        lemma_filter_map_none(init, f);
        assert(f(s[s.len() - 1]) is None);
    }
}

/// What an element is mapped to is in the mapped filter.
pub proof fn lemma_filter_map_has<T, U>(s: Seq<T>, f: spec_fn(T) -> Option<U>, i: int)
    requires
        0 <= i < s.len(),
        f(s[i]) is Some,
    ensures
        exists|j: int|
            0 <= j < s.filter_map(f).len() && #[trigger] s.filter_map(f)[j] == f(s[i])->0,
    decreases s.len(),
{
    reveal(Seq::filter_map);
    let init = s.drop_last();
    let out = s.filter_map(f);
    if i < s.len() - 1 {
        assert(init[i] == s[i]);
        lemma_filter_map_has(init, f, i);
        let j = choose|j: int|
            0 <= j < init.filter_map(f).len() && #[trigger] init.filter_map(f)[j] == f(s[i])->0;
        assert(out[j] == f(s[i])->0);
    } else {
        assert(out[out.len() - 1] == f(s[i])->0);
    }
}

/// Each element of the mapped filter is what some element is mapped to.
pub proof fn lemma_filter_map_from<T, U>(s: Seq<T>, f: spec_fn(T) -> Option<U>, j: int)
    requires
        0 <= j < s.filter_map(f).len(),
    ensures
        exists|i: int| 0 <= i < s.len() && f(#[trigger] s[i]) == Some(s.filter_map(f)[j]),
    decreases s.len(),
{
    reveal(Seq::filter_map);
    let init = s.drop_last();
    let out = s.filter_map(f);
    if s.len() > 0 {
        if j < init.filter_map(f).len() {
            lemma_filter_map_from(init, f, j);
            let i = choose|i: int|
                0 <= i < init.len() && f(#[trigger] init[i]) == Some(init.filter_map(f)[j]);
            assert(init[i] == s[i]);
            assert(f(s[i]) == Some(out[j]));
        } else {
            assert(f(s[s.len() - 1]) == Some(out[j]));
        }
    }
}

/// Dropping first what is not mapped anyway changes nothing.
pub proof fn lemma_filter_map_of_filter<T, U>(
    s: Seq<T>,
    p: spec_fn(T) -> bool,
    f: spec_fn(T) -> Option<U>,
)
    requires
        forall|i: int| 0 <= i < s.len() && !p(#[trigger] s[i]) ==> f(s[i]) is None,
    ensures
        s.filter(p).filter_map(f) == s.filter_map(f),
    decreases s.len(),
{
    reveal(Seq::filter);
    reveal(Seq::filter_map);
    if s.len() > 0 {
        let init = s.drop_last();
        let last = s[s.len() - 1];
        assert forall|i: int| 0 <= i < init.len() && !p(#[trigger] init[i]) implies f(init[i])
            is None by {
            assert(init[i] == s[i]);
        }
        lemma_filter_map_of_filter(init, p, f);
        if p(last) {
            assert(init.filter(p).push(last).drop_last() =~= init.filter(p));
        }
    }
}


/// Inserting an element anywhere adds it to the elements once.
pub proof fn lemma_insert_to_multiset<T>(s: Seq<T>, i: int, a: T)
    requires
        0 <= i <= s.len(),
    ensures
        s.insert(i, a).to_multiset() == s.to_multiset().insert(a),
{
    broadcast use vstd::seq_lib::group_to_multiset_ensures;

    let t = s.insert(i, a);
    assert(t.remove(i) =~= s);
    assert(t[i] == a);
    assert(t.contains(a));
    vstd::seq_lib::to_multiset_remove(t, i);
    assert(t.to_multiset().count(a) > 0);
    assert(t.to_multiset() =~= s.to_multiset().insert(a));
}


/// A mapped filter is no longer than the sequence.
pub proof fn lemma_filter_map_len<T, U>(s: Seq<T>, f: spec_fn(T) -> Option<U>)
    ensures
        s.filter_map(f).len() <= s.len(),
    decreases s.len(),
{
    reveal(Seq::filter_map);
    if s.len() > 0 {
        lemma_filter_map_len(s.drop_last(), f);
    }
}


/// Filtering twice is filtering once by both.
pub proof fn lemma_filter_twice<T>(
    s: Seq<T>,
    p: spec_fn(T) -> bool,
    q: spec_fn(T) -> bool,
    both: spec_fn(T) -> bool,
)
    requires
        forall|i: int| 0 <= i < s.len() ==> both(#[trigger] s[i]) == (p(s[i]) && q(s[i])),
    ensures
        s.filter(both) == s.filter(p).filter(q),
    decreases s.len(),
{
    reveal(Seq::filter);
    if s.len() > 0 {
        let init = s.drop_last();
        let last = s[s.len() - 1];
        assert forall|i: int| 0 <= i < init.len() implies both(#[trigger] init[i]) == (p(init[i])
            && q(init[i])) by {
            assert(init[i] == s[i]);
        }
        lemma_filter_twice(init, p, q, both);
        assert(both(last) == (p(last) && q(last)));
        if p(last) {
            assert(init.filter(p).push(last).drop_last() =~= init.filter(p));
        }
    }
}

} // verus!
