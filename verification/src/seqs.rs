//! Helpers on vectors, stated over their sequence views.
use vstd::prelude::*;

verus! {

broadcast use vstd::seq_lib::group_seq_properties;

/// Keeps, in order, the items of `v` on which `keep` holds.
pub(crate) fn retain_where<T>(
    v: &mut Vec<T>,
    keep: impl Fn(&T) -> bool,
    Ghost(pred): Ghost<spec_fn(T) -> bool>,
)
    requires
        forall|x: &T| #[trigger] keep.requires((x,)),
        forall|x: &T, r: bool| keep.ensures((x,), r) ==> r == pred(*x),
    ensures
        final(v)@ == old(v)@.filter(pred),
{
    let mut taken: Vec<T> = Vec::new();
    std::mem::swap(v, &mut taken);
    let ghost orig = taken@;
    assert(orig.take(0) =~= Seq::<T>::empty());
    assert(Seq::<T>::empty().filter(pred) =~= Seq::<T>::empty()) by {
        reveal(Seq::filter);
    }
    for x in it: taken
        invariant
            it.seq() == orig,
            v@ == orig.take(it.index() as int).filter(pred),
            forall|x: &T| #[trigger] keep.requires((x,)),
            forall|x: &T, r: bool| keep.ensures((x,), r) ==> r == pred(*x),
    {
        let ghost i = it.index();
        proof {
            assert(orig.take(i + 1) =~= orig.take(i as int).push(x));
            orig.take(i as int).lemma_filter_push(x, pred);
        }
        if keep(&x) {
            v.push(x);
        }
    }
    proof {
        assert(orig.take(orig.len() as int) =~= orig);
    }
}

/// No two items of `s` share a key.
pub open spec fn keys_unique<T, K>(s: Seq<T>, key: spec_fn(T) -> K) -> bool {
    forall|i: int, j: int|
        0 <= i < s.len() && 0 <= j < s.len() && i != j ==> key(#[trigger] s[i]) != key(
            #[trigger] s[j],
        )
}

/// Item `i` of `s` has key `k`.
pub open spec fn key_at<T, K>(s: Seq<T>, key: spec_fn(T) -> K, k: K, i: int) -> bool {
    0 <= i < s.len() && key(s[i]) == k
}

/// Some item of `s` has key `k`.
pub open spec fn has_key<T, K>(s: Seq<T>, key: spec_fn(T) -> K, k: K) -> bool {
    exists|i: int| key_at(s, key, k, i)
}

/// The index of an item of `s` with key `k` (meaningful when one exists).
pub open spec fn index_of_key<T, K>(s: Seq<T>, key: spec_fn(T) -> K, k: K) -> int {
    choose|i: int| key_at(s, key, k, i)
}

/// The item of `s` with key `k`, if any.
pub open spec fn find_key<T, K>(s: Seq<T>, key: spec_fn(T) -> K, k: K) -> Option<T> {
    if has_key(s, key, k) {
        Some(s[index_of_key(s, key, k)])
    } else {
        None
    }
}

/// `x` stored under its key: it replaces the item with the same key, or is
/// appended when there is none (what `HashMap::insert` does to the values).
pub open spec fn upsert<T, K>(s: Seq<T>, key: spec_fn(T) -> K, x: T) -> Seq<T> {
    if has_key(s, key, key(x)) {
        s.update(index_of_key(s, key, key(x)), x)
    } else {
        s.push(x)
    }
}

pub proof fn lemma_unique_index<T, K>(s: Seq<T>, key: spec_fn(T) -> K, k: K, i: int)
    requires
        keys_unique(s, key),
        key_at(s, key, k, i),
    ensures
        index_of_key(s, key, k) == i,
        find_key(s, key, k) == Some(s[i]),
{
    let j = index_of_key(s, key, k);
    assert(key_at(s, key, k, j));
    if j != i {
        assert(key(s[i]) != key(s[j]));
    }
}

/// The index of the item of `v` with key `k`, if any.
pub(crate) fn position_of<T>(
    v: &Vec<T>,
    k: u32,
    key: impl Fn(&T) -> u32,
    Ghost(kf): Ghost<spec_fn(T) -> u32>,
) -> (r: Option<usize>)
    requires
        forall|x: &T| #[trigger] key.requires((x,)),
        forall|x: &T, r: u32| key.ensures((x,), r) ==> r == kf(*x),
    ensures
        r matches Some(i) ==> key_at(v@, kf, k, i as int) && forall|j: int|
            0 <= j < i ==> !key_at(v@, kf, k, j),
        r is None ==> !has_key(v@, kf, k),
{
    let mut i: usize = 0;
    while i < v.len()
        invariant
            i <= v@.len(),
            forall|j: int| 0 <= j < i ==> !key_at(v@, kf, k, j),
            forall|x: &T| #[trigger] key.requires((x,)),
            forall|x: &T, r: u32| key.ensures((x,), r) ==> r == kf(*x),
        decreases v@.len() - i,
    {
        if key(&v[i]) == k {
            return Some(i);
        }
        i += 1;
    }
    None
}

/// Stores `x` under its key (see [`upsert`]).
pub(crate) fn upsert_by_key<T>(
    v: &mut Vec<T>,
    x: T,
    key: impl Fn(&T) -> u32,
    Ghost(kf): Ghost<spec_fn(T) -> u32>,
)
    requires
        keys_unique(old(v)@, kf),
        forall|x: &T| #[trigger] key.requires((x,)),
        forall|x: &T, r: u32| key.ensures((x,), r) ==> r == kf(*x),
    ensures
        final(v)@ == upsert(old(v)@, kf, x),
        keys_unique(final(v)@, kf),
{
    let k = key(&x);
    match position_of(v, k, key, Ghost(kf)) {
        Some(i) => {
            proof {
                lemma_unique_index(v@, kf, k, i as int);
            }
            v.set(i, x);
            proof {
                assert forall|a: int, b: int|
                    0 <= a < v@.len() && 0 <= b < v@.len() && a != b implies kf(
                        #[trigger] v@[a],
                    ) != kf(#[trigger] v@[b]) by {
                    if a != i && b != i {
                        assert(kf(old(v)@[a]) != kf(old(v)@[b]));
                    } else if a == i {
                        assert(!key_at(old(v)@, kf, k, b) || b == i) by {
                            if key_at(old(v)@, kf, k, b) {
                                lemma_unique_index(old(v)@, kf, k, b);
                            }
                        }
                    } else {
                        assert(!key_at(old(v)@, kf, k, a) || a == i) by {
                            if key_at(old(v)@, kf, k, a) {
                                lemma_unique_index(old(v)@, kf, k, a);
                            }
                        }
                    }
                }
            }
        },
        None => {
            v.push(x);
            proof {
                assert forall|a: int, b: int|
                    0 <= a < v@.len() && 0 <= b < v@.len() && a != b implies kf(
                        #[trigger] v@[a],
                    ) != kf(#[trigger] v@[b]) by {
                    if a < old(v)@.len() && b < old(v)@.len() {
                        assert(kf(old(v)@[a]) != kf(old(v)@[b]));
                    } else if a < old(v)@.len() {
                        assert(!key_at(old(v)@, kf, k, a));
                    } else {
                        assert(!key_at(old(v)@, kf, k, b));
                    }
                }
            }
        },
    }
}

/// Filtering keeps keys unique.
pub proof fn lemma_filter_keys_unique<T, K>(s: Seq<T>, key: spec_fn(T) -> K, p: spec_fn(T) -> bool)
    requires
        keys_unique(s, key),
    ensures
        keys_unique(s.filter(p), key),
    decreases s.len(),
{
    reveal(Seq::filter);
    if s.len() > 0 {
        let init = s.drop_last();
        assert(keys_unique(init, key)) by {
            assert forall|i: int, j: int|
                0 <= i < init.len() && 0 <= j < init.len() && i != j implies key(
                    #[trigger] init[i],
                ) != key(#[trigger] init[j]) by {
                assert(init[i] == s[i] && init[j] == s[j]);
            }
        }
        lemma_filter_keys_unique(init, key, p);
        if p(s.last()) {
            let f = init.filter(p);
            let g = f.push(s.last());
            assert forall|i: int, j: int|
                0 <= i < g.len() && 0 <= j < g.len() && i != j implies key(#[trigger] g[i]) != key(
                    #[trigger] g[j],
                ) by {
                if i < f.len() && j < f.len() {
                } else if i < f.len() {
                    assert(init.contains(f[i])) by {
                        init.lemma_filter_contains_rev(p, f[i]);
                    }
                    let m = choose|m: int| 0 <= m < init.len() && init[m] == f[i];
                    assert(s[m] == init[m]);
                    assert(key(s[m]) != key(s[s.len() - 1]));
                } else {
                    assert(init.contains(f[j])) by {
                        init.lemma_filter_contains_rev(p, f[j]);
                    }
                    let m = choose|m: int| 0 <= m < init.len() && init[m] == f[j];
                    assert(s[m] == init[m]);
                    assert(key(s[m]) != key(s[s.len() - 1]));
                }
            }
        }
    }
}

/// The index of the first item of `s` on which `p` holds.
pub open spec fn first_where<T>(s: Seq<T>, p: spec_fn(T) -> bool) -> Option<int>
    decreases s.len(),
{
    if s.len() == 0 {
        None
    } else if p(s[0]) {
        Some(0)
    } else {
        match first_where(s.drop_first(), p) {
            Some(i) => Some(i + 1),
            None => None,
        }
    }
}

pub proof fn lemma_first_where<T>(s: Seq<T>, p: spec_fn(T) -> bool)
    ensures
        first_where(s, p) matches Some(i) ==> 0 <= i < s.len() && p(s[i]) && forall|j: int|
            0 <= j < i ==> !p(#[trigger] s[j]),
        first_where(s, p) is None ==> forall|j: int| 0 <= j < s.len() ==> !p(#[trigger] s[j]),
    decreases s.len(),
{
    if s.len() > 0 {
        lemma_first_where(s.drop_first(), p);
        if !p(s[0]) {
            assert forall|j: int| 0 < j < s.len() implies #[trigger] s[j] == s.drop_first()[j - 1] by {}
        }
    }
}

/// The index of the first item of `v` on which `f` holds.
pub(crate) fn find_first<T>(v: &Vec<T>, f: impl Fn(&T) -> bool, Ghost(p): Ghost<spec_fn(T) -> bool>) -> (r:
    Option<usize>)
    requires
        forall|x: &T| #[trigger] f.requires((x,)),
        forall|x: &T, b: bool| f.ensures((x,), b) ==> b == p(*x),
    ensures
        r matches Some(i) ==> first_where(v@, p) == Some(i as int) && i < v@.len(),
        r is None ==> first_where(v@, p) is None,
{
    proof {
        lemma_first_where(v@, p);
    }
    let mut i: usize = 0;
    while i < v.len()
        invariant
            i <= v@.len(),
            forall|j: int| 0 <= j < i ==> !p(#[trigger] v@[j]),
            first_where(v@, p) matches Some(k) ==> i <= k,
            forall|x: &T| #[trigger] f.requires((x,)),
            forall|x: &T, b: bool| f.ensures((x,), b) ==> b == p(*x),
        decreases v@.len() - i,
    {
        proof {
            lemma_first_where(v@, p);
        }
        if f(&v[i]) {
            return Some(i);
        }
        i += 1;
    }
    None
}

/// The association list built by storing `entries` one after the other
/// (later entries replace earlier ones with the same key).
pub open spec fn stored_all<T, K>(entries: Seq<T>, key: spec_fn(T) -> K) -> Seq<T>
    decreases entries.len(),
{
    if entries.len() == 0 {
        Seq::empty()
    } else {
        upsert(stored_all(entries.drop_last(), key), key, entries.last())
    }
}

/// Storing entries whose keys are distinct just lists them.
pub proof fn lemma_stored_all_unique<T, K>(entries: Seq<T>, key: spec_fn(T) -> K)
    requires
        keys_unique(entries, key),
    ensures
        stored_all(entries, key) == entries,
    decreases entries.len(),
{
    if entries.len() > 0 {
        let init = entries.drop_last();
        assert(keys_unique(init, key)) by {
            assert forall|i: int, j: int|
                0 <= i < init.len() && 0 <= j < init.len() && i != j implies key(#[trigger] init[i])
                != key(#[trigger] init[j]) by {
                assert(init[i] == entries[i] && init[j] == entries[j]);
            }
        }
        lemma_stored_all_unique(init, key);
        if has_key(init, key, key(entries.last())) {
            let i = index_of_key(init, key, key(entries.last()));
            assert(key_at(init, key, key(entries.last()), i));
            assert(init[i] == entries[i]);
            assert(key(entries[i]) != key(entries[entries.len() - 1]));
        }
        assert(init.push(entries.last()) =~= entries);
    }
}

/// Storing keeps keys distinct.
pub proof fn lemma_upsert_unique<T, K>(s: Seq<T>, key: spec_fn(T) -> K, x: T)
    requires
        keys_unique(s, key),
    ensures
        keys_unique(upsert(s, key, x), key),
        has_key(upsert(s, key, x), key, key(x)),
        find_key(upsert(s, key, x), key, key(x)) == Some(x),
        forall|k: K| k != key(x) ==> #[trigger] find_key(upsert(s, key, x), key, k) == find_key(s, key, k),
{
    let u = upsert(s, key, x);
    if has_key(s, key, key(x)) {
        let i = index_of_key(s, key, key(x));
        assert(key_at(s, key, key(x), i));
        assert forall|a: int, b: int|
            0 <= a < u.len() && 0 <= b < u.len() && a != b implies key(#[trigger] u[a]) != key(
                #[trigger] u[b],
            ) by {
            if a != i && b != i {
                assert(u[a] == s[a] && u[b] == s[b]);
            } else if a == i {
                assert(u[b] == s[b]);
                assert(key(s[b]) != key(s[i]));
            } else {
                assert(u[a] == s[a]);
                assert(key(s[a]) != key(s[i]));
            }
        }
        assert(key_at(u, key, key(x), i));
        lemma_unique_index(u, key, key(x), i);
        assert forall|k: K| k != key(x) implies #[trigger] find_key(u, key, k) == find_key(s, key, k) by {
            if has_key(s, key, k) {
                let j = index_of_key(s, key, k);
                assert(key_at(s, key, k, j));
                assert(j != i);
                assert(key_at(u, key, k, j));
                lemma_unique_index(u, key, k, j);
            }
            if has_key(u, key, k) {
                let j = index_of_key(u, key, k);
                assert(key_at(u, key, k, j));
                assert(j != i);
                assert(key_at(s, key, k, j));
            }
        }
    } else {
        assert forall|a: int, b: int|
            0 <= a < u.len() && 0 <= b < u.len() && a != b implies key(#[trigger] u[a]) != key(
                #[trigger] u[b],
            ) by {
            if a < s.len() && b < s.len() {
                assert(u[a] == s[a] && u[b] == s[b]);
            } else if a < s.len() {
                assert(u[a] == s[a]);
                assert(!key_at(s, key, key(x), a));
            } else {
                assert(u[b] == s[b]);
                assert(!key_at(s, key, key(x), b));
            }
        }
        assert(key_at(u, key, key(x), s.len() as int));
        lemma_unique_index(u, key, key(x), s.len() as int);
        assert forall|k: K| k != key(x) implies #[trigger] find_key(u, key, k) == find_key(s, key, k) by {
            if has_key(s, key, k) {
                let j = index_of_key(s, key, k);
                assert(key_at(s, key, k, j));
                assert(key_at(u, key, k, j));
                lemma_unique_index(u, key, k, j);
            }
            if has_key(u, key, k) {
                let j = index_of_key(u, key, k);
                assert(key_at(u, key, k, j));
                assert(j < s.len());
                assert(key_at(s, key, k, j));
            }
        }
    }
}

/// `first_where` is `k` when `p` holds at `k` and nowhere before.
pub proof fn lemma_first_where_at<T>(s: Seq<T>, p: spec_fn(T) -> bool, k: int)
    requires
        0 <= k < s.len(),
        p(s[k]),
        forall|j: int| 0 <= j < k ==> !p(#[trigger] s[j]),
    ensures
        first_where(s, p) == Some(k),
    decreases k,
{
    if k > 0 {
        assert(!p(s[0]));
        assert forall|j: int| 0 <= j < k - 1 implies !p(#[trigger] s.drop_first()[j]) by {
            assert(s.drop_first()[j] == s[j + 1]);
        }
        lemma_first_where_at(s.drop_first(), p, k - 1);
    }
}

/// `first_where` is `None` when `p` holds nowhere.
pub proof fn lemma_first_where_none<T>(s: Seq<T>, p: spec_fn(T) -> bool)
    requires
        forall|j: int| 0 <= j < s.len() ==> !p(#[trigger] s[j]),
    ensures
        first_where(s, p) is None,
    decreases s.len(),
{
    if s.len() > 0 {
        assert(!p(s[0]));
        assert forall|j: int| 0 <= j < s.len() - 1 implies !p(#[trigger] s.drop_first()[j]) by {
            assert(s.drop_first()[j] == s[j + 1]);
        }
        lemma_first_where_none(s.drop_first(), p);
    }
}

/// Filtering by a predicate that looks only at the images under `f`
/// commutes with taking those images.
pub proof fn lemma_filter_map_values<A, B>(
    s: Seq<A>,
    f: spec_fn(A) -> B,
    p: spec_fn(B) -> bool,
    q: spec_fn(A) -> bool,
)
    requires
        forall|a: A| #[trigger] q(a) == p(f(a)),
    ensures
        s.filter(q).map_values(f) == s.map_values(f).filter(p),
    decreases s.len(),
{
    reveal(Seq::filter);
    if s.len() > 0 {
        let init = s.drop_last();
        let x = s.last();
        lemma_filter_map_values(init, f, p, q);
        assert(s =~= init.push(x));
        init.lemma_filter_push(x, q);
        assert(s.map_values(f) =~= init.map_values(f).push(f(x)));
        init.map_values(f).lemma_filter_push(f(x), p);
        if q(x) {
            assert(init.filter(q).push(x).map_values(f) =~= init.filter(q).map_values(f).push(f(x)));
        }
    } else {
        assert(s.filter(q).map_values(f) =~= Seq::<B>::empty());
        assert(s.map_values(f).filter(p) =~= Seq::<B>::empty());
    }
}

/// Keeps, in order, the items of `v` whose views satisfy `pred`.
pub(crate) fn retain_viewed<T: View>(
    v: &mut Vec<T>,
    keep: impl Fn(&T) -> bool,
    Ghost(pred): Ghost<spec_fn(T::V) -> bool>,
)
    requires
        forall|x: &T| #[trigger] keep.requires((x,)),
        forall|x: &T, r: bool| keep.ensures((x,), r) ==> r == pred(x@),
    ensures
        final(v)@.map_values(|x: T| x@) == old(v)@.map_values(|x: T| x@).filter(pred),
{
    let ghost q = |x: T| pred(x@);
    let ghost orig = v@;
    retain_where(v, keep, Ghost(q));
    proof {
        lemma_filter_map_values(orig, |x: T| x@, pred, q);
    }
}

/// `first_where` only looks at where its predicate holds.
pub proof fn lemma_first_where_same<T, U>(a: Seq<T>, b: Seq<U>, p: spec_fn(T) -> bool, q: spec_fn(U) -> bool)
    requires
        a.len() == b.len(),
        forall|k: int| 0 <= k < a.len() ==> p(#[trigger] a[k]) == q(b[k]),
    ensures
        first_where(a, p) == first_where(b, q),
{
    lemma_first_where(a, p);
    match first_where(a, p) {
        Some(i) => {
            assert forall|j: int| 0 <= j < i implies !q(#[trigger] b[j]) by {
                assert(!p(a[j]));
            }
            assert(p(a[i]));
            lemma_first_where_at(b, q, i);
        },
        None => {
            assert forall|j: int| 0 <= j < b.len() implies !q(#[trigger] b[j]) by {
                assert(!p(a[j]));
            }
            lemma_first_where_none(b, q);
        },
    }
}

/// Filtering twice by one predicate is filtering once.
pub proof fn lemma_filter_twice<T>(s: Seq<T>, p: spec_fn(T) -> bool)
    ensures
        s.filter(p).filter(p) == s.filter(p),
    decreases s.len(),
{
    if s.len() > 0 {
        let init = s.drop_last();
        let x = s.last();
        lemma_filter_twice(init, p);
        assert(init.push(x) =~= s);
        init.lemma_filter_push(x, p);
        if p(x) {
            init.filter(p).lemma_filter_push(x, p);
        }
    } else {
        reveal(Seq::filter);
        assert(s.filter(p) =~= s);
    }
}

} // verus!
