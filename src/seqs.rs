//! Sequence helpers shared by the stores: keyed lookup, membership and
//! removal of every copy of a value.
use vstd::prelude::*;

verus! {

/// The last position of `s` whose element satisfies `p`, or -1 when none does.
pub open spec fn last_index<T>(s: Seq<T>, p: spec_fn(T) -> bool) -> int
    decreases s.len(),
{
    if s.len() == 0 {
        -1
    } else if p(s.last()) {
        s.len() - 1
    } else {
        last_index(s.drop_last(), p)
    }
}

/// `last_index` is the unique position that satisfies `p` with no later one doing so.
pub proof fn lemma_last_index<T>(s: Seq<T>, p: spec_fn(T) -> bool)
    ensures
        -1 <= last_index(s, p) < s.len(),
        last_index(s, p) >= 0 ==> p(s[last_index(s, p)]),
        forall|j: int| last_index(s, p) < j < s.len() ==> !p(#[trigger] s[j]),
    decreases s.len(),
{
    if s.len() > 0 && !p(s.last()) {
        lemma_last_index(s.drop_last(), p);
        assert forall|j: int| last_index(s, p) < j < s.len() implies !p(#[trigger] s[j]) by {
            if j < s.len() - 1 {
                assert(s[j] == s.drop_last()[j]);
            }
        }
    }
}

/// A position that satisfies `p`, with no later one doing so, is `last_index`.
pub proof fn lemma_last_index_at<T>(s: Seq<T>, p: spec_fn(T) -> bool, i: int)
    requires
        -1 <= i < s.len(),
        i >= 0 ==> p(s[i]),
        forall|j: int| i < j < s.len() ==> !p(#[trigger] s[j]),
    ensures
        last_index(s, p) == i,
{
    lemma_last_index(s, p);
}

/// Replacing an element by one that `p` judges alike leaves `last_index` as it was.
pub proof fn lemma_last_index_update<T>(s: Seq<T>, p: spec_fn(T) -> bool, i: int, e: T)
    requires
        0 <= i < s.len(),
        p(e) == p(s[i]),
    ensures
        last_index(s.update(i, e), p) == last_index(s, p),
{
    let t = s.update(i, e);
    lemma_last_index(s, p);
    let k = last_index(s, p);
    assert forall|j: int| k < j < t.len() implies !p(#[trigger] t[j]) by {
        assert(!p(s[j]));
    }
    lemma_last_index_at(t, p, k);
}

/// `s` with every copy of `x` taken out, the rest in order.
pub open spec fn without<T>(s: Seq<T>, x: T) -> Seq<T> {
    s.filter(|y: T| y != x)
}

/// `without(s, x)` keeps every other element of `s`, holds nothing else and
/// no `x`, and repeats nothing when `s` repeats nothing.
pub proof fn lemma_without<T>(s: Seq<T>, x: T)
    ensures
        forall|y: T| y != x && s.contains(y) ==> #[trigger] without(s, x).contains(y),
        forall|y: T| #[trigger] without(s, x).contains(y) ==> s.contains(y) && y != x,
        s.no_duplicates() ==> without(s, x).no_duplicates(),
    decreases s.len(),
{
    reveal(Seq::filter);
    if s.len() > 0 {
        let d = s.drop_last();
        let e = s.last();
        lemma_without(d, x);
        let t = without(d, x);
        assert(without(s, x) == if e != x {
            t.push(e)
        } else {
            t
        });
        assert forall|y: T| y != x && s.contains(y) implies #[trigger] without(s, x).contains(y) by {
            let i = choose|i: int| 0 <= i < s.len() && s[i] == y;
            if i == s.len() - 1 {
                assert(without(s, x)[without(s, x).len() - 1] == y);
            } else {
                assert(d[i] == y);
                assert(d.contains(y));
                assert(t.contains(y));
                let j = choose|j: int| 0 <= j < t.len() && t[j] == y;
                if e != x {
                    assert(t.push(e)[j] == t[j]);
                }
                assert(without(s, x)[j] == y);
            }
        }
        assert forall|y: T| #[trigger] without(s, x).contains(y) implies s.contains(y) && y != x by {
            let j = choose|j: int| 0 <= j < without(s, x).len() && without(s, x)[j] == y;
            if e != x && j == t.len() {
                assert(s[s.len() - 1] == y);
            } else {
                assert(t[j] == y);
                assert(t.contains(y));
                let i = choose|i: int| 0 <= i < d.len() && d[i] == y;
                assert(s[i] == y);
            }
        }
        if s.no_duplicates() {
            assert(d.no_duplicates());
            if e != x {
                assert(!t.contains(e)) by {
                    if t.contains(e) {
                        let i = choose|i: int| 0 <= i < d.len() && d[i] == e;
                        assert(s[i] == s[s.len() - 1]);
                    }
                }
                assert forall|a: int, b: int|
                    0 <= a < t.push(e).len() && 0 <= b < t.push(e).len() && a != b implies t.push(
                    e,
                )[a] != t.push(e)[b] by {
                    if a == t.len() {
                        assert(t.contains(t[b]));
                    } else if b == t.len() {
                        assert(t.contains(t[a]));
                    }
                }
            }
        }
    }
}

/// Every element that `filter` keeps is an element of `s`.
pub proof fn lemma_filter_from<T>(s: Seq<T>, p: spec_fn(T) -> bool)
    ensures
        forall|k: int|
            0 <= k < s.filter(p).len() ==> exists|m: int| 0 <= m < s.len() && s[m] == #[trigger] s.filter(p)[k],
    decreases s.len(),
{
    reveal(Seq::filter);
    if s.len() > 0 {
        let d = s.drop_last();
        lemma_filter_from(d, p);
        assert forall|k: int| 0 <= k < s.filter(p).len() implies exists|m: int|
            0 <= m < s.len() && s[m] == #[trigger] s.filter(p)[k] by {
            if k < d.filter(p).len() {
                assert(s.filter(p)[k] == d.filter(p)[k]);
                let m = choose|m: int| 0 <= m < d.len() && d[m] == #[trigger] d.filter(p)[k];
                assert(s[m] == d[m]);
            } else {
                assert(s.filter(p)[k] == s[s.len() - 1]);
            }
        }
    }
}

/// What every element of `s` satisfies, every element of a filter of `s` does.
pub proof fn lemma_filter_all<T>(s: Seq<T>, p: spec_fn(T) -> bool, q: spec_fn(T) -> bool)
    requires
        forall|i: int| 0 <= i < s.len() ==> q(#[trigger] s[i]),
    ensures
        forall|k: int| 0 <= k < s.filter(p).len() ==> q(#[trigger] s.filter(p)[k]),
{
    lemma_filter_from(s, p);
    assert forall|k: int| 0 <= k < s.filter(p).len() implies q(#[trigger] s.filter(p)[k]) by {
        let m = choose|m: int| 0 <= m < s.len() && s[m] == #[trigger] s.filter(p)[k];
        assert(q(s[m]));
    }
}

/// Filtering keeps keys distinct.
pub proof fn lemma_filter_distinct<T, K>(s: Seq<T>, p: spec_fn(T) -> bool, key: spec_fn(T) -> K)
    requires
        forall|i: int, j: int| 0 <= i < j < s.len() ==> key(#[trigger] s[i]) != key(#[trigger] s[j]),
    ensures
        forall|i: int, j: int|
            0 <= i < j < s.filter(p).len() ==> key(#[trigger] s.filter(p)[i]) != key(
                #[trigger] s.filter(p)[j],
            ),
    decreases s.len(),
{
    reveal(Seq::filter);
    if s.len() > 0 {
        let d = s.drop_last();
        let f = d.filter(p);
        assert forall|i: int, j: int| 0 <= i < j < d.len() implies key(#[trigger] d[i]) != key(
            #[trigger] d[j],
        ) by {
            assert(d[i] == s[i] && d[j] == s[j]);
        }
        lemma_filter_distinct(d, p, key);
        lemma_filter_from(d, p);
        if p(s.last()) {
            assert forall|i: int, j: int|
                0 <= i < j < s.filter(p).len() implies key(#[trigger] s.filter(p)[i]) != key(
                #[trigger] s.filter(p)[j],
            ) by {
                assert(s.filter(p) == f.push(s.last()));
                if j == f.len() {
                    assert(s.filter(p)[i] == f[i]);
                    let m = choose|m: int| 0 <= m < d.len() && d[m] == #[trigger] f[i];
                    assert(s[m] == d[m]);
                } else {
                    assert(s.filter(p)[i] == f[i] && s.filter(p)[j] == f[j]);
                }
            }
        }
    }
}

/// Whether `v` holds `x`.
pub fn contains_account(v: &Vec<u64>, x: u64) -> (r: bool)
    ensures
        r == v@.contains(x),
{
    let mut i: usize = 0;
    while i < v.len()
        invariant
            i <= v@.len(),
            forall|j: int| 0 <= j < i ==> v@[j] != x,
        decreases v@.len() - i,
    {
        if v[i] == x {
            return true;
        }
        i = i + 1;
    }
    false
}

/// A copy of `v`.
pub fn copy_pairs(v: &Vec<(u64, u64)>) -> (r: Vec<(u64, u64)>)
    ensures
        r@ == v@,
{
    let mut out: Vec<(u64, u64)> = Vec::new();
    let mut i: usize = 0;
    while i < v.len()
        invariant
            i <= v@.len(),
            out@ =~= v@.take(i as int),
        decreases v@.len() - i,
    {
        out.push(v[i]);
        i = i + 1;
    }
    assert(v@.take(v@.len() as int) =~= v@);
    out
}

/// Takes every copy of `x` out of `v`, keeping the order of the rest.
pub fn remove_account(v: &mut Vec<u64>, x: u64)
    ensures
        final(v)@ == without(old(v)@, x),
{
    let mut out: Vec<u64> = Vec::new();
    let mut i: usize = 0;
    while i < v.len()
        invariant
            i <= v@.len(),
            v@ == old(v)@,
            out@ == without(v@.take(i as int), x),
        decreases v@.len() - i,
    {
        proof {
            reveal(Seq::filter);
            assert(v@.take(i as int + 1).drop_last() =~= v@.take(i as int));
        }
        if v[i] != x {
            out.push(v[i]);
        }
        i = i + 1;
    }
    assert(v@.take(v@.len() as int) =~= v@);
    *v = out;
}

/// Takes every copy of the pair `x` out of `v`, keeping the order of the rest.
pub fn remove_pair(v: &mut Vec<(u64, u64)>, x: (u64, u64))
    ensures
        final(v)@ == without(old(v)@, x),
{
    let mut out: Vec<(u64, u64)> = Vec::new();
    let mut i: usize = 0;
    while i < v.len()
        invariant
            i <= v@.len(),
            v@ == old(v)@,
            out@ == without(v@.take(i as int), x),
        decreases v@.len() - i,
    {
        proof {
            reveal(Seq::filter);
            assert(v@.take(i as int + 1).drop_last() =~= v@.take(i as int));
        }
        let e = v[i];
        if e.0 != x.0 || e.1 != x.1 {
            out.push(e);
        }
        i = i + 1;
    }
    assert(v@.take(v@.len() as int) =~= v@);
    *v = out;
}

} // verus!
