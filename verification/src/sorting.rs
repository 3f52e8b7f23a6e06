//! Stable ordering by an integer key, as `slice::sort_by_key` orders.
//!
//! The specification is insertion sort: each element, taken in input order, goes
//! after every element already placed whose key is not larger.  That pins down
//! the order of equal keys (first come, first placed), which is what a stable
//! sort promises.
use vstd::prelude::*;

verus! {

broadcast use vstd::seq_lib::group_to_multiset_ensures;

/// A value ordered by an integer key.
pub trait SortKey {
    spec fn sort_key(&self) -> int;

    fn key(&self) -> (k: i128)
        ensures
            k as int == self.sort_key(),
    ;
}

/// Where `x` with key `k` goes into `s`: after the last element whose key is not larger.
pub open spec fn insert_pos<T: SortKey>(s: Seq<T>, k: int) -> nat
    decreases s.len(),
{
    if s.len() == 0 {
        0
    } else if s.last().sort_key() > k {
        insert_pos(s.drop_last(), k)
    } else {
        s.len()
    }
}

pub open spec fn insert_sorted<T: SortKey>(s: Seq<T>, x: T) -> Seq<T> {
    s.insert(insert_pos(s, x.sort_key()) as int, x)
}

/// `s` in stable key order.
pub open spec fn stable_sorted<T: SortKey>(s: Seq<T>) -> Seq<T>
    decreases s.len(),
{
    if s.len() == 0 {
        seq![]
    } else {
        insert_sorted(stable_sorted(s.drop_last()), s.last())
    }
}

pub open spec fn keys_sorted<T: SortKey>(s: Seq<T>) -> bool {
    forall|i: int, j: int|
        0 <= i <= j < s.len() ==> #[trigger] s[i].sort_key() <= #[trigger] s[j].sort_key()
}

proof fn lemma_insert_pos_bounds<T: SortKey>(s: Seq<T>, k: int)
    ensures
        insert_pos(s, k) <= s.len(),
        forall|m: int| insert_pos(s, k) <= m < s.len() ==> #[trigger] s[m].sort_key() > k,
        insert_pos(s, k) > 0 ==> s[insert_pos(s, k) - 1].sort_key() <= k,
    decreases s.len(),
{
    if s.len() > 0 && s.last().sort_key() > k {
        lemma_insert_pos_bounds(s.drop_last(), k);
        assert forall|m: int| insert_pos(s, k) <= m < s.len() implies #[trigger] s[m].sort_key()
            > k by {
            if m < s.len() - 1 {
                assert(s.drop_last()[m] == s[m]);
            }
        }
    }
}

proof fn lemma_insert_sorted<T: SortKey>(s: Seq<T>, x: T)
    requires
        keys_sorted(s),
    ensures
        keys_sorted(insert_sorted(s, x)),
        insert_sorted(s, x).to_multiset() == s.to_multiset().insert(x),
        insert_sorted(s, x).len() == s.len() + 1,
{
    lemma_insert_pos_bounds(s, x.sort_key());
    let p = insert_pos(s, x.sort_key()) as int;
    let r = insert_sorted(s, x);
    assert forall|i: int, j: int| 0 <= i <= j < r.len() implies #[trigger] r[i].sort_key()
        <= #[trigger] r[j].sort_key() by {
        if i < p && j > p {
            assert(r[i] == s[i]);
            assert(r[j] == s[j - 1]);
        } else if i < p && j == p {
            assert(r[i] == s[i]);
            assert(s[i].sort_key() <= s[p - 1].sort_key());
        } else if i == p && j > p {
            assert(r[j] == s[j - 1]);
        } else if i > p {
            assert(r[i] == s[i - 1]);
            assert(r[j] == s[j - 1]);
        } else if j < p {
            assert(r[i] == s[i]);
            assert(r[j] == s[j]);
        }
    }
}

/// The stable order is sorted by key and holds exactly the input's elements.
pub proof fn lemma_stable_sorted<T: SortKey>(s: Seq<T>)
    ensures
        keys_sorted(stable_sorted(s)),
        stable_sorted(s).to_multiset() == s.to_multiset(),
        stable_sorted(s).len() == s.len(),
    decreases s.len(),
{
    if s.len() == 0 {
        assert(stable_sorted(s) =~= s);
    } else {
        lemma_stable_sorted(s.drop_last());
        lemma_insert_sorted(stable_sorted(s.drop_last()), s.last());
        assert(s.drop_last().push(s.last()) =~= s);
    }
}

/// Every element of the stable order comes from the input.
pub proof fn lemma_stable_sorted_members<T: SortKey>(s: Seq<T>)
    ensures
        forall|k: int|
            0 <= k < stable_sorted(s).len() ==> s.contains(#[trigger] stable_sorted(s)[k]),
{
    lemma_stable_sorted(s);
    let r = stable_sorted(s);
    assert forall|k: int| 0 <= k < r.len() implies s.contains(#[trigger] r[k]) by {
        assert(r.contains(r[k]));
        assert(r.to_multiset().count(r[k]) > 0);
        assert(s.to_multiset().count(r[k]) > 0);
    }
}

/// The elements of `s` whose key is `k`, in order.
pub open spec fn with_key<T: SortKey>(s: Seq<T>, k: int) -> Seq<T>
    decreases s.len(),
{
    if s.len() == 0 {
        seq![]
    } else if s.last().sort_key() == k {
        with_key(s.drop_last(), k).push(s.last())
    } else {
        with_key(s.drop_last(), k)
    }
}

proof fn lemma_with_key_insert<T: SortKey>(s: Seq<T>, x: T, k: int)
    requires
        keys_sorted(s),
    ensures
        with_key(insert_sorted(s, x), k) == (if x.sort_key() == k {
            with_key(s, k).push(x)
        } else {
            with_key(s, k)
        }),
    decreases s.len(),
{
    let p = insert_pos(s, x.sort_key()) as int;
    if s.len() == 0 {
        assert(insert_sorted(s, x) =~= seq![x]);
        assert(seq![x].drop_last() =~= Seq::<T>::empty());
        assert(seq![x].last() == x);
        assert(with_key(s, k) =~= Seq::<T>::empty());
        assert(with_key(Seq::<T>::empty(), k) =~= Seq::<T>::empty());
        if x.sort_key() == k {
            assert(with_key(seq![x], k) =~= Seq::<T>::empty().push(x));
        } else {
            assert(with_key(seq![x], k) =~= Seq::<T>::empty());
        }
        assert(with_key(insert_sorted(s, x), k) == (if x.sort_key() == k {
            with_key(s, k).push(x)
        } else {
            with_key(s, k)
        }));
    } else if s.last().sort_key() > x.sort_key() {
        let d = s.drop_last();
        assert(keys_sorted(d));
        lemma_insert_pos_bounds(d, x.sort_key());
        assert(p == insert_pos(d, x.sort_key()));
        lemma_with_key_insert(d, x, k);
        assert(s.insert(p, x) =~= d.insert(p, x).push(s.last()));
        assert(s.insert(p, x).drop_last() =~= d.insert(p, x));
        assert(s.insert(p, x).last() == s.last());
        let r = s.insert(p, x);
        assert(insert_sorted(d, x) == d.insert(p, x));
        if s.last().sort_key() == k {
            assert(with_key(r, k) == with_key(d.insert(p, x), k).push(s.last()));
            assert(with_key(s, k) == with_key(d, k).push(s.last()));
        } else {
            assert(with_key(r, k) == with_key(d.insert(p, x), k));
            assert(with_key(s, k) == with_key(d, k));
        }
        assert(with_key(insert_sorted(s, x), k) == (if x.sort_key() == k {
            with_key(s, k).push(x)
        } else {
            with_key(s, k)
        }));
    } else {
        assert(s.insert(p, x) =~= s.push(x));
        assert(s.push(x).drop_last() =~= s);
        assert(s.push(x).last() == x);
        assert(with_key(insert_sorted(s, x), k) == (if x.sort_key() == k {
            with_key(s, k).push(x)
        } else {
            with_key(s, k)
        }));
    }
}

/// Stability: the elements sharing a key keep their input order.
pub proof fn lemma_stable_sorted_keeps_order<T: SortKey>(s: Seq<T>, k: int)
    ensures
        with_key(stable_sorted(s), k) == with_key(s, k),
    decreases s.len(),
{
    if s.len() > 0 {
        lemma_stable_sorted_keeps_order(s.drop_last(), k);
        lemma_stable_sorted(s.drop_last());
        lemma_with_key_insert(stable_sorted(s.drop_last()), s.last(), k);
    }
}

/// Orders `v` stably by key.
pub fn stable_sort<T: SortKey>(v: &mut Vec<T>)
    ensures
        final(v)@ == stable_sorted(old(v)@),
{
    let ghost orig = v@;
    let n = v.len();
    if n == 0 {
        assert(v@ =~= stable_sorted(orig));
        return;
    }
    assert(v@.take(1) =~= stable_sorted(orig.take(1))) by {
        assert(orig.take(1).drop_last() =~= Seq::<T>::empty());
        assert(stable_sorted(orig.take(1).drop_last()) =~= Seq::<T>::empty());
    }
    let mut i: usize = 1;
    while i < n
        invariant
            1 <= i <= n == v.len() == orig.len(),
            v@.take(i as int) == stable_sorted(orig.take(i as int)),
            v@.skip(i as int) == orig.skip(i as int),
        decreases n - i,
    {
        let ghost prefix = v@.take(i as int);
        let ghost pre = v@;
        let x = v.remove(i);
        assert(x == orig[i as int]) by {
            assert(orig.skip(i as int)[0] == orig[i as int]);
        }
        let xk = x.key();
        let mut j = i;
        assert(v@.take(i as int) =~= prefix);
        assert(prefix.take(i as int) =~= prefix);
        while j > 0 && v[j - 1].key() > xk
            invariant
                0 <= j <= i < n,
                v.len() == n - 1,
                v@.take(i as int) == prefix,
                xk as int == x.sort_key(),
                insert_pos(prefix, xk as int) == insert_pos(prefix.take(j as int), xk as int),
            decreases j,
        {
            assert(prefix.take(j as int).drop_last() =~= prefix.take(j - 1));
            assert(prefix.take(j as int).last() == v@[j - 1]);
            j = j - 1;
        }
        proof {
            if j > 0 {
                assert(prefix.take(j as int).last() == v@[j - 1]);
            }
        }
        assert(insert_pos(prefix, xk as int) == j);
        let ghost before = v@;
        v.insert(j, x);
        i = i + 1;
        proof {
            assert(orig.take(i as int).drop_last() =~= orig.take(i - 1));
            assert(orig.take(i as int).last() == x);
            assert(v@.take(i as int) =~= prefix.insert(j as int, x));
            assert forall|m: int| 0 <= m < v@.len() - i implies #[trigger] v@.skip(i as int)[m]
                == orig.skip(i as int)[m] by {
                assert(v@[i + m] == before[i + m - 1]);
                assert(before[i + m - 1] == pre[i + m]);
                assert(pre.skip(i - 1)[m + 1] == orig.skip(i - 1)[m + 1]);
            }
            assert(v@.skip(i as int) =~= orig.skip(i as int));
        }
    }
    assert(orig.take(n as int) =~= orig);
    assert(v@.take(n as int) =~= v@);
}

} // verus!
