//! A stable sort by an integer key: equal keys keep their order, as
//! `slice::sort_by_key` and `slice::sort_by` promise.
use vstd::prelude::*;

verus! {

/// `s` with `x` placed before the first entry whose key is greater.
pub open spec fn insert_by_key<T>(s: Seq<(i128, T)>, x: (i128, T)) -> Seq<(i128, T)>
    decreases s.len(),
{
    if s.len() == 0 {
        seq![x]
    } else if s[0].0 > x.0 {
        seq![x] + s
    } else {
        seq![s[0]] + insert_by_key(s.drop_first(), x)
    }
}

/// The entries of `s` ordered by key, equal keys in their order in `s`.
pub open spec fn sort_by_key<T>(s: Seq<(i128, T)>) -> Seq<(i128, T)>
    decreases s.len(),
{
    if s.len() == 0 {
        Seq::empty()
    } else {
        insert_by_key(sort_by_key(s.drop_last()), s.last())
    }
}

/// Whether the keys of `s` never decrease.
pub open spec fn keys_ascend<T>(s: Seq<(i128, T)>) -> bool {
    forall|i: int, j: int| 0 <= i <= j < s.len() ==> s[i].0 <= s[j].0
}

/// The index before which `x` goes: the first key greater than its key.
pub open spec fn slot_of<T>(s: Seq<(i128, T)>, key: i128, k: int) -> bool {
    &&& 0 <= k <= s.len()
    &&& forall|j: int| 0 <= j < k ==> s[j].0 <= key
    &&& k < s.len() ==> s[k].0 > key
}

proof fn lemma_insert_at<T>(s: Seq<(i128, T)>, x: (i128, T), k: int)
    requires
        slot_of(s, x.0, k),
    ensures
        insert_by_key(s, x) == s.insert(k, x),
    decreases s.len(),
{
    if s.len() == 0 {
        assert(s.insert(k, x) =~= seq![x]);
    } else if s[0].0 > x.0 {
        assert(k == 0);
        assert(s.insert(k, x) =~= seq![x] + s);
    } else {
        lemma_insert_at(s.drop_first(), x, k - 1);
        assert(s.insert(k, x) =~= seq![s[0]] + s.drop_first().insert(k - 1, x));
    }
}

/// Where `insert_by_key` puts the new entry.
proof fn lemma_insert_index<T>(s: Seq<(i128, T)>, x: (i128, T)) -> (k: int)
    ensures
        0 <= k <= s.len(),
        insert_by_key(s, x) == s.insert(k, x),
        forall|j: int| 0 <= j < k ==> s[j].0 <= x.0,
        k < s.len() ==> s[k].0 > x.0,
    decreases s.len(),
{
    if s.len() == 0 {
        assert(s.insert(0, x) =~= seq![x]);
        0
    } else if s[0].0 > x.0 {
        assert(s.insert(0, x) =~= seq![x] + s);
        0
    } else {
        let k = lemma_insert_index(s.drop_first(), x);
        assert(forall|j: int| 1 <= j < s.len() ==> s[j] == s.drop_first()[j - 1]);
        assert(s.insert(k + 1, x) =~= seq![s[0]] + s.drop_first().insert(k, x));
        k + 1
    }
}

proof fn lemma_insert_multiset<T>(s: Seq<(i128, T)>, k: int, x: (i128, T))
    requires
        0 <= k <= s.len(),
    ensures
        s.insert(k, x).to_multiset() =~= s.to_multiset().insert(x),
{
    broadcast use vstd::seq_lib::group_to_multiset_ensures, vstd::multiset::group_multiset_axioms;

    let r = s.insert(k, x);
    assert(r.remove(k) =~= s);
    assert(r[k] == x);
    assert(r.contains(x));
    assert(r.to_multiset().count(x) > 0);
}

/// Inserting keeps the entries and the ascending order of keys.
proof fn lemma_insert_keeps<T>(s: Seq<(i128, T)>, x: (i128, T))
    requires
        keys_ascend(s),
    ensures
        keys_ascend(insert_by_key(s, x)),
        insert_by_key(s, x).to_multiset() == s.to_multiset().insert(x),
{
    let k = lemma_insert_index(s, x);
    lemma_insert_multiset(s, k, x);
    let r = s.insert(k, x);
    assert(forall|m: int| 0 <= m < k ==> r[m] == s[m]);
    assert(r[k] == x);
    assert(forall|m: int| k < m < r.len() ==> r[m] == s[m - 1]);
    assert(keys_ascend(r)) by {
        assert forall|i: int, j: int| 0 <= i <= j < r.len() implies r[i].0 <= r[j].0 by {
            if j < k {
            } else if j == k {
                if i < k {
                    assert(s[i].0 <= x.0);
                }
            } else {
                if i < k {
                    assert(s[i].0 <= s[j - 1].0);
                } else if i == k {
                    assert(s[k].0 <= s[j - 1].0);
                } else {
                    assert(s[i - 1].0 <= s[j - 1].0);
                }
            }
        }
    }
}

/// The sort keeps every entry and orders the keys.
pub proof fn lemma_sort_orders<T>(s: Seq<(i128, T)>)
    ensures
        keys_ascend(sort_by_key(s)),
        sort_by_key(s).to_multiset() == s.to_multiset(),
    decreases s.len(),
{
    broadcast use vstd::seq_lib::group_to_multiset_ensures;

    if s.len() == 0 {
        assert(s.to_multiset() =~= Seq::<(i128, T)>::empty().to_multiset());
    } else {
        lemma_sort_orders(s.drop_last());
        lemma_insert_keeps(sort_by_key(s.drop_last()), s.last());
        assert(s.drop_last().push(s.last()) =~= s);
    }
}

/// Sequences that hold the same entries still do after each entry is mapped.
pub proof fn lemma_map_keeps_multiset<A, B>(a: Seq<A>, b: Seq<A>, f: spec_fn(A) -> B)
    requires
        a.to_multiset() == b.to_multiset(),
    ensures
        a.map_values(f).to_multiset() == b.map_values(f).to_multiset(),
    decreases a.len(),
{
    broadcast use vstd::seq_lib::group_to_multiset_ensures;

    a.to_multiset_ensures();
    b.to_multiset_ensures();
    assert(a.len() == b.len());
    if a.len() == 0 {
        assert(a.map_values(f) =~= b.map_values(f));
    } else {
        let x = a.last();
        let a1 = a.drop_last();
        assert(a1.push(x) =~= a);
        assert(a.contains(x));
        assert(b.to_multiset().count(x) > 0);
        assert(b.contains(x));
        let i = choose|i: int| 0 <= i < b.len() && b[i] == x;
        let b1 = b.remove(i);
        assert(a1.to_multiset() =~= b1.to_multiset()) by {
            assert(a.to_multiset() =~= a1.to_multiset().insert(x));
            assert(b1.to_multiset() =~= b.to_multiset().remove(x));
        }
        lemma_map_keeps_multiset(a1, b1, f);
        let fa = a.map_values(f);
        let fb = b.map_values(f);
        assert(a1.map_values(f).push(f(x)) =~= fa);
        assert(b1.map_values(f) =~= fb.remove(i));
        assert(fb[i] == f(x));
        assert(fb.remove(i).to_multiset() =~= fb.to_multiset().remove(f(x)));
        assert(fb.contains(f(x)));
        assert(fb.to_multiset().count(f(x)) > 0);
        assert(fa.to_multiset() =~= a1.map_values(f).to_multiset().insert(f(x)));
        assert(fa.to_multiset() =~= fb.to_multiset());
    }
}

/// The sort moves entries by their keys alone: changing what the entries
/// carry, keys kept, commutes with it.
pub proof fn lemma_sort_map<T, U>(s: Seq<(i128, T)>, g: spec_fn((i128, T)) -> (i128, U))
    requires
        forall|p: (i128, T)| #[trigger] g(p).0 == p.0,
    ensures
        sort_by_key(s).map_values(g) == sort_by_key(s.map_values(g)),
    decreases s.len(),
{
    if s.len() > 0 {
        lemma_sort_map(s.drop_last(), g);
        assert(s.map_values(g).drop_last() =~= s.drop_last().map_values(g));
        lemma_insert_map(sort_by_key(s.drop_last()), s.last(), g);
    } else {
        assert(s.map_values(g) =~= Seq::<(i128, U)>::empty());
        assert(sort_by_key(s).map_values(g) =~= Seq::<(i128, U)>::empty());
    }
}

proof fn lemma_insert_map<T, U>(s: Seq<(i128, T)>, x: (i128, T), g: spec_fn((i128, T)) -> (i128, U))
    requires
        forall|p: (i128, T)| #[trigger] g(p).0 == p.0,
    ensures
        insert_by_key(s, x).map_values(g) == insert_by_key(s.map_values(g), g(x)),
    decreases s.len(),
{
    if s.len() == 0 {
        assert(insert_by_key(s, x).map_values(g) =~= seq![g(x)]);
        assert(s.map_values(g) =~= Seq::<(i128, U)>::empty());
    } else if s[0].0 > x.0 {
        assert(g(s[0]).0 == s[0].0 && g(x).0 == x.0);
        assert(insert_by_key(s, x).map_values(g) =~= seq![g(x)] + s.map_values(g));
    } else {
        assert(g(s[0]).0 == s[0].0 && g(x).0 == x.0);
        lemma_insert_map(s.drop_first(), x, g);
        assert(s.map_values(g).drop_first() =~= s.drop_first().map_values(g));
        assert(insert_by_key(s, x).map_values(g) =~= seq![g(s[0])] + insert_by_key(
            s.drop_first(),
            x,
        ).map_values(g));
    }
}

/// Sorts entries by key, keeping the order of equal keys.
pub fn stable_sort<T>(v: Vec<(i128, T)>) -> (r: Vec<(i128, T)>)
    ensures
        r@ == sort_by_key(v@),
{
    let ghost orig = v@;
    let n = v.len();
    let mut rest = v;
    let mut out: Vec<(i128, T)> = Vec::new();
    let mut done: usize = 0;
    assert(orig.take(0) =~= Seq::<(i128, T)>::empty());
    while rest.len() > 0
        invariant
            done + rest@.len() == orig.len(),
            orig.len() == n,
            rest@ == orig.skip(done as int),
            out@ == sort_by_key(orig.take(done as int)),
        decreases rest.len(),
    {
        let x = rest.remove(0);
        let mut k: usize = 0;
        while k < out.len() && out[k].0 <= x.0
            invariant
                k <= out@.len(),
                forall|j: int| 0 <= j < k ==> out@[j].0 <= x.0,
            decreases out.len() - k,
        {
            k += 1;
        }
        proof {
            lemma_insert_at(out@, x, k as int);
            let t = orig.take(done + 1);
            assert(t.drop_last() =~= orig.take(done as int));
            assert(t.last() == x);
        }
        out.insert(k, x);
        done += 1;
        assert(rest@ =~= orig.skip(done as int));
    }
    assert(orig.take(done as int) =~= orig);
    out
}

} // verus!
