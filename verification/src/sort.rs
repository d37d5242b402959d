//! A verified stable sort of items by integer keys.

use vstd::prelude::*;
use vstd::multiset::Multiset;

verus! {

broadcast use vstd::seq_lib::group_to_multiset_ensures, vstd::multiset::group_multiset_axioms;

/// A sort key: a primary word, a secondary number and the item's position in the input.
pub type SortKey = (u64, u128, usize);

/// Lexicographic order on sort keys.
pub open spec fn key_le(a: SortKey, b: SortKey) -> bool {
    ||| a.0 < b.0
    ||| a.0 == b.0 && a.1 < b.1
    ||| a.0 == b.0 && a.1 == b.1 && a.2 <= b.2
}

/// Keyed items in ascending key order.
pub open spec fn ascending<T>(s: Seq<(SortKey, T)>) -> bool {
    forall|i: int, j: int| 0 <= i < j < s.len() ==> key_le(#[trigger] s[i].0, #[trigger] s[j].0)
}

/// Keyed items in descending key order.
pub open spec fn descending<T>(s: Seq<(SortKey, T)>) -> bool {
    forall|i: int, j: int| 0 <= i < j < s.len() ==> key_le(#[trigger] s[j].0, #[trigger] s[i].0)
}

/// Every key of `lo` is at most every key of `hi`.
pub open spec fn all_le<T>(lo: Seq<(SortKey, T)>, hi: Seq<(SortKey, T)>) -> bool {
    forall|i: int, j: int|
        0 <= i < lo.len() && 0 <= j < hi.len() ==> key_le(#[trigger] lo[i].0, #[trigger] hi[j].0)
}

proof fn lemma_pop_ms<T>(s: Seq<(SortKey, T)>)
    requires
        s.len() > 0,
    ensures
        s.to_multiset() =~= s.drop_last().to_multiset().insert(s.last()),
{
    assert(s.drop_last().push(s.last()) =~= s);
}

/// Merges two ascending runs into one holding exactly their items.
fn merge<T>(a: Vec<(SortKey, T)>, b: Vec<(SortKey, T)>) -> (r: Vec<(SortKey, T)>)
    requires
        ascending(a@),
        ascending(b@),
    ensures
        ascending(r@),
        r@.to_multiset() =~= a@.to_multiset().add(b@.to_multiset()),
{
    let ghost total = a@.to_multiset().add(b@.to_multiset());
    let mut a = a;
    let mut b = b;
    let mut rev: Vec<(SortKey, T)> = Vec::new();
    while a.len() > 0 || b.len() > 0
        invariant
            ascending(a@),
            ascending(b@),
            descending(rev@),
            all_le(a@, rev@),
            all_le(b@, rev@),
            a@.to_multiset().add(b@.to_multiset()).add(rev@.to_multiset()) == total,
        decreases a@.len() + b@.len(),
    {
        let take_a = if a.len() == 0 {
            false
        } else if b.len() == 0 {
            true
        } else {
            let ka = a[a.len() - 1].0;
            let kb = b[b.len() - 1].0;
            kb.0 < ka.0 || (kb.0 == ka.0 && (kb.1 < ka.1 || (kb.1 == ka.1 && kb.2 <= ka.2)))
        };
        let ghost old_a = a@;
        let ghost old_b = b@;
        let ghost old_rev = rev@;
        if take_a {
            let x = a.pop().unwrap();
            proof {
                lemma_pop_ms(old_a);
            }
            rev.push(x);
        } else {
            let x = b.pop().unwrap();
            proof {
                lemma_pop_ms(old_b);
            }
            rev.push(x);
        }
        proof {
            let x = rev@.last();
            assert(rev@.drop_last() =~= old_rev);
            if take_a {
                assert forall|i: int| 0 <= i < b@.len() implies key_le(#[trigger] b@[i].0, x.0) by {
                    assert(key_le(old_b[i].0, old_b.last().0));
                }
            } else {
                assert forall|i: int| 0 <= i < a@.len() implies key_le(#[trigger] a@[i].0, x.0) by {
                    assert(key_le(old_a[i].0, old_a.last().0));
                }
            }
            assert(a@.to_multiset().add(b@.to_multiset()).add(rev@.to_multiset()) =~= total);
        }
    }
    let mut out: Vec<(SortKey, T)> = Vec::new();
    while rev.len() > 0
        invariant
            ascending(out@),
            descending(rev@),
            all_le(out@, rev@),
            out@.to_multiset().add(rev@.to_multiset()) == total,
        decreases rev@.len(),
    {
        let ghost old_rev = rev@;
        let ghost old_out = out@;
        let x = rev.pop().unwrap();
        proof {
            lemma_pop_ms(old_rev);
        }
        out.push(x);
        proof {
            assert(out@.drop_last() =~= old_out);
            assert forall|i: int, j: int| 0 <= i < out@.len() && 0 <= j < rev@.len() implies key_le(
                #[trigger] out@[i].0,
                #[trigger] rev@[j].0,
            ) by {
                assert(rev@[j] == old_rev[j]);
                if i < old_out.len() {
                    assert(out@[i] == old_out[i]);
                } else {
                    assert(key_le(old_rev[old_rev.len() - 1].0, old_rev[j].0));
                }
            }
            assert(out@.to_multiset().add(rev@.to_multiset()) =~= total);
        }
    }
    assert(rev@.to_multiset() =~= Multiset::<(SortKey, T)>::empty());
    out
}

/// Sorts keyed items into ascending key order, keeping exactly the same items.
fn merge_sort<T>(v: Vec<(SortKey, T)>) -> (r: Vec<(SortKey, T)>)
    ensures
        ascending(r@),
        r@.to_multiset() =~= v@.to_multiset(),
    decreases v@.len(),
{
    let n = v.len();
    if n <= 1 {
        return v;
    }
    let mut left = v;
    let ghost whole = left@;
    let right = left.split_off(n / 2);
    proof {
        assert(whole =~= left@ + right@);
        vstd::seq_lib::lemma_multiset_commutative(left@, right@);
    }
    let l = merge_sort(left);
    let r = merge_sort(right);
    merge(l, r)
}

/// Order of positions `i1`, `i2` carrying keys `k1`, `k2`: by key, then by position.
pub open spec fn ranked_le(k1: (u64, u128), i1: int, k2: (u64, u128), i2: int) -> bool {
    ||| k1.0 < k2.0
    ||| k1.0 == k2.0 && k1.1 < k2.1
    ||| k1.0 == k2.0 && k1.1 == k2.1 && i1 <= i2
}

/// `p` lists every position of `keys` once, by ascending key, equal keys in their
/// input order.
pub open spec fn stable_order(keys: Seq<(u64, u128)>, p: Seq<int>) -> bool {
    &&& p.len() == keys.len()
    &&& forall|j: int| 0 <= j < p.len() ==> 0 <= #[trigger] p[j] < keys.len()
    &&& forall|j: int, k: int| 0 <= j < k < p.len() ==> #[trigger] p[j] != #[trigger] p[k]
    &&& forall|j: int, k: int|
        0 <= j < k < p.len() ==> ranked_le(keys[#[trigger] p[j]], p[j], keys[#[trigger] p[k]], p[k])
}

/// `out` is `items` stably sorted by `keys`: the item at each position of the
/// stable order, in turn.
pub open spec fn stably_sorted<T>(items: Seq<T>, keys: Seq<(u64, u128)>, out: Seq<T>) -> bool {
    exists|p: Seq<int>|
        stable_order(keys, p) && out == Seq::new(p.len(), |j: int| items[p[j]])
}

/// `out` lists the items of `items` at the positions `p`, each position once.
pub open spec fn reorders<T>(items: Seq<T>, out: Seq<T>, p: Seq<int>) -> bool {
    &&& p.len() == items.len()
    &&& out.len() == p.len()
    &&& forall|j: int| 0 <= j < p.len() ==> 0 <= #[trigger] p[j] < items.len()
    &&& forall|j: int, k: int| 0 <= j < k < p.len() ==> #[trigger] p[j] != #[trigger] p[k]
    &&& forall|j: int| 0 <= j < out.len() ==> #[trigger] out[j] == items[p[j]]
}

/// The items paired with their keys and positions.
pub open spec fn tagged<T>(items: Seq<T>, keys: Seq<(u64, u128)>) -> Seq<(SortKey, T)> {
    Seq::new(items.len(), |i: int| ((keys[i].0, keys[i].1, i as usize), items[i]))
}

proof fn lemma_tagged_distinct<T>(items: Seq<T>, keys: Seq<(u64, u128)>)
    requires
        items.len() == keys.len(),
        items.len() <= usize::MAX,
    ensures
        tagged(items, keys).no_duplicates(),
{
    let t = tagged(items, keys);
    assert forall|i: int, j: int| 0 <= i < t.len() && 0 <= j < t.len() && i != j implies t[i] != t[j] by {
        assert(t[i].0.2 == i as usize);
        assert(t[j].0.2 == j as usize);
    }
}

/// Reorders `items` stably by `keys`: ascending key, equal keys in their input order.
pub fn sort_by_keys<T>(items: Vec<T>, keys: &Vec<(u64, u128)>) -> (out: Vec<T>)
    requires
        items@.len() == keys@.len(),
    ensures
        stably_sorted(items@, keys@, out@),
{
    let n = items.len();
    let ghost orig = items@;
    let ghost t = tagged(orig, keys@);
    let mut items = items;
    let mut rev: Vec<T> = Vec::new();
    while items.len() > 0
        invariant
            n == orig.len(),
            items@.len() <= n,
            items@ == orig.take(items@.len() as int),
            rev@ == Seq::new((n - items@.len()) as nat, |j: int| orig[n - 1 - j]),
        decreases items@.len(),
    {
        let x = items.pop().unwrap();
        rev.push(x);
        assert(items@ =~= orig.take(items@.len() as int));
        assert(rev@ =~= Seq::new((n - items@.len()) as nat, |j: int| orig[n - 1 - j]));
    }
    let mut tg: Vec<(SortKey, T)> = Vec::new();
    let mut i: usize = 0;
    while i < n
        invariant
            n == orig.len(),
            n == keys@.len(),
            t == tagged(orig, keys@),
            i <= n,
            rev@ == Seq::new((n - i) as nat, |j: int| orig[n - 1 - j]),
            tg@ == t.take(i as int),
        decreases n - i,
    {
        let x = rev.pop().unwrap();
        let k = keys[i];
        tg.push(((k.0, k.1, i), x));
        i = i + 1;
        assert(rev@ =~= Seq::new((n - i) as nat, |j: int| orig[n - 1 - j]));
        assert(tg@ =~= t.take(i as int));
    }
    assert(tg@ =~= t);
    let sorted = merge_sort(tg);
    let ghost s = sorted@;
    let mut sorted = sorted;
    let m = sorted.len();
    let mut rev2: Vec<T> = Vec::new();
    while sorted.len() > 0
        invariant
            m == s.len(),
            sorted@.len() <= m,
            sorted@ == s.take(sorted@.len() as int),
            rev2@ == Seq::new((m - sorted@.len()) as nat, |j: int| s[m - 1 - j].1),
        decreases sorted@.len(),
    {
        let x = sorted.pop().unwrap();
        rev2.push(x.1);
        assert(sorted@ =~= s.take(sorted@.len() as int));
        assert(rev2@ =~= Seq::new((m - sorted@.len()) as nat, |j: int| s[m - 1 - j].1));
    }
    let mut out: Vec<T> = Vec::new();
    let mut k: usize = 0;
    while k < m
        invariant
            m == s.len(),
            k <= m,
            rev2@ == Seq::new((m - k) as nat, |j: int| s[m - 1 - j].1),
            out@ == Seq::new(k as nat, |j: int| s[j].1),
        decreases m - k,
    {
        let x = rev2.pop().unwrap();
        out.push(x);
        k = k + 1;
        assert(rev2@ =~= Seq::new((m - k) as nat, |j: int| s[m - 1 - j].1));
        assert(out@ =~= Seq::new(k as nat, |j: int| s[j].1));
    }
    proof {
        lemma_tagged_distinct(orig, keys@);
        t.lemma_multiset_has_no_duplicates();
        s.lemma_multiset_has_no_duplicates_conv();
        assert(s.to_multiset().len() == s.len());
        assert(t.to_multiset().len() == t.len());
        assert(s.len() == n);
        let p = Seq::new(n as nat, |j: int| s[j].0.2 as int);
        assert forall|j: int| 0 <= j < n implies #[trigger] t.contains(s[j]) by {
            assert(s.to_multiset().count(s[j]) > 0);
        }
        assert forall|j: int| 0 <= j < n implies 0 <= #[trigger] p[j] < n && t[p[j]] == s[j] by {
            assert(t.contains(s[j]));
            let w = choose|w: int| 0 <= w < t.len() && t[w] == s[j];
            assert(t[w].0.2 == w as usize);
        }
        assert forall|j: int, l: int| 0 <= j < l < n implies #[trigger] p[j] != #[trigger] p[l] by {
            assert(t[p[j]] == s[j]);
            assert(t[p[l]] == s[l]);
        }
        assert forall|j: int, l: int| 0 <= j < l < n implies ranked_le(keys@[#[trigger] p[j]], p[j], keys@[#[trigger] p[l]], p[l]) by {
            assert(t[p[j]] == s[j]);
            assert(t[p[l]] == s[l]);
            assert(key_le(s[j].0, s[l].0));
        }
        assert(stable_order(keys@, p));
        assert(out@ =~= Seq::new(p.len(), |j: int| orig[p[j]])) by {
            assert forall|j: int| 0 <= j < n implies out@[j] == orig[p[j]] by {
                assert(t[p[j]] == s[j]);
            }
        }
    }
    out
}

} // verus!
