//! Stable ordering of snapshots by their numeric identifier.

use vstd::prelude::*;

verus! {

/// A value ordered by a numeric key, such as a snapshot ordered by its identifier.
pub trait Keyed {
    /// The key of the value.
    spec fn key_spec(&self) -> u32;

    /// Returns the key of the value.
    fn key(&self) -> (k: u32)
        ensures
            k == self.key_spec();
}

/// Predicate selecting the values whose key is `k`.
pub open spec fn key_is<T: Keyed>(k: u32) -> spec_fn(T) -> bool {
    |x: T| x.key_spec() == k
}

/// The values of `s` whose key is `k`, in their order in `s`.
pub open spec fn with_key<T: Keyed>(s: Seq<T>, k: u32) -> Seq<T> {
    s.filter(key_is::<T>(k))
}

/// Keys never decrease along `s`.
pub open spec fn sorted_by_key<T: Keyed>(s: Seq<T>) -> bool {
    forall|i: int, j: int| 0 <= i < j < s.len() ==> s[i].key_spec() <= s[j].key_spec()
}

/// `r` is the stable ordering of `s` by key: keys never decrease, and the
/// values sharing a key keep their relative order from `s`.
pub open spec fn is_stable_key_order<T: Keyed>(s: Seq<T>, r: Seq<T>) -> bool {
    &&& sorted_by_key(r)
    &&& forall|k: u32| #[trigger] with_key(r, k) == with_key(s, k)
}

proof fn lemma_filter_empty_when_keys_differ<T: Keyed>(s: Seq<T>, k: u32)
    requires
        forall|i: int| 0 <= i < s.len() ==> s[i].key_spec() != k,
    ensures
        with_key(s, k) == Seq::<T>::empty(),
{
    let p = key_is::<T>(k);
    let np = |x: T| !p(x);
    assert forall|i: int| 0 <= i < s.len() implies #[trigger] np(s[i]) by {}
    assert(s.all(np));
    s.lemma_all_neg_filter_empty(p);
    assert(with_key(s, k) =~= Seq::<T>::empty());
}

/// The stable order of a single value is that value alone.
pub proof fn lemma_stable_order_single<T: Keyed>(x: T, r: Seq<T>)
    requires
        is_stable_key_order(seq![x], r),
        r.len() == 1,
    ensures
        r == seq![x],
{
    let k = x.key_spec();
    assert(with_key(r, k) == with_key(seq![x], k));
    assert(seq![x].drop_last() =~= Seq::<T>::empty());
    assert(r.drop_last() =~= Seq::<T>::empty());
    reveal_with_fuel(Seq::filter, 2);
    assert(with_key(seq![x], k) =~= seq![x]);
    assert(r =~= seq![x]);
}

/// Orders the values stably by key.
pub fn stable_sort_by_key<T: Keyed + Copy>(v: &Vec<T>) -> (r: Vec<T>)
    ensures
        is_stable_key_order(v@, r@),
        r@.len() == v@.len(),
{
    let mut r: Vec<T> = Vec::new();
    let n = v.len();
    let mut i: usize = 0;
    assert(v@.take(0) =~= Seq::<T>::empty());
    while i < n
        invariant
            n == v@.len(),
            i <= n,
            r@.len() == i,
            sorted_by_key(r@),
            forall|k: u32| #[trigger] with_key(r@, k) == with_key(v@.take(i as int), k),
        decreases n - i,
    {
        let x = v[i];
        let xk = x.key();
        let mut j: usize = 0;
        while j < r.len() && r[j].key() <= xk
            invariant
                j <= r@.len(),
                forall|t: int| 0 <= t < j ==> r@[t].key_spec() <= xk,
            decreases r@.len() - j,
        {
            j = j + 1;
        }
        proof {
            // Every value at or after `j` has a larger key.
            assert forall|t: int| j <= t < r@.len() implies r@[t].key_spec() > xk by {
                if j < r@.len() {
                    assert(r@[j as int].key_spec() > xk);
                    assert(r@[j as int].key_spec() <= r@[t].key_spec());
                }
            }
        }
        let ghost old_r = r@;
        r.insert(j, x);
        proof {
            let pre = old_r.subrange(0, j as int);
            let post = old_r.subrange(j as int, old_r.len() as int);
            assert(old_r =~= pre + post);
            assert(r@ =~= pre.push(x) + post);
            assert(v@.take(i + 1) =~= v@.take(i as int).push(x));
            assert forall|k: u32| #[trigger] with_key(r@, k) == with_key(v@.take(i + 1), k) by {
                let p = key_is::<T>(k);
                Seq::filter_distributes_over_add(pre, post, p);
                Seq::filter_distributes_over_add(pre.push(x), post, p);
                pre.lemma_filter_push(x, p);
                v@.take(i as int).lemma_filter_push(x, p);
                assert(with_key(old_r, k) == with_key(v@.take(i as int), k));
                if k == xk {
                    lemma_filter_empty_when_keys_differ(post, k);
                    assert(post.filter(p) =~= Seq::<T>::empty());
                    assert(pre.filter(p) + post.filter(p) =~= pre.filter(p));
                    assert(pre.filter(p).push(x) + post.filter(p) =~= pre.filter(p).push(x));
                } else {
                    assert(!p(x));
                }
            }
            assert forall|a: int, b: int| 0 <= a < b < r@.len() implies r@[a].key_spec()
                <= r@[b].key_spec() by {
                if b < j {
                } else if b == j {
                } else if a < j {
                } else if a == j {
                } else {
                    assert(r@[a] == old_r[a - 1]);
                    assert(r@[b] == old_r[b - 1]);
                }
            }
        }
        i = i + 1;
    }
    assert(v@.take(n as int) =~= v@);
    r
}

} // verus!
