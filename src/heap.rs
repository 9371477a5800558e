//! A binary max-heap over `(value, priority)` pairs, stored in a `Vec`.
//!
//! Only the priority takes part in the ordering; values are carried along.
use vstd::multiset::Multiset;
use vstd::prelude::*;

verus! {

broadcast use vstd::seq_lib::group_to_multiset_ensures;

/// Index of the parent of position `i` (for `i > 0`).
pub open spec fn parent(i: int) -> int {
    (i - 1) / 2
}

/// Every pair's priority is at most that of its parent.
pub open spec fn is_heap<T>(s: Seq<(T, u64)>) -> bool {
    forall|i: int| 0 < i < s.len() ==> #[trigger] s[i].1 <= s[parent(i)].1
}

/// `s` with the elements at `i` and `j` exchanged.
pub open spec fn swapped<T>(s: Seq<T>, i: int, j: int) -> Seq<T> {
    s.update(i, s[j]).update(j, s[i])
}

/// Moves the pair at `k` up, past every parent of lower priority.
pub open spec fn sift_up<T>(s: Seq<(T, u64)>, k: int) -> Seq<(T, u64)>
    decreases k,
{
    if 0 < k < s.len() && s[k].1 > s[parent(k)].1 {
        sift_up(swapped(s, k, parent(k)), parent(k))
    } else {
        s
    }
}

/// The child of `k` that the pair at `k` is compared with: the one of greater
/// priority, the left one on equal priorities.
pub open spec fn larger_child<T>(s: Seq<(T, u64)>, k: int) -> int {
    if 2 * k + 2 < s.len() && s[2 * k + 2].1 > s[2 * k + 1].1 {
        2 * k + 2
    } else {
        2 * k + 1
    }
}

/// Moves the pair at `k` down, past every child of higher priority.
pub open spec fn sift_down<T>(s: Seq<(T, u64)>, k: int) -> Seq<(T, u64)>
    decreases s.len() - k,
{
    if 0 <= k && 2 * k + 1 < s.len() && s[larger_child(s, k)].1 > s[k].1 {
        sift_down(swapped(s, k, larger_child(s, k)), larger_child(s, k))
    } else {
        s
    }
}

/// The heap left by adding the pair `e` to the heap `s`.
pub open spec fn heap_after_push<T>(s: Seq<(T, u64)>, e: (T, u64)) -> Seq<(T, u64)> {
    sift_up(s.push(e), s.len() as int)
}

/// The heap left by taking the first pair out of the non-empty heap `s`.
pub open spec fn heap_after_pop<T>(s: Seq<(T, u64)>) -> Seq<(T, u64)> {
    sift_down(s.update(0, s.last()).drop_last(), 0)
}

/// `s` with each value `v` replaced by `f(v)`, priorities and positions kept.
pub open spec fn relabel<T, U>(s: Seq<(T, u64)>, f: spec_fn(T) -> U) -> Seq<(U, u64)> {
    s.map_values(|e: (T, u64)| (f(e.0), e.1))
}

/// Sifting up moves pairs by their priorities alone.
pub proof fn lemma_relabel_sift_up<T, U>(s: Seq<(T, u64)>, k: int, f: spec_fn(T) -> U)
    ensures
        sift_up(relabel(s, f), k) == relabel(sift_up(s, k), f),
    decreases k,
{
    let r = relabel(s, f);
    if 0 < k < s.len() && s[k].1 > s[parent(k)].1 {
        assert(relabel(swapped(s, k, parent(k)), f) =~= swapped(r, k, parent(k)));
        lemma_relabel_sift_up(swapped(s, k, parent(k)), parent(k), f);
    }
}

/// Sifting down moves pairs by their priorities alone.
pub proof fn lemma_relabel_sift_down<T, U>(s: Seq<(T, u64)>, k: int, f: spec_fn(T) -> U)
    ensures
        sift_down(relabel(s, f), k) == relabel(sift_down(s, k), f),
    decreases s.len() - k,
{
    let r = relabel(s, f);
    if 0 <= k && 2 * k + 1 < s.len() {
        assert(larger_child(r, k) == larger_child(s, k));
        let m = larger_child(s, k);
        if s[m].1 > s[k].1 {
            assert(relabel(swapped(s, k, m), f) =~= swapped(r, k, m));
            lemma_relabel_sift_down(swapped(s, k, m), m, f);
        }
    }
}

/// Adding a pair orders the heap by priorities alone.
pub proof fn lemma_relabel_push<T, U>(s: Seq<(T, u64)>, e: (T, u64), f: spec_fn(T) -> U)
    ensures
        heap_after_push(relabel(s, f), (f(e.0), e.1)) == relabel(heap_after_push(s, e), f),
{
    assert(relabel(s, f).push((f(e.0), e.1)) =~= relabel(s.push(e), f));
    lemma_relabel_sift_up(s.push(e), s.len() as int, f);
}

/// Taking the first pair out orders the heap by priorities alone.
pub proof fn lemma_relabel_pop<T, U>(s: Seq<(T, u64)>, f: spec_fn(T) -> U)
    requires
        s.len() > 0,
    ensures
        heap_after_pop(relabel(s, f)) == relabel(heap_after_pop(s), f),
{
    let r = relabel(s, f);
    assert(r.update(0, r.last()).drop_last() =~= relabel(s.update(0, s.last()).drop_last(), f));
    lemma_relabel_sift_down(s.update(0, s.last()).drop_last(), 0, f);
}

/// The values of a sequence of pairs, in order.
pub open spec fn values_of<T>(s: Seq<(T, u64)>) -> Seq<T> {
    s.map_values(|e: (T, u64)| e.0)
}

/// `p` is a greatest priority among the pairs of `m`.
pub open spec fn is_max_priority<T>(m: Multiset<(T, u64)>, p: u64) -> bool {
    forall|e: (T, u64)| #[trigger] m.contains(e) ==> e.1 <= p
}

/// In a heap, the first pair holds a greatest priority.
pub proof fn lemma_root_is_max<T>(s: Seq<(T, u64)>, i: int)
    requires
        is_heap(s),
        0 <= i < s.len(),
    ensures
        s[i].1 <= s[0].1,
    decreases i,
{
    if i > 0 {
        assert(s[i].1 <= s[parent(i)].1);
        lemma_root_is_max(s, parent(i));
    }
}

/// A non-empty heap's first pair has a greatest priority of all its pairs.
pub proof fn lemma_root_is_max_priority<T>(s: Seq<(T, u64)>)
    requires
        is_heap(s),
        s.len() > 0,
    ensures
        is_max_priority(s.to_multiset(), s[0].1),
{
    assert forall|e: (T, u64)| #[trigger] s.to_multiset().contains(e) implies e.1 <= s[0].1 by {
        assert(s.contains(e));
        let i = choose|i: int| 0 <= i < s.len() && s[i] == e;
        lemma_root_is_max(s, i);
    }
}

/// Exchanging two positions keeps the pairs and the values, as multisets.
pub proof fn lemma_swap_keeps_contents<T>(s: Seq<(T, u64)>, i: int, j: int)
    requires
        0 <= i < s.len(),
        0 <= j < s.len(),
    ensures
        s.update(i, s[j]).update(j, s[i]).to_multiset() == s.to_multiset(),
        values_of(s.update(i, s[j]).update(j, s[i])).to_multiset()
            == values_of(s).to_multiset(),
{
    let t = s.update(i, s[j]);
    let u = t.update(j, s[i]);
    assert(t.to_multiset() == s.to_multiset().insert(s[j]).remove(s[i]));
    assert(u.to_multiset() == t.to_multiset().insert(s[i]).remove(t[j]));
    assert(u.to_multiset() =~= s.to_multiset());
    let vs = values_of(s);
    let vt = vs.update(i, vs[j]);
    let vu = vt.update(j, vs[i]);
    assert(values_of(u) =~= vu);
    assert(vt.to_multiset() == vs.to_multiset().insert(vs[j]).remove(vs[i]));
    assert(vu.to_multiset() == vt.to_multiset().insert(vs[i]).remove(vt[j]));
    assert(vu.to_multiset() =~= vs.to_multiset());
}

/// Removing the pair at `i` through `swap_remove` takes exactly that pair out.
pub proof fn lemma_swap_remove_contents<T>(s: Seq<(T, u64)>, i: int)
    requires
        0 <= i < s.len(),
    ensures
        s.update(i, s.last()).drop_last().to_multiset() == s.to_multiset().remove(s[i]),
        values_of(s.update(i, s.last()).drop_last()).to_multiset()
            == values_of(s).to_multiset().remove(s[i].0),
{
    let n = s.len() - 1;
    let u = s.update(i, s.last());
    assert(u.drop_last() == u.remove(n));
    assert(u.to_multiset() == s.to_multiset().insert(s.last()).remove(s[i]));
    assert(u.remove(n).to_multiset() == u.to_multiset().remove(u[n]));
    assert(u.drop_last().to_multiset() =~= s.to_multiset().remove(s[i]));
    let vs = values_of(s);
    let vu = vs.update(i, vs.last());
    assert(values_of(u.drop_last()) =~= vu.remove(n));
    assert(vu.to_multiset() == vs.to_multiset().insert(vs.last()).remove(vs[i]));
    assert(vu.remove(n).to_multiset() == vu.to_multiset().remove(vu[n]));
    assert(vu.remove(n).to_multiset() =~= vs.to_multiset().remove(vs[i]));
}

/// Adds the pair `e` to the heap `v`.
pub fn heap_push<T>(v: &mut Vec<(T, u64)>, e: (T, u64))
    requires
        is_heap(old(v)@),
    ensures
        is_heap(final(v)@),
        final(v)@ == heap_after_push(old(v)@, e),
        final(v)@.len() == old(v)@.len() + 1,
        final(v)@.to_multiset() == old(v)@.to_multiset().insert(e),
        values_of(final(v)@).to_multiset() == values_of(old(v)@).to_multiset().insert(e.0),
{
    let ghost s0 = v@;
    let ghost e0 = e;
    v.push(e);
    proof {
        assert(values_of(v@) =~= values_of(s0).push(e0.0));
    }
    let n: usize = v.len();
    let mut k: usize = n - 1;
    let mut done: bool = false;
    while k > 0 && !done
        invariant
            n == v.len(),
            k < n,
            v@.to_multiset() == s0.to_multiset().insert(e0),
            values_of(v@).to_multiset() == values_of(s0).to_multiset().insert(e0.0),
            forall|i: int| 0 < i < n && i != k ==> #[trigger] v@[i].1 <= v@[parent(i)].1,
            k > 0 ==> forall|c: int|
                0 < c < n && parent(c) == k ==> #[trigger] v@[c].1 <= v@[parent(k as int)].1,
            done ==> (k > 0 ==> v@[k as int].1 <= v@[parent(k as int)].1),
            sift_up(v@, k as int) == heap_after_push(s0, e0),
            done ==> sift_up(v@, k as int) == v@,
        decreases k + (if done { 0int } else { 1int }),
    {
        let p: usize = (k - 1) / 2;
        if v[k].1 <= v[p].1 {
            done = true;
        } else {
            proof {
                lemma_swap_keeps_contents(v@, k as int, p as int);
            }
            swap_at(v, k, p);
            k = p;
        }
    }
}

/// Takes out a pair of greatest priority, or returns `None` when `v` is empty.
pub fn heap_pop<T>(v: &mut Vec<(T, u64)>) -> (r: Option<(T, u64)>)
    requires
        is_heap(old(v)@),
    ensures
        is_heap(final(v)@),
        old(v)@.len() == 0 ==> r is None && final(v)@ == old(v)@,
        old(v)@.len() > 0 ==> final(v)@.len() == old(v)@.len() - 1,
        old(v)@.len() > 0 ==> r == Some(old(v)@[0]) && final(v)@ == heap_after_pop(old(v)@),
        old(v)@.len() > 0 ==> r is Some && old(v)@.to_multiset().contains(r->0) && is_max_priority(
            old(v)@.to_multiset(),
            (r->0).1,
        ) && final(v)@.to_multiset() == old(v)@.to_multiset().remove(r->0) && values_of(
            final(v)@,
        ).to_multiset() == values_of(old(v)@).to_multiset().remove((r->0).0),
{
    if v.len() == 0 {
        return None;
    }
    let ghost s0 = v@;
    proof {
        lemma_root_is_max_priority(s0);
        lemma_swap_remove_contents(s0, 0);
        assert(s0.contains(s0[0]));
    }
    let top = v.swap_remove(0);
    let n: usize = v.len();
    let mut k: usize = 0;
    let mut done: bool = n == 0;
    while !done
        invariant
            n == v.len(),
            !done ==> k < n,
            v@.to_multiset() == s0.to_multiset().remove(s0[0]),
            values_of(v@).to_multiset() == values_of(s0).to_multiset().remove(s0[0].0),
            forall|i: int| 0 < i < n && parent(i) != k ==> #[trigger] v@[i].1 <= v@[parent(i)].1,
            k > 0 ==> forall|c: int|
                0 < c < n && parent(c) == k ==> #[trigger] v@[c].1 <= v@[parent(k as int)].1,
            done ==> forall|c: int| 0 < c < n && parent(c) == k ==> #[trigger] v@[c].1 <= v@[k as int].1,
            sift_down(v@, k as int) == heap_after_pop(s0),
            done ==> sift_down(v@, k as int) == v@,
        decreases n - k + (if done { 0int } else { 1int }),
    {
        if k < n / 2 {
            let left: usize = 2 * k + 1;
            let mut m: usize = left;
            if left + 1 < n && v[left + 1].1 > v[left].1 {
                m = left + 1;
            }
            if v[m].1 > v[k].1 {
                proof {
                    lemma_swap_keeps_contents(v@, k as int, m as int);
                }
                swap_at(v, k, m);
                k = m;
            } else {
                done = true;
            }
        } else {
            done = true;
        }
    }
    Some(top)
}

/// Relies on `slice::swap`: the two positions exchange their elements.
#[verifier::external_body]
fn swap_at<T>(v: &mut Vec<T>, i: usize, j: usize)
    requires
        i < old(v).len(),
        j < old(v).len(),
    ensures
        final(v)@ == old(v)@.update(i as int, old(v)@[j as int]).update(j as int, old(v)@[i as int]),
{
    v.swap(i, j)
}

} // verus!
