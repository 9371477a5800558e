//! Properties of runs of calls on a bag, proved from the methods' contracts.
use crate::bag::ShuffleBag;
use crate::heap::{heap_after_pop, heap_after_push, lemma_relabel_pop, lemma_relabel_push, relabel};
use crate::rng::{after_draw, next_draw, seeded_u64};
use vstd::multiset::Multiset;
use vstd::prelude::*;

verus! {

broadcast use vstd::seq_lib::group_to_multiset_ensures;

/// One call on a bag: a `push` of a value, or a `pop` with what it returned.
pub enum Call<T> {
    Push(T),
    Pop(Option<T>),
}

/// `after` is what the contracts of `push` and `pop` allow `call` to leave of
/// `before`, as far as the values held go.
pub open spec fn follows<T>(before: ShuffleBag<T>, call: Call<T>, after: ShuffleBag<T>) -> bool {
    match call {
        Call::Push(v) => after.values() == before.values().insert(v),
        Call::Pop(None) => before.values().len() == 0 && after.values() == before.values(),
        Call::Pop(Some(v)) => before.values().contains(v) && after.values()
            == before.values().remove(v),
    }
}

/// `after` is exactly what the contracts of `push` and `pop` make of `before`
/// through `call`: the heap of pairs, the generator, and what `pop` returned.
pub open spec fn follows_exactly<T>(before: ShuffleBag<T>, call: Call<T>, after: ShuffleBag<T>) -> bool {
    match call {
        Call::Push(v) => after.entries() == heap_after_push(
            before.entries(),
            (v, next_draw(before.generator())),
        ) && after.generator() == after_draw(before.generator()),
        Call::Pop(None) => before.entries().len() == 0 && after.entries() == before.entries()
            && after.generator() == before.generator(),
        Call::Pop(Some(v)) => before.entries().len() > 0 && v == before.entries()[0].0
            && after.entries() == heap_after_pop(before.entries()) && after.generator()
            == before.generator(),
    }
}

/// `c` and `d` make the same pushes, of the same values, and their pops stand
/// at the same places.
pub open spec fn same_requests<T>(c: Call<T>, d: Call<T>) -> bool {
    match (c, d) {
        (Call::Push(v), Call::Push(w)) => v == w,
        (Call::Pop(_), Call::Pop(_)) => true,
        _ => false,
    }
}

/// Two bags made by `with_u64` with the same seed, given the same pushes and
/// pops in the same order, return the same results from every pop: runs of
/// calls on them are equal.
///
/// `a[i]` and `b[i]` are the bags before `calls_a[i]` and `calls_b[i]`, and
/// `a[i + 1]` and `b[i + 1]` the bags after them.
pub proof fn lemma_same_seed_same_pops<T>(
    seed: u64,
    a: Seq<ShuffleBag<T>>,
    calls_a: Seq<Call<T>>,
    b: Seq<ShuffleBag<T>>,
    calls_b: Seq<Call<T>>,
)
    requires
        a.len() == calls_a.len() + 1,
        b.len() == calls_b.len() + 1,
        calls_a.len() == calls_b.len(),
        a[0].entries() == Seq::<(T, u64)>::empty() && a[0].generator() == seeded_u64(seed),
        b[0].entries() == Seq::<(T, u64)>::empty() && b[0].generator() == seeded_u64(seed),
        forall|i: int|
            0 <= i < calls_a.len() ==> follows_exactly(a[i], #[trigger] calls_a[i], a[i + 1]),
        forall|i: int|
            0 <= i < calls_b.len() ==> follows_exactly(b[i], #[trigger] calls_b[i], b[i + 1]),
        forall|i: int| 0 <= i < calls_a.len() ==> same_requests(#[trigger] calls_a[i], calls_b[i]),
    ensures
        calls_a == calls_b,
{
    assert forall|k: int| 0 <= k <= calls_a.len() implies #[trigger] a[k].entries()
        == b[k].entries() && a[k].generator() == b[k].generator() by {
        lemma_runs_agree(a, calls_a, b, calls_b, k);
    }
    assert forall|i: int| 0 <= i < calls_a.len() implies #[trigger] calls_a[i] == calls_b[i] by {
        assert(follows_exactly(a[i], calls_a[i], a[i + 1]));
        assert(follows_exactly(b[i], calls_b[i], b[i + 1]));
        assert(same_requests(calls_a[i], calls_b[i]));
        assert(a[i].entries() == b[i].entries());
    }
    assert(calls_a =~= calls_b);
}

proof fn lemma_runs_agree<T>(
    a: Seq<ShuffleBag<T>>,
    calls_a: Seq<Call<T>>,
    b: Seq<ShuffleBag<T>>,
    calls_b: Seq<Call<T>>,
    k: int,
)
    requires
        a.len() == calls_a.len() + 1,
        b.len() == calls_b.len() + 1,
        calls_a.len() == calls_b.len(),
        a[0].entries() == b[0].entries(),
        a[0].generator() == b[0].generator(),
        forall|i: int|
            0 <= i < calls_a.len() ==> follows_exactly(a[i], #[trigger] calls_a[i], a[i + 1]),
        forall|i: int|
            0 <= i < calls_b.len() ==> follows_exactly(b[i], #[trigger] calls_b[i], b[i + 1]),
        forall|i: int| 0 <= i < calls_a.len() ==> same_requests(#[trigger] calls_a[i], calls_b[i]),
        0 <= k <= calls_a.len(),
    ensures
        a[k].entries() == b[k].entries(),
        a[k].generator() == b[k].generator(),
    decreases k,
{
    if k > 0 {
        lemma_runs_agree(a, calls_a, b, calls_b, k - 1);
        assert(follows_exactly(a[k - 1], calls_a[k - 1], a[k]));
        assert(follows_exactly(b[k - 1], calls_b[k - 1], b[k]));
        assert(same_requests(calls_a[k - 1], calls_b[k - 1]));
    }
}

/// `d` is `c` with every value `v` that it pushes or pops replaced by `f(v)`.
pub open spec fn relabelled<T, U>(c: Call<T>, d: Call<U>, f: spec_fn(T) -> U) -> bool {
    match (c, d) {
        (Call::Push(v), Call::Push(w)) => w == f(v),
        (Call::Pop(None), Call::Pop(None)) => true,
        (Call::Pop(Some(v)), Call::Pop(Some(w))) => w == f(v),
        _ => false,
    }
}

/// The order in which values come out depends on the generator and on the
/// positions at which they were pushed, never on the values themselves: two
/// bags that start empty with generators in the same state, where the second
/// is given `f(v)` wherever the first is given `v`, pop `f(v)` wherever the
/// first pops `v`.
///
/// `a[i]` and `b[i]` are the bags before `calls_a[i]` and `calls_b[i]`, and
/// `a[i + 1]` and `b[i + 1]` the bags after them.
pub proof fn lemma_order_ignores_values<T, U>(
    f: spec_fn(T) -> U,
    a: Seq<ShuffleBag<T>>,
    calls_a: Seq<Call<T>>,
    b: Seq<ShuffleBag<U>>,
    calls_b: Seq<Call<U>>,
)
    requires
        a.len() == calls_a.len() + 1,
        b.len() == calls_b.len() + 1,
        calls_a.len() == calls_b.len(),
        a[0].entries() == Seq::<(T, u64)>::empty(),
        b[0].entries() == Seq::<(U, u64)>::empty(),
        a[0].generator() == b[0].generator(),
        forall|i: int|
            0 <= i < calls_a.len() ==> follows_exactly(a[i], #[trigger] calls_a[i], a[i + 1]),
        forall|i: int|
            0 <= i < calls_b.len() ==> follows_exactly(b[i], #[trigger] calls_b[i], b[i + 1]),
        forall|i: int|
            0 <= i < calls_a.len() ==> match (#[trigger] calls_a[i], calls_b[i]) {
                (Call::Push(v), Call::Push(w)) => w == f(v),
                (Call::Pop(_), Call::Pop(_)) => true,
                _ => false,
            },
    ensures
        forall|i: int| 0 <= i < calls_a.len() ==> relabelled(#[trigger] calls_a[i], calls_b[i], f),
{
    assert forall|i: int| 0 <= i < calls_a.len() implies relabelled(
        #[trigger] calls_a[i],
        calls_b[i],
        f,
    ) by {
        lemma_relabelled_runs(f, a, calls_a, b, calls_b, i);
        assert(follows_exactly(a[i], calls_a[i], a[i + 1]));
        assert(follows_exactly(b[i], calls_b[i], b[i + 1]));
        assert(b[i].entries() == relabel(a[i].entries(), f));
        if a[i].entries().len() > 0 {
            assert(relabel(a[i].entries(), f)[0] == (f(a[i].entries()[0].0), a[i].entries()[0].1));
        }
    }
}

proof fn lemma_relabelled_runs<T, U>(
    f: spec_fn(T) -> U,
    a: Seq<ShuffleBag<T>>,
    calls_a: Seq<Call<T>>,
    b: Seq<ShuffleBag<U>>,
    calls_b: Seq<Call<U>>,
    k: int,
)
    requires
        a.len() == calls_a.len() + 1,
        b.len() == calls_b.len() + 1,
        calls_a.len() == calls_b.len(),
        a[0].entries() == Seq::<(T, u64)>::empty(),
        b[0].entries() == Seq::<(U, u64)>::empty(),
        a[0].generator() == b[0].generator(),
        forall|i: int|
            0 <= i < calls_a.len() ==> follows_exactly(a[i], #[trigger] calls_a[i], a[i + 1]),
        forall|i: int|
            0 <= i < calls_b.len() ==> follows_exactly(b[i], #[trigger] calls_b[i], b[i + 1]),
        forall|i: int|
            0 <= i < calls_a.len() ==> match (#[trigger] calls_a[i], calls_b[i]) {
                (Call::Push(v), Call::Push(w)) => w == f(v),
                (Call::Pop(_), Call::Pop(_)) => true,
                _ => false,
            },
        0 <= k <= calls_a.len(),
    ensures
        b[k].entries() == relabel(a[k].entries(), f),
        b[k].generator() == a[k].generator(),
    decreases k,
{
    if k == 0 {
        assert(relabel(a[0].entries(), f) =~= b[0].entries());
    } else {
        let j = k - 1;
        lemma_relabelled_runs(f, a, calls_a, b, calls_b, j);
        assert(follows_exactly(a[j], calls_a[j], a[k]));
        assert(follows_exactly(b[j], calls_b[j], b[k]));
        let s = a[j].entries();
        match calls_a[j] {
            Call::Push(v) => {
                lemma_relabel_push(s, (v, next_draw(a[j].generator())), f);
            },
            Call::Pop(_) => {
                if s.len() > 0 {
                    lemma_relabel_pop(s, f);
                }
            },
        }
    }
}

/// The number of pushes in `calls` less the number of pops that returned a
/// value.
pub open spec fn pushes_less_pops<T>(calls: Seq<Call<T>>) -> int
    decreases calls.len(),
{
    if calls.len() == 0 {
        0
    } else {
        pushes_less_pops(calls.drop_last()) + match calls.last() {
            Call::Push(_) => 1int,
            Call::Pop(Some(_)) => -1int,
            Call::Pop(None) => 0int,
        }
    }
}

/// Over any run of calls on a bag that started empty, after every prefix of
/// the run the bag holds as many values as there were pushes, less the pops
/// that returned a value.
///
/// `bags[i]` is the bag before `calls[i]` and `bags[i + 1]` the bag after it.
pub proof fn lemma_size_counts_calls<T>(bags: Seq<ShuffleBag<T>>, calls: Seq<Call<T>>)
    requires
        bags.len() == calls.len() + 1,
        bags[0].values().len() == 0,
        forall|i: int| 0 <= i < calls.len() ==> follows(bags[i], #[trigger] calls[i], bags[i + 1]),
    ensures
        forall|k: int|
            0 <= k <= calls.len() ==> #[trigger] bags[k].values().len() == pushes_less_pops(
                calls.subrange(0, k),
            ),
    decreases calls.len(),
{
    if calls.len() > 0 {
        let n = calls.len() - 1;
        lemma_size_counts_calls(bags.drop_last(), calls.drop_last());
        assert forall|k: int| 0 <= k <= calls.len() implies #[trigger] bags[k].values().len()
            == pushes_less_pops(calls.subrange(0, k)) by {
            if k <= n {
                assert(bags.drop_last()[k] == bags[k]);
                assert(calls.drop_last().subrange(0, k) =~= calls.subrange(0, k));
            } else {
                assert(bags.drop_last()[n] == bags[n]);
                assert(calls.drop_last().subrange(0, n) =~= calls.subrange(0, n));
                assert(calls.subrange(0, k).drop_last() =~= calls.subrange(0, n));
                assert(follows(bags[n], calls[n], bags[n + 1]));
            }
        }
    }
}

/// Pushing any values into an empty bag and then popping as many times hands
/// back exactly the values pushed, each as often as it was pushed, and
/// leaves the bag empty.
///
/// `bags[i]` is the bag before the `i`-th call and `bags[i + 1]` after it;
/// the pushes come first, then the pops.
pub proof fn lemma_pops_give_back_pushes<T>(
    bags: Seq<ShuffleBag<T>>,
    pushed: Seq<T>,
    popped: Seq<Option<T>>,
)
    requires
        popped.len() == pushed.len(),
        bags.len() == pushed.len() + popped.len() + 1,
        bags[0].values().len() == 0,
        forall|i: int|
            0 <= i < pushed.len() ==> follows(bags[i], Call::Push(#[trigger] pushed[i]), bags[i + 1]),
        forall|j: int|
            0 <= j < popped.len() ==> follows(
                bags[pushed.len() + j],
                Call::Pop(#[trigger] popped[j]),
                bags[pushed.len() + j + 1],
            ),
    ensures
        forall|j: int| 0 <= j < popped.len() ==> #[trigger] popped[j] is Some,
        popped.map_values(|o: Option<T>| o->0).to_multiset() == pushed.to_multiset(),
        bags.last().values().len() == 0,
{
    let k = pushed.len() as int;
    assert forall|i: int| 0 <= i <= k implies #[trigger] bags[i].values() == pushed.subrange(
        0,
        i,
    ).to_multiset() by {
        lemma_pushes_fill(bags, pushed, i);
    }
    assert(pushed.subrange(0, k) =~= pushed);
    let outs = popped.map_values(|o: Option<T>| o->0);
    lemma_pops_drain(bags, pushed, popped, k);
    assert(outs.subrange(0, k) =~= outs);
    assert(bags.last() == bags[k + k]);
    assert(bags[k + k].values().len() == 0);
    assert(bags[k + k].values() =~= Multiset::empty());
}

proof fn lemma_pushes_fill<T>(bags: Seq<ShuffleBag<T>>, pushed: Seq<T>, i: int)
    requires
        bags.len() > pushed.len(),
        bags[0].values().len() == 0,
        forall|i: int|
            0 <= i < pushed.len() ==> follows(bags[i], Call::Push(#[trigger] pushed[i]), bags[i + 1]),
        0 <= i <= pushed.len(),
    ensures
        bags[i].values() == pushed.subrange(0, i).to_multiset(),
    decreases i,
{
    if i == 0 {
        assert(pushed.subrange(0, 0) =~= Seq::<T>::empty());
        assert(bags[0].values() =~= Multiset::empty());
    } else {
        lemma_pushes_fill(bags, pushed, i - 1);
        assert(follows(bags[i - 1], Call::Push(pushed[i - 1]), bags[i]));
        assert(pushed.subrange(0, i) =~= pushed.subrange(0, i - 1).push(pushed[i - 1]));
    }
}

proof fn lemma_pops_drain<T>(
    bags: Seq<ShuffleBag<T>>,
    pushed: Seq<T>,
    popped: Seq<Option<T>>,
    j: int,
)
    requires
        popped.len() == pushed.len(),
        bags.len() == pushed.len() + popped.len() + 1,
        bags[pushed.len() as int].values() == pushed.to_multiset(),
        forall|j: int|
            0 <= j < popped.len() ==> follows(
                bags[pushed.len() + j],
                Call::Pop(#[trigger] popped[j]),
                bags[pushed.len() + j + 1],
            ),
        0 <= j <= popped.len(),
    ensures
        bags[pushed.len() + j].values().add(
            popped.map_values(|o: Option<T>| o->0).subrange(0, j).to_multiset(),
        ) == pushed.to_multiset(),
        bags[pushed.len() + j].values().len() == pushed.len() - j,
        forall|i: int| 0 <= i < j ==> #[trigger] popped[i] is Some,
    decreases j,
{
    let k = pushed.len() as int;
    let outs = popped.map_values(|o: Option<T>| o->0);
    if j == 0 {
        assert(outs.subrange(0, 0) =~= Seq::<T>::empty());
        assert(bags[k].values().add(Multiset::empty()) =~= bags[k].values());
    } else {
        lemma_pops_drain(bags, pushed, popped, j - 1);
        let before = bags[k + j - 1].values();
        assert(follows(bags[k + (j - 1)], Call::Pop(popped[j - 1]), bags[k + (j - 1) + 1]));
        let v = popped[j - 1]->0;
        assert(outs.subrange(0, j) =~= outs.subrange(0, j - 1).push(v));
        assert(bags[k + j].values().add(outs.subrange(0, j).to_multiset()) =~= before.add(
            outs.subrange(0, j - 1).to_multiset(),
        ));
    }
}

} // verus!
