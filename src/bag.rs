//! The shuffle bag.
use crate::heap::{
    heap_after_pop, heap_after_push, heap_pop, heap_push, is_heap, is_max_priority, values_of,
};
use crate::rng::{
    after_draw, draw_priority, entropy_rng, next_draw, rng_from_seed, rng_from_u64, seeded_bytes,
    seeded_u64,
};
use rand::rngs::StdRng;
use vstd::multiset::Multiset;
use vstd::prelude::*;

verus! {

broadcast use vstd::seq_lib::group_to_multiset_ensures;

/// A container that hands its values back in a pseudo-random order.
///
/// Each pushed value is paired with a priority drawn uniformly over `u64`
/// from the bag's own generator; `pop` returns the value of a pair of
/// greatest priority. Values pushed together and then popped therefore come
/// out in a random order. The pairs are kept in a binary max-heap, so both
/// operations take logarithmic time.
pub struct ShuffleBag<T> {
    bag: Vec<(T, u64)>,
    rng: StdRng,
}

/// The heap and the generator state left by pushing the values of `vs`, in
/// order, onto the heap `s` with the generator in state `g`.
pub open spec fn pushed_all<T>(s: Seq<(T, u64)>, g: StdRng, vs: Seq<T>) -> (Seq<(T, u64)>, StdRng)
    decreases vs.len(),
{
    if vs.len() == 0 {
        (s, g)
    } else {
        let (s1, g1) = pushed_all(s, g, vs.drop_last());
        (heap_after_push(s1, (vs.last(), next_draw(g1))), after_draw(g1))
    }
}

impl<T> ShuffleBag<T> {
    /// The bag is well formed: its pairs are kept in heap order of their
    /// priorities.
    pub closed spec fn wf(&self) -> bool {
        is_heap(self.bag@)
    }

    /// The pairs held: each value with the priority drawn when it was pushed.
    pub closed spec fn pairs(&self) -> Multiset<(T, u64)> {
        self.bag@.to_multiset()
    }

    /// The values held, each as often as it was pushed and not yet popped.
    pub closed spec fn values(&self) -> Multiset<T> {
        values_of(self.bag@).to_multiset()
    }

    /// The pairs held, in the order of the heap that keeps them.
    pub closed spec fn entries(&self) -> Seq<(T, u64)> {
        self.bag@
    }

    /// The bag's generator, in its current state.
    pub closed spec fn generator(&self) -> StdRng {
        self.rng
    }

    /// The number of values held.
    pub closed spec fn size(&self) -> nat {
        self.bag@.len()
    }

    proof fn lemma_sizes(&self)
        ensures
            self.pairs().len() == self.size(),
            self.values().len() == self.size(),
    {
        assert(values_of(self.bag@).len() == self.bag@.len());
    }

    /// Returns the number of values in the bag.
    pub fn len(&self) -> (r: usize)
        ensures
            r == self.size(),
            r == self.values().len(),
            r == self.pairs().len(),
    {
        proof {
            self.lemma_sizes();
        }
        self.bag.len()
    }

    /// Returns `true` if the bag holds no value.
    pub fn is_empty(&self) -> (r: bool)
        ensures
            r <==> self.size() == 0,
            r <==> self.values().len() == 0,
    {
        proof {
            self.lemma_sizes();
        }
        self.bag.len() == 0
    }

    /// A bag with no pair and the given generator.
    fn with_rng(rng: StdRng) -> (r: Self)
        ensures
            r.generator() == rng,
            r.entries() == Seq::<(T, u64)>::empty(),
            r.wf(),
            r.size() == 0,
            r.pairs() == Multiset::<(T, u64)>::empty(),
            r.values() == Multiset::<T>::empty(),
    {
        let r = ShuffleBag { bag: Vec::new(), rng };
        proof {
            assert(values_of(r.bag@) =~= Seq::<T>::empty());
        }
        r
    }

    /// Creates an empty bag whose generator is seeded from the operating
    /// system's entropy.
    pub fn new() -> (r: Self)
        ensures
            r.entries() == Seq::<(T, u64)>::empty(),
            r.wf(),
            r.size() == 0,
            r.pairs() == Multiset::<(T, u64)>::empty(),
            r.values() == Multiset::<T>::empty(),
    {
        Self::with_rng(entropy_rng())
    }

    /// Creates a bag holding the given values, pushed in order, with a
    /// generator seeded from the operating system's entropy.
    pub fn from<const N: usize>(values: [T; N]) -> (r: Self)
        ensures
            r.wf(),
            r.size() == N,
            r.values() == values@.to_multiset(),
            exists|g: StdRng|
                #[trigger] pushed_all(Seq::empty(), g, values@) == (r.entries(), r.generator()),
    {
        let mut ret = Self::new();
        let ghost g0 = ret.generator();
        let mut rest = array_into_vec(values);
        let ghost all = rest@;
        // Reverse the values so that popping them gives the array's order.
        let mut reversed: Vec<T> = Vec::new();
        while rest.len() > 0
            invariant
                all == rest@ + reversed@.reverse(),
            decreases rest.len(),
        {
            let ghost before = rest@;
            let value = rest.pop().unwrap();
            proof {
                assert(before == rest@.push(value));
                assert(reversed@.push(value).reverse() =~= seq![value] + reversed@.reverse());
                assert(all =~= rest@ + reversed@.push(value).reverse());
            }
            reversed.push(value);
        }
        proof {
            assert(all =~= reversed@.reverse());
        }
        let ghost n = reversed@.len();
        while reversed.len() > 0
            invariant
                n == all.len(),
                reversed@.len() <= n,
                reversed@.reverse() == all.subrange(n - reversed@.len(), n as int),
                ret.wf(),
                ret.values() == all.subrange(0, n - reversed@.len()).to_multiset(),
                ret.size() == n - reversed@.len(),
                pushed_all(Seq::empty(), g0, all.subrange(0, n - reversed@.len())) == (
                    ret.entries(),
                    ret.generator(),
                ),
            decreases reversed.len(),
        {
            let ghost k = n - reversed@.len();
            let ghost before = reversed@;
            let value = reversed.pop().unwrap();
            proof {
                assert(before == reversed@.push(value));
                assert(before.reverse() =~= seq![value] + reversed@.reverse());
                assert(before.reverse()[0] == all[k]);
                assert(reversed@.reverse() =~= all.subrange(k + 1, n as int)) by {
                    assert forall|i: int| 0 <= i < reversed@.len() implies #[trigger] reversed@.reverse()[i]
                        == all.subrange(k + 1, n as int)[i] by {
                        assert(before.reverse()[i + 1] == reversed@.reverse()[i]);
                    }
                }
                assert(all.subrange(0, k + 1) =~= all.subrange(0, k).push(value));
                assert(all.subrange(0, k + 1).drop_last() =~= all.subrange(0, k));
            }
            ret.push(value);
        }
        proof {
            assert(all.subrange(0, n as int) =~= all);
            assert(all =~= values@);
            assert(pushed_all(Seq::empty(), g0, values@) == (ret.entries(), ret.generator()));
        }
        ret
    }

    /// Creates an empty bag whose generator is seeded with the given bytes.
    pub fn with_seed(seed: [u8; 32]) -> (r: Self)
        ensures
            r.generator() == seeded_bytes(seed@),
            r.entries() == Seq::<(T, u64)>::empty(),
            r.wf(),
            r.size() == 0,
            r.pairs() == Multiset::<(T, u64)>::empty(),
            r.values() == Multiset::<T>::empty(),
    {
        Self::with_rng(rng_from_seed(seed))
    }

    /// Creates an empty bag whose generator is seeded from the given integer.
    pub fn with_u64(seed: u64) -> (r: Self)
        ensures
            r.generator() == seeded_u64(seed),
            r.entries() == Seq::<(T, u64)>::empty(),
            r.wf(),
            r.size() == 0,
            r.pairs() == Multiset::<(T, u64)>::empty(),
            r.values() == Multiset::<T>::empty(),
    {
        Self::with_rng(rng_from_u64(seed))
    }

    /// Pushes a value into the bag, paired with a freshly drawn priority.
    pub fn push(&mut self, value: T)
        requires
            old(self).wf(),
        ensures
            final(self).wf(),
            final(self).entries() == heap_after_push(
                old(self).entries(),
                (value, next_draw(old(self).generator())),
            ),
            final(self).generator() == after_draw(old(self).generator()),
            final(self).pairs() == old(self).pairs().insert(
                (value, next_draw(old(self).generator())),
            ),
            final(self).size() == old(self).size() + 1,
            final(self).values() == old(self).values().insert(value),
    {
        let priority = draw_priority(&mut self.rng);
        heap_push(&mut self.bag, (value, priority));
    }

    /// Pops the value of a pair of greatest priority, or returns `None` when
    /// the bag is empty. Between pairs of equal priority the choice is left
    /// open.
    pub fn pop(&mut self) -> (r: Option<T>)
        requires
            old(self).wf(),
        ensures
            final(self).wf(),
            final(self).generator() == old(self).generator(),
            old(self).size() == 0 <==> r is None,
            old(self).entries().len() == 0 <==> r is None,
            r is None ==> final(self).entries() == old(self).entries(),
            r is Some ==> r == Some(old(self).entries()[0].0) && final(self).entries()
                == heap_after_pop(old(self).entries()),
            r is None ==> final(self).pairs() == old(self).pairs() && final(self).values()
                == old(self).values(),
            r is Some ==> final(self).size() == old(self).size() - 1,
            r is Some ==> old(self).values().contains(r->0) && final(self).values()
                == old(self).values().remove(r->0),
            r is Some ==> exists|p: u64|
                #![trigger old(self).pairs().remove((r->0, p))]
                old(self).pairs().contains((r->0, p)) && is_max_priority(old(self).pairs(), p)
                    && final(self).pairs() == old(self).pairs().remove((r->0, p)),
    {
        match heap_pop(&mut self.bag) {
            None => None,
            Some(pair) => {
                let ghost g = pair;
                let r = Some(pair.0);
                proof {
                    assert(values_of(old(self).bag@).contains(g.0)) by {
                        let i = choose|i: int|
                            0 <= i < old(self).bag@.len() && old(self).bag@[i] == g;
                        assert(values_of(old(self).bag@)[i] == g.0);
                    }
                    assert(g == (r->0, g.1));
                    assert(old(self).pairs().remove((r->0, g.1)) == self.pairs());
                    assert(old(self).pairs().contains((r->0, g.1)));
                }
                r
            },
        }
    }
}

impl<T> Default for ShuffleBag<T> {
    /// An empty bag, as `new` makes it.
    fn default() -> (r: Self)
        ensures
            r.entries() == Seq::<(T, u64)>::empty(),
            r.wf(),
            r.size() == 0,
            r.values() == Multiset::<T>::empty(),
    {
        Self::new()
    }
}

/// Relies on `From<[T; N]> for Vec<T>`: moves the array's items into a
/// vector, in order.
#[verifier::external_body]
fn array_into_vec<T, const N: usize>(values: [T; N]) -> (r: Vec<T>)
    ensures
        r@ == values@,
{
    Vec::from(values)
}

} // verus!
