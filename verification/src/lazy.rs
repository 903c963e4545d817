use vstd::prelude::*;
use std::collections::VecDeque;

use crate::errors::Errors;
use crate::iter_stash::{
    lemma_stash_until_value_shrinks, lemma_stash_until_value_then_rest, stash_all,
    stash_until_value, to_queue,
};
use crate::stash::StashErrors;

verus! {

/// One step of a [`LazyErrIter`] over `items` that holds the errors `pending`:
/// what it hands out, the items left, and the errors it holds afterwards.
///
/// Errors are held back while values are handed out as `Ok`; once the items
/// are used up, every held error comes out together in one `Err`, and after
/// that nothing more.
pub open spec fn lazy_step<O, E, A: StashErrors<E, O = O>>(items: Seq<A>, pending: Seq<E>) -> (
    Option<Result<O, Seq<E>>>,
    Seq<A>,
    Seq<E>,
) {
    let out = stash_until_value(items);
    let held = pending + out.1;
    match out.0 {
        Some(o) => (Some(Ok(o)), out.2, held),
        None => if held.len() == 0 {
            (None, out.2, Seq::empty())
        } else {
            (Some(Err(held)), out.2, Seq::empty())
        },
    }
}

/// Everything a [`LazyErrIter`] over `items` holding `pending` hands out, in
/// order, when it is asked until it answers `None`.
pub open spec fn lazy_drain<O, E, A: StashErrors<E, O = O>>(items: Seq<A>, pending: Seq<E>) -> Seq<
    Result<O, Seq<E>>,
>
    decreases items.len(), pending.len(),
{
    let step = lazy_step(items, pending);
    match step.0 {
        None => Seq::empty(),
        Some(x) => {
            proof {
                lemma_stash_until_value_shrinks(items);
            }
            seq![x] + lazy_drain(step.1, step.2)
        },
    }
}

/// The last thing a lazy run hands out: one `Err` with all the errors, if there are any.
pub open spec fn final_error<O, E>(errs: Seq<E>) -> Seq<Result<O, Seq<E>>> {
    if errs.len() == 0 {
        Seq::empty()
    } else {
        seq![Err(errs)]
    }
}

/// A [`LazyErrIter`] hands out every value of its items as `Ok`, in order, and
/// then, if any error was held or recorded, exactly one `Err` with all of
/// them, in order; so collecting it into a `Result` gathers every error.
pub proof fn law_lazy_errs_moves_errors_to_the_end<O, E, A: StashErrors<E, O = O>>(
    items: Seq<A>,
    pending: Seq<E>,
)
    ensures
        lazy_drain(items, pending) == stash_all(items).0.map_values(|o: O| Ok::<O, Seq<E>>(o))
            + final_error::<O, E>(pending + stash_all(items).1),
    decreases items.len(), pending.len(),
{
    lemma_stash_until_value_then_rest(items);
    lemma_stash_until_value_shrinks(items);
    let out = stash_until_value(items);
    let all = stash_all(items);
    let ok = |o: O| Ok::<O, Seq<E>>(o);
    match out.0 {
        Some(o) => {
            law_lazy_errs_moves_errors_to_the_end(out.2, pending + out.1);
            let rest = stash_all(out.2);
            assert(all.0 == seq![o] + rest.0);
            assert(all.0.map_values(ok) =~= seq![Ok::<O, Seq<E>>(o)] + rest.0.map_values(ok));
            assert(pending + all.1 =~= (pending + out.1) + rest.1);
        },
        None => {
            assert(out.2 =~= Seq::<A>::empty());
            assert(stash_all(out.2) == (Seq::<O>::empty(), Seq::<E>::empty()));
            assert(all.0 =~= Seq::<O>::empty());
            assert(all.1 =~= out.1);
            assert(all.0.map_values(ok) =~= Seq::<Result<O, Seq<E>>>::empty());
            let held = pending + out.1;
            if held.len() != 0 {
                assert(lazy_step(out.2, Seq::<E>::empty()).0 is None);
                assert(lazy_drain(out.2, Seq::<E>::empty()) =~= Seq::<Result<O, Seq<E>>>::empty());
            }
        },
    }
}

/// Once a [`LazyErrIter`] has handed out its `Err`, or answered `None`, it has
/// no items and no errors left, and answers `None` from then on.
pub proof fn law_lazy_errs_stays_done<O, E, A: StashErrors<E, O = O>>(items: Seq<A>, pending: Seq<E>)
    ensures
        ({
            let step = lazy_step(items, pending);
            (step.0 is None || step.0 matches Some(Err(_))) ==> {
                &&& step.1 == Seq::<A>::empty()
                &&& step.2 == Seq::<E>::empty()
                &&& lazy_step(step.1, step.2).0 is None
            }
        }),
{
    lemma_stash_until_value_shrinks(items);
    let out = stash_until_value(items);
    if out.0 is None {
        assert(out.2 =~= Seq::<A>::empty());
    }
    assert(Seq::<E>::empty() + Seq::<E>::empty() =~= Seq::<E>::empty());
}

/// Hands out the values of a run of items as `Ok`, holding their errors back
/// until the items are used up, then hands them all out in one `Err`.
#[verifier::reject_recursive_types(O)]
pub struct LazyErrIter<O, E, A: StashErrors<E, O = O>> {
    items: VecDeque<A>,
    stash: Errors<E>,
}

impl<O, E, A: StashErrors<E, O = O>> LazyErrIter<O, E, A> {
    /// The items not looked at yet, in order.
    pub closed spec fn remaining(&self) -> Seq<A> {
        self.items@
    }

    /// The errors held back so far, in order.
    pub closed spec fn pending(&self) -> Seq<E> {
        self.stash@
    }

    /// The next value as `Ok`; once the items are used up, all held errors
    /// in one `Err` if there are any; then `None`.
    pub fn next(&mut self) -> (r: Option<Result<O, Errors<E>>>)
        ensures
            ({
                let step = lazy_step(old(self).remaining(), old(self).pending());
                &&& final(self).remaining() == step.1
                &&& final(self).pending() == step.2
                &&& match step.0 {
                    None => r is None,
                    Some(Ok(o)) => r == Some(Result::<O, Errors<E>>::Ok(o)),
                    Some(Err(es)) => r is Some && r->0 is Err && r->0->Err_0@ == es,
                }
            }),
    {
        let ghost start = self.items@;
        let ghost start_stash = self.stash@;
        let ghost mut done: Seq<E> = Seq::empty();
        loop
            invariant_except_break
                stash_until_value(start) == ({
                    let rest = stash_until_value(self.items@);
                    (rest.0, done + rest.1, rest.2)
                }),
                self.stash@ == start_stash + done,
                start == old(self).items@,
                start_stash == old(self).stash@,
            ensures
                ({
                    let out = stash_until_value(start);
                    &&& self.items@ == out.2
                    &&& self.stash@ == start_stash + out.1
                    &&& out.0 is None
                }),
            decreases self.items@.len(),
        {
            match self.items.pop_front() {
                Some(v) => {
                    match v.stash_errs(&mut self.stash) {
                        Some(r) => {
                            assert(self.stash@ == start_stash + stash_until_value(start).1);
                            return Some(Ok(r));
                        },
                        None => {
                            proof {
                                done = done + v.stashed_errors();
                            }
                        },
                    }
                },
                None => {
                    assert(done + Seq::<E>::empty() == done);
                    break;
                },
            }
        }
        if self.stash.is_empty() {
            None
        } else {
            let mut held = Errors::new();
            std::mem::swap(&mut held, &mut self.stash);
            Some(Err(held))
        }
    }
}

/// Turning a run of items into a [`LazyErrIter`].
pub trait LazyErrs<O, E>: Sized {
    /// The iterator made.
    type Iter;

    /// Moves every error of the run to the end, so that collecting gathers them all.
    fn lazy_errs(self) -> Self::Iter;
}

impl<O, E, A: StashErrors<E, O = O>> LazyErrs<O, E> for Vec<A> {
    type Iter = LazyErrIter<O, E, A>;

    fn lazy_errs(self) -> (r: LazyErrIter<O, E, A>)
        ensures
            r.remaining() == self@,
            r.pending() == Seq::<E>::empty(),
    {
        LazyErrIter { items: to_queue(self), stash: Errors::new() }
    }
}

} // verus!
