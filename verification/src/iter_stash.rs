use vstd::prelude::*;
use std::collections::VecDeque;

use crate::errors::Errors;
use crate::stash::StashErrors;

verus! {

/// What stashing items from the front of `items` until one hands back a
/// value gives: that value (or `None` when none does), the errors recorded on
/// the way, in order, and the items left after it.
pub open spec fn stash_until_value<E, A: StashErrors<E>>(items: Seq<A>) -> (Option<A::O>, Seq<E>, Seq<A>)
    decreases items.len(),
{
    if items.len() == 0 {
        (None, Seq::empty(), items)
    } else {
        let h = items[0];
        match h.stashed_value() {
            Some(o) => (Some(o), h.stashed_errors(), items.drop_first()),
            None => {
                let rest = stash_until_value(items.drop_first());
                (rest.0, h.stashed_errors() + rest.1, rest.2)
            },
        }
    }
}

/// The values handed back, in order, and the errors recorded, in order, when
/// every one of `items` is stashed.
pub open spec fn stash_all<E, A: StashErrors<E>>(items: Seq<A>) -> (Seq<A::O>, Seq<E>)
    decreases items.len(),
{
    if items.len() == 0 {
        (Seq::empty(), Seq::empty())
    } else {
        let h = items[0];
        let rest = stash_all(items.drop_first());
        let values = match h.stashed_value() {
            Some(o) => seq![o] + rest.0,
            None => rest.0,
        };
        (values, h.stashed_errors() + rest.1)
    }
}

/// The value an item hands back, as a run of at most one value.
pub open spec fn value_run<E, A: StashErrors<E>>(x: A) -> Seq<A::O> {
    match x.stashed_value() {
        Some(o) => seq![o],
        None => Seq::empty(),
    }
}

/// Stashing nothing hands back nothing and records nothing; stashing one item
/// hands back its value, if any, and records its errors.
pub proof fn law_stash_all_of_one<E, A: StashErrors<E>>(x: A)
    ensures
        stash_all(Seq::<A>::empty()) == (Seq::<A::O>::empty(), Seq::<E>::empty()),
        stash_all(seq![x]) == (value_run(x), x.stashed_errors()),
{
    assert(seq![x].drop_first() =~= Seq::<A>::empty());
    assert(value_run(x) + Seq::<A::O>::empty() =~= value_run(x));
    assert(x.stashed_errors() + Seq::<E>::empty() =~= x.stashed_errors());
}

/// Stashing two runs one after the other hands back the values of the first
/// and then of the second, and records the errors of the first and then of the
/// second: nothing is reordered, lost or added.
pub proof fn law_stash_all_of_concat<E, A: StashErrors<E>>(a: Seq<A>, b: Seq<A>)
    ensures
        stash_all(a + b) == (stash_all(a).0 + stash_all(b).0, stash_all(a).1 + stash_all(b).1),
    decreases a.len(),
{
    if a.len() == 0 {
        assert(a + b =~= b);
        assert(Seq::<A::O>::empty() + stash_all(b).0 =~= stash_all(b).0);
        assert(Seq::<E>::empty() + stash_all(b).1 =~= stash_all(b).1);
    } else {
        law_stash_all_of_concat(a.drop_first(), b);
        assert((a + b).drop_first() =~= a.drop_first() + b);
        assert((a + b)[0] == a[0]);
        let h = a[0];
        let ra = stash_all(a.drop_first());
        let rb = stash_all(b);
        assert(h.stashed_errors() + (ra.1 + rb.1) =~= (h.stashed_errors() + ra.1) + rb.1);
        match h.stashed_value() {
            Some(o) => {
                assert(seq![o] + (ra.0 + rb.0) =~= (seq![o] + ra.0) + rb.0);
            },
            None => {},
        }
    }
}

/// Stashing up to the first value takes a prefix of the items: every item
/// before the last one taken hands back nothing, the last one taken hands back
/// the value handed out (when there is one), what was recorded is what
/// stashing that prefix records, and the items left are those after it.
pub proof fn law_stash_until_value_takes_a_prefix<E, A: StashErrors<E>>(items: Seq<A>)
    ensures
        ({
            let out = stash_until_value(items);
            let k = items.len() - out.2.len();
            &&& 0 <= k <= items.len()
            &&& out.2 == items.skip(k)
            &&& stash_all(items.take(k)) == (match out.0 {
                Some(o) => seq![o],
                None => Seq::<A::O>::empty(),
            }, out.1)
            &&& out.0 is Some ==> k >= 1 && items[k - 1].stashed_value() == out.0
            &&& forall|j: int|
                0 <= j < k && (out.0 is None || j < k - 1) ==> (#[trigger] items[j]).stashed_value()
                    is None
        }),
    decreases items.len(),
{
    let out = stash_until_value(items);
    if items.len() == 0 {
        assert(items.skip(0) =~= items);
        assert(items.take(0) =~= Seq::<A>::empty());
    } else {
        let h = items[0];
        let tail = items.drop_first();
        law_stash_until_value_takes_a_prefix(tail);
        match h.stashed_value() {
            Some(o) => {
                assert(items.skip(1) =~= tail);
                assert(items.take(1) =~= seq![h]);
                law_stash_all_of_one::<E, A>(h);
            },
            None => {
                let inner = stash_until_value(tail);
                let k1 = tail.len() - inner.2.len();
                assert(items.skip(k1 + 1) =~= tail.skip(k1));
                assert(items.take(k1 + 1) =~= seq![h] + tail.take(k1));
                law_stash_all_of_concat::<E, A>(seq![h], tail.take(k1));
                law_stash_all_of_one::<E, A>(h);
                assert(Seq::<A::O>::empty() + stash_all(tail.take(k1)).0 =~= stash_all(tail.take(k1)).0);
                assert forall|j: int|
                    0 <= j < k1 + 1 && (out.0 is None || j < k1) implies (#[trigger] items[j]).stashed_value() is None by {
                    if j > 0 {
                        assert(items[j] == tail[j - 1]);
                    }
                }
                if out.0 is Some {
                    assert(items[k1] == tail[k1 - 1]);
                }
            },
        }
    }
}

/// Stashing up to the first value leaves a strictly shorter run when a value
/// was found, and nothing when none was.
pub proof fn lemma_stash_until_value_shrinks<E, A: StashErrors<E>>(items: Seq<A>)
    ensures
        stash_until_value(items).0 is Some ==> stash_until_value(items).2.len() < items.len(),
        stash_until_value(items).0 is None ==> stash_until_value(items).2.len() == 0,
    decreases items.len(),
{
    if items.len() > 0 {
        lemma_stash_until_value_shrinks(items.drop_first());
    }
}

/// Stashing up to the first value and then stashing the rest is the same as
/// stashing everything.
pub proof fn lemma_stash_until_value_then_rest<E, A: StashErrors<E>>(items: Seq<A>)
    ensures
        ({
            let out = stash_until_value(items);
            let rest = stash_all(out.2);
            let first = match out.0 {
                Some(o) => seq![o],
                None => Seq::empty(),
            };
            stash_all(items) == (first + rest.0, out.1 + rest.1)
        }),
    decreases items.len(),
{
    if items.len() > 0 {
        lemma_stash_until_value_then_rest(items.drop_first());
        let h = items[0];
        let out = stash_until_value(items.drop_first());
        let rest = stash_all(out.2);
        let whole = stash_all(items.drop_first());
        assert(h.stashed_errors() + (out.1 + rest.1) == (h.stashed_errors() + out.1) + rest.1);
        match h.stashed_value() {
            Some(o) => {
                assert(stash_all(items).0 == seq![o] + whole.0);
            },
            None => {},
        }
    } else {
        assert(stash_all(items).0 == Seq::<A::O>::empty() + Seq::<A::O>::empty());
        assert(stash_all(items).1 == Seq::<E>::empty() + Seq::<E>::empty());
    }
}

/// The values handed out, in order, and the errors recorded, in order, when an
/// [`IterStash`] over `items` is asked for values until it has none left.
pub open spec fn stash_drain<E, A: StashErrors<E>>(items: Seq<A>) -> (Seq<A::O>, Seq<E>)
    decreases items.len(),
{
    let out = stash_until_value(items);
    match out.0 {
        None => (Seq::empty(), out.1),
        Some(o) => {
            proof {
                lemma_stash_until_value_shrinks(items);
            }
            let rest = stash_drain(out.2);
            (seq![o] + rest.0, out.1 + rest.1)
        },
    }
}

/// Asking an [`IterStash`] for values until it has none left hands out the
/// value of every item, in order, and records the errors of every item, in
/// order: no value is lost and no error is dropped.
pub proof fn law_iter_stash_drains_all<E, A: StashErrors<E>>(items: Seq<A>)
    ensures
        stash_drain(items) == stash_all(items),
    decreases items.len(),
{
    lemma_stash_until_value_then_rest(items);
    lemma_stash_until_value_shrinks(items);
    let out = stash_until_value(items);
    match out.0 {
        None => {
            assert(out.2 =~= Seq::<A>::empty());
            assert(stash_all(out.2) == (Seq::<A::O>::empty(), Seq::<E>::empty()));
            assert(stash_all(items).0 =~= Seq::<A::O>::empty());
            assert(stash_all(items).1 =~= out.1);
        },
        Some(o) => {
            law_iter_stash_drains_all(out.2);
        },
    }
}

/// Once an [`IterStash`] has answered `None` it has no items left, and asking
/// again answers `None` and records nothing.
pub proof fn law_iter_stash_stays_done<E, A: StashErrors<E>>(items: Seq<A>)
    ensures
        stash_until_value(items).0 is None ==> {
            let rest = stash_until_value(items).2;
            &&& rest == Seq::<A>::empty()
            &&& stash_until_value(rest) == (None::<A::O>, Seq::<E>::empty(), rest)
        },
{
    lemma_stash_until_value_shrinks(items);
    if stash_until_value(items).0 is None {
        assert(stash_until_value(items).2 =~= Seq::<A>::empty());
    }
}

/// Moves the items of `v` into a queue, keeping their order.
pub(crate) fn to_queue<A>(v: Vec<A>) -> (r: VecDeque<A>)
    ensures
        r@ == v@,
{
    let mut v = v;
    let ghost whole = v@;
    let mut q: VecDeque<A> = VecDeque::new();
    while v.len() > 0
        invariant
            v@ + q@ == whole,
        decreases v.len(),
    {
        let ghost before = v@;
        let x = v.pop().unwrap();
        q.push_front(x);
        assert(v@ + q@ =~= before + (q@.drop_first()));
    }
    assert(v@ + q@ =~= q@);
    q
}

/// Hands out the values of a run of items, stashing their errors into a
/// collection it borrows.
pub struct IterStash<'l, E, A: StashErrors<E>> {
    items: VecDeque<A>,
    stash: &'l mut Errors<E>,
}

impl<'l, E, A: StashErrors<E>> IterStash<'l, E, A> {
    /// The items not handed out yet, in order.
    pub closed spec fn remaining(&self) -> Seq<A> {
        self.items@
    }

    /// The borrowed collection.
    pub closed spec fn stash_ref(&self) -> &'l mut Errors<E> {
        self.stash
    }

    /// Starts on `items`, stashing into `stash`.
    pub fn new(items: Vec<A>, stash: &'l mut Errors<E>) -> (r: Self)
        ensures
            r.remaining() == items@,
            *r.stash_ref() == *old(stash),
            *final(r.stash_ref()) == *final(stash),
    {
        IterStash { items: to_queue(items), stash }
    }

    /// Ends the run and gives the borrowed collection back to its owner, which
    /// then holds what the run recorded.
    pub fn finish(self)
        ensures
            *final(self.stash_ref()) == *self.stash_ref(),
    {
        let IterStash { items: _items, stash: _stash } = self;
    }

    /// Stashes items from the front until one hands back a value, and hands
    /// that value out; `None` once the items are used up.
    pub fn next(&mut self) -> (r: Option<A::O>)
        ensures
            ({
                let out = stash_until_value(old(self).remaining());
                &&& r == out.0
                &&& (*final(self).stash_ref())@ == (*old(self).stash_ref())@ + out.1
                &&& final(self).remaining() == out.2
                &&& *final(final(self).stash_ref()) == *final(old(self).stash_ref())
            }),
    {
        let ghost start = self.items@;
        let ghost start_stash = self.stash@;
        let ghost mut done: Seq<E> = Seq::empty();
        loop
            invariant_except_break
                stash_until_value(start) == ({
                    let rest = stash_until_value(self.items@);
                    (rest.0, done + rest.1, rest.2)
                }),
                (*self.stash)@ == start_stash + done,
                start == old(self).items@,
                start_stash == (*old(self).stash)@,
                *final(self.stash) == *final(old(self).stash),
            decreases self.items@.len(),
        {
            match self.items.pop_front() {
                Some(v) => {
                    match v.stash_errs(self.stash) {
                        Some(r) => return Some(r),
                        None => {
                            proof {
                                done = done + v.stashed_errors();
                            }
                        },
                    }
                },
                None => return None,
            }
        }
    }
}

} // verus!
