use vstd::prelude::*;

use crate::errors::Errors;

verus! {

/// Something that can be put away into a collection of errors.
///
/// Stashing hands back a value when there is one to go on with, and
/// records in the collection whatever errors the item carried.
pub trait StashErrors<E>: Sized {
    /// What stashing hands back when it succeeds.
    type O;

    /// The value that stashing this item hands back, if any.
    spec fn stashed_value(self) -> Option<Self::O>;

    /// The errors, in order, that stashing this item records.
    spec fn stashed_errors(self) -> Seq<E>;

    /// Records the item's errors after those of `stash` and hands back its value, if any.
    fn stash_errs(self, stash: &mut Errors<E>) -> (r: Option<Self::O>)
        ensures
            r == self.stashed_value(),
            final(stash)@ == old(stash)@ + self.stashed_errors(),
    ;
}

/// A result hands back its `Ok` value, or records its one error.
impl<O, E> StashErrors<E> for Result<O, E> {
    type O = O;

    open spec fn stashed_value(self) -> Option<O> {
        match self {
            Result::Ok(o) => Some(o),
            Result::Err(_) => None,
        }
    }

    open spec fn stashed_errors(self) -> Seq<E> {
        match self {
            Result::Ok(_) => Seq::empty(),
            Result::Err(e) => seq![e],
        }
    }

    fn stash_errs(self, stash: &mut Errors<E>) -> (r: Option<O>) {
        match self {
            Result::Ok(o) => Some(o),
            Result::Err(e) => {
                stash.push(e);
                assert(seq![e] == Seq::empty().push(e));
                None
            },
        }
    }
}

/// A result whose error is itself a collection hands back its `Ok` value,
/// or records every error of the collection, in order.
impl<O, E> StashErrors<E> for Result<O, Errors<E>> {
    type O = O;

    open spec fn stashed_value(self) -> Option<O> {
        match self {
            Result::Ok(o) => Some(o),
            Result::Err(_) => None,
        }
    }

    open spec fn stashed_errors(self) -> Seq<E> {
        match self {
            Result::Ok(_) => Seq::empty(),
            Result::Err(e) => e@,
        }
    }

    fn stash_errs(self, stash: &mut Errors<E>) -> (r: Option<O>) {
        match self {
            Result::Ok(o) => Some(o),
            Result::Err(e) => {
                stash.extend(e);
                None
            },
        }
    }
}

/// A bare error is always recorded, and nothing is handed back.
impl<T> StashErrors<T> for T {
    type O = ();

    open spec fn stashed_value(self) -> Option<()> {
        None
    }

    open spec fn stashed_errors(self) -> Seq<T> {
        seq![self]
    }

    fn stash_errs(self, stash: &mut Errors<T>) -> (r: Option<()>) {
        stash.push(self);
        assert(seq![self] == Seq::empty().push(self));
        None
    }
}

/// A collection of errors has all its errors recorded, in order, and hands back `()`.
impl<T> StashErrors<T> for Errors<T> {
    type O = ();

    open spec fn stashed_value(self) -> Option<()> {
        Some(())
    }

    open spec fn stashed_errors(self) -> Seq<T> {
        self@
    }

    fn stash_errs(self, stash: &mut Errors<T>) -> (r: Option<()>) {
        stash.extend(self);
        Some(())
    }
}

/// Stashing a result hands back its `Ok` value and records nothing, or
/// records exactly its one error and hands back nothing.
pub proof fn law_stash_result<O, E>(o: O, e: E)
    ensures
        <Result<O, E> as StashErrors<E>>::stashed_value(Result::<O, E>::Ok(o)) == Some(o),
        <Result<O, E> as StashErrors<E>>::stashed_errors(Result::<O, E>::Ok(o)) == Seq::<E>::empty(),
        <Result<O, E> as StashErrors<E>>::stashed_value(Result::<O, E>::Err(e)) == None::<O>,
        <Result<O, E> as StashErrors<E>>::stashed_errors(Result::<O, E>::Err(e)) == seq![e],
{
}

/// Stashing a result whose error is a collection hands back its `Ok` value
/// and records nothing, or records exactly the collection's errors, every one
/// of them, in order, and hands back nothing.
pub proof fn law_stash_result_of_many<O, E>(o: O, e: Errors<E>)
    ensures
        <Result<O, Errors<E>> as StashErrors<E>>::stashed_value(Result::<O, Errors<E>>::Ok(o))
            == Some(o),
        <Result<O, Errors<E>> as StashErrors<E>>::stashed_errors(Result::<O, Errors<E>>::Ok(o))
            == Seq::<E>::empty(),
        <Result<O, Errors<E>> as StashErrors<E>>::stashed_value(Result::<O, Errors<E>>::Err(e))
            == None::<O>,
        <Result<O, Errors<E>> as StashErrors<E>>::stashed_errors(Result::<O, Errors<E>>::Err(e))
            == e@,
        <Result<O, Errors<E>> as StashErrors<E>>::stashed_errors(Result::<O, Errors<E>>::Err(e)).len()
            == e@.len(),
{
}

/// Stashing a bare error records exactly that error and hands back nothing.
pub proof fn law_stash_bare_error<T>(t: T)
    ensures
        <T as StashErrors<T>>::stashed_value(t) == None::<()>,
        <T as StashErrors<T>>::stashed_errors(t) == seq![t],
{
}

/// Stashing a collection records exactly its errors, every one of them, in
/// order, and hands back `()`.
pub proof fn law_stash_collection<T>(c: Errors<T>)
    ensures
        <Errors<T> as StashErrors<T>>::stashed_value(c) == Some(()),
        <Errors<T> as StashErrors<T>>::stashed_errors(c) == c@,
        <Errors<T> as StashErrors<T>>::stashed_errors(c).len() == c@.len(),
{
}

} // verus!
