use vstd::prelude::*;
use vstd::std_specs::convert::FromSpecImpl;

use crate::stash::StashErrors;
use vstd::std_specs::iter::IteratorSpec;

verus! {

/// A collection of errors, kept in the order in which they were recorded.
#[derive(Clone, PartialEq, Eq)]
pub struct Errors<T> {
    errs: Vec<T>,
}

impl<T> View for Errors<T> {
    type V = Seq<T>;

    closed spec fn view(&self) -> Seq<T> {
        self.errs@
    }
}

impl<T> Errors<T> {
    /// An empty collection of errors.
    pub fn new() -> (r: Self)
        ensures
            r@ == Seq::<T>::empty(),
    {
        Errors { errs: Vec::new() }
    }

    /// Records one more error after those already held.
    pub(crate) fn push(&mut self, e: T)
        ensures
            final(self)@ == old(self)@.push(e),
    {
        self.errs.push(e);
    }

    /// Records the errors of `other` after those already held, in order.
    pub(crate) fn extend(&mut self, other: Errors<T>)
        ensures
            final(self)@ == old(self)@ + other@,
    {
        let mut taken = other.errs;
        self.errs.append(&mut taken);
    }

    /// Moves the errors out, in order.
    pub fn into_vec(self) -> (r: Vec<T>)
        ensures
            r@ == self@,
    {
        self.errs
    }

    /// The errors held, in order.
    pub fn as_slice(&self) -> (r: &[T])
        ensures
            r@ == self@,
    {
        self.errs.as_slice()
    }

    /// Whether no error is held.
    pub fn is_empty(&self) -> (r: bool)
        ensures
            r == (self@.len() == 0),
    {
        self.errs.len() == 0
    }
}

impl<T> Errors<T> {
    /// Settles a function's outcome against the errors stashed while it ran.
    ///
    /// The errors of `res` are recorded after those already held. The outcome
    /// is `Ok` with the value of `res` when `res` has one and no error is held
    /// at all; otherwise it is `Err` with every error, in order.
    pub fn add_result<O, E>(self, res: Result<O, E>) -> (r: Result<O, Errors<T>>)
        where Result<O, E>: StashErrors<T, O = O>,
        ensures
            ({
                let all = self@ + res.stashed_errors();
                match res.stashed_value() {
                    Some(v) if all.len() == 0 => r == Result::<O, Errors<T>>::Ok(v),
                    _ => r is Err && r->Err_0@ == all,
                }
            }),
    {
        let mut stash = self;
        let v = res.stash_errs(&mut stash);
        match v {
            Some(val) if stash.errs.len() == 0 => Ok(val),
            _ => Err(stash),
        }
    }

    /// An iterator over the errors held, in order.
    pub fn iter(&self) -> (r: std::slice::Iter<'_, T>)
        ensures
            r.remaining() == self@.as_ref(),
    {
        self.errs.as_slice().iter()
    }
}

impl<T> IntoIterator for Errors<T> {
    type Item = T;
    type IntoIter = std::vec::IntoIter<T>;

    /// An iterator that hands out the errors held, in order.
    fn into_iter(self) -> (r: std::vec::IntoIter<T>)
        ensures
            r.remaining() == self@,
    {
        broadcast use vstd::std_specs::vec::axiom_spec_into_iter;
        self.errs.into_iter()
    }
}

impl<'a, T> IntoIterator for &'a Errors<T> {
    type Item = &'a T;
    type IntoIter = std::slice::Iter<'a, T>;

    /// An iterator over the errors held, in order.
    fn into_iter(self) -> (r: std::slice::Iter<'a, T>)
        ensures
            r.remaining() == self@.as_ref(),
    {
        self.errs.as_slice().iter()
    }
}

/// A collection that holds just the one error `e`.
pub fn err<T>(e: T) -> (r: Errors<T>)
    ensures
        r@ == seq![e],
{
    let mut errs = Vec::new();
    errs.push(e);
    Errors { errs }
}

impl<T> Default for Errors<T> {
    fn default() -> (r: Self)
        ensures
            r@ == Seq::<T>::empty(),
    {
        Self::new()
    }
}

impl<T> From<T> for Errors<T> {
    /// The collection that holds just `value`.
    fn from(value: T) -> (r: Self)
        ensures
            r@ == seq![value],
    {
        err(value)
    }
}

impl<T> FromSpecImpl<T> for Errors<T> {
    open spec fn obeys_from_spec() -> bool {
        false
    }

    open spec fn from_spec(v: T) -> Self {
        choose|r: Self| r@ == seq![v]
    }
}

impl<T> From<Vec<T>> for Errors<T> {
    /// The collection that holds the errors of `value`, in order.
    fn from(value: Vec<T>) -> (r: Self)
        ensures
            r@ == value@,
    {
        Errors { errs: value }
    }
}

impl<T> FromSpecImpl<Vec<T>> for Errors<T> {
    open spec fn obeys_from_spec() -> bool {
        false
    }

    open spec fn from_spec(v: Vec<T>) -> Self {
        choose|r: Self| r@ == v@
    }
}

} // verus!
