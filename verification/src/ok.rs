use vstd::prelude::*;

use crate::errors::Errors;

verus! {

/// Turning an optional value into a result with no errors attached, so that
/// `?` returns early on an absent value.
pub trait OptionOk<T>: Sized {
    /// The value carried when present.
    type O;

    /// The value carried, if any.
    spec fn present(self) -> Option<Self::O>;

    /// `Ok` with the value when there is one, else `Err` with no errors.
    fn ok(self) -> (r: Result<Self::O, Errors<T>>)
        ensures
            match self.present() {
                Some(o) => r == Result::<Self::O, Errors<T>>::Ok(o),
                None => r is Err && r->Err_0@ == Seq::<T>::empty(),
            },
    ;
}

impl<T, O> OptionOk<T> for Option<O> {
    type O = O;

    open spec fn present(self) -> Option<O> {
        self
    }

    fn ok(self) -> (r: Result<O, Errors<T>>) {
        match self {
            Some(o) => Result::Ok(o),
            None => Result::Err(Errors::new()),
        }
    }
}

/// An optional value carries exactly what it holds: its value when present,
/// nothing when absent.
pub proof fn law_option_present<T, O>(o: O)
    ensures
        <Option<O> as OptionOk<T>>::present(Some(o)) == Some(o),
        <Option<O> as OptionOk<T>>::present(None::<O>) == None::<O>,
{
}

} // verus!
