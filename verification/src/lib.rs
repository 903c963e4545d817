//! Collecting many errors at once instead of stopping at the first one.
//!
//! [`Errors`] holds errors in the order they were recorded. Anything that
//! implements [`StashErrors`] can be put away into it, handing back a value
//! when there is one; [`IterStash`] and [`LazyErrIter`] do so for a whole run
//! of items.

pub mod errors;
pub mod expansion;
pub mod iter_stash;
pub mod lazy;
pub mod ok;
pub mod render;
pub mod stash;

pub use errors::{err, Errors};
pub use expansion::helper_fn_name;
pub use iter_stash::IterStash;
pub use lazy::{LazyErrIter, LazyErrs};
pub use ok::OptionOk;
pub use stash::StashErrors;
