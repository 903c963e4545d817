# manyerrors

A library for when many errors may occur at one time, but you don't want to
stop at the first one found.

- `src/` is the verified library: `Errors`, the `StashErrors` trait and its
  impls, `IterStash`, `LazyErrIter`, `OptionOk`, the layout used to show a
  collection of errors, and the name of the helper that `#[manyerrors]`
  generates. Its contracts and laws are checked by Verus.
- `app/` holds what stays ordinary Rust: a copy of `Errors` with `Display`,
  `Debug` and `std::error::Error`, and the expansions of the macros
  (`iter_stash!`, `stash!`, `stash_fn!`, `#[manyerrors]`) as functions on
  token streams built with `syn` and `quote`.
- `tests/` runs the library on concrete values.
