# dxc_macros

The decisions behind three macros of a component library, verified with
Verus:

- `classes!(...)`: a list of class-name expressions becomes a block that
  builds one space-separated class string (`src/classes.rs`).
- `props!(Name { field: Type, ... }, derive(...))`: a struct whose fields are
  all `Option`s, with a fixed set of derives plus the extra ones asked for
  (`src/props.rs`).
- `#[derive(PropsDefault)]`: a getter per `Option<T>` field that falls back
  on a default, set with `#[props_default(value = ...)]` or skipped with
  `#[props_default(skip)]` (`src/props_default.rs`).

`src/` works on models of the Rust syntax the macros read: what the
decisions look at is held as plain values (strings, flags, lists), and the
syntax trees that only pass through are carried as opaque `syn` values
(`src/syntax.rs`). `src/text.rs` holds string comparison and the decimal
reading and writing of integers.

`app/` holds the entry points over `proc_macro2::TokenStream`: they read the
invocation with `syn`, build the models, call the library, and write its
results back with `quote`.
