//! Verified core of the `classes!`, `props!` and `PropsDefault` macros.
//!
//! The macros themselves read Rust syntax and write Rust syntax; the
//! decisions they take in between are made here, over models of the syntax
//! that hold as plain values what those decisions read and carry the
//! remaining syntax trees through untouched.

pub mod classes;
pub mod props;
pub mod props_default;
pub mod syntax;
pub mod text;
