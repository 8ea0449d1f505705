//! The syntax-tree types of `syn` that the models carry through.
//!
//! Each of them is opaque here: the library never looks inside one, it only
//! moves it from the place where it was read to the place where it is
//! written back.

use vstd::prelude::*;

verus! {

/// An expression tree (`syn::Expr`).
#[verifier::external_type_specification]
#[verifier::external_body]
pub struct OpaqueExpr(syn::Expr);

/// A literal expression tree (`syn::ExprLit`).
#[verifier::external_type_specification]
#[verifier::external_body]
pub struct OpaqueExprLit(syn::ExprLit);

/// A string literal (`syn::LitStr`).
#[verifier::external_type_specification]
#[verifier::external_body]
pub struct OpaqueLitStr(syn::LitStr);

/// A type tree (`syn::Type`).
#[verifier::external_type_specification]
#[verifier::external_body]
pub struct OpaqueType(syn::Type);

/// An attribute (`syn::Attribute`).
#[verifier::external_type_specification]
#[verifier::external_body]
pub struct OpaqueAttribute(syn::Attribute);

/// A path (`syn::Path`).
#[verifier::external_type_specification]
#[verifier::external_body]
pub struct OpaquePath(syn::Path);

/// An identifier (`proc_macro2::Ident`, which `syn` re-exports).
#[verifier::external_type_specification]
#[verifier::external_body]
pub struct OpaqueIdent(proc_macro2::Ident);

/// A parse error of `syn` (`syn::Error`), with its message and location.
#[verifier::external_type_specification]
#[verifier::external_body]
pub struct OpaqueError(syn::Error);

} // verus!
