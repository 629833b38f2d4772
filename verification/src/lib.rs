//! A locally nameless binding core for a term language: bound variables are
//! de Bruijn indices relative to their binder, opened variables are globally
//! unique identifiers, so alpha-equivalent binders are structurally equal and
//! substitution is capture-avoiding by construction.

pub mod binder;
pub mod fold;
pub mod fresh;
pub mod laws;
pub mod model;
pub mod vars;
