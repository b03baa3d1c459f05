//! Type inference: the process of walking through the code and determining the type of
//! each expression and pattern.
//!
//! The entry point is [`infer::infer`], which infers the types of all expressions of a
//! definition with a body. During inference, types can contain variables, which stand for
//! types that are not known yet; on the walk through the expressions, variables turn out to
//! be equal to each other, or to certain types. This is recorded in the union-find table of
//! the `ena` crate.
//!
//! What each step does is stated in its contract, over a mathematical value for all that is
//! known at that point ([`context::Model`]). What holds of inference as a whole is stated in
//! [`laws`], what holds of operations on types in [`type_laws`], and what holds of single steps
//! in [`step_laws`]. When the types recorded for a body are right is said in [`typing`], and
//! that they are is stated in [`typing_laws`].

#![allow(unused_imports)]

pub mod defs;
pub mod error;
pub mod name;
pub mod primitive;
pub mod ty;

pub mod table;
pub mod unify;
pub mod resolve;
pub mod fresh;

pub mod body;
pub mod db;
pub mod maps;
pub mod diagnostics;
pub mod context;

pub mod path;
pub mod pat;
pub mod call;
pub mod rules;
pub mod expr;
pub mod infer_expr;
pub mod result;
pub mod infer;

pub mod records;
pub mod pat_records;
pub mod expr_records;
pub mod solution;
pub mod kinds;
pub mod settled;
pub mod agreement;
pub mod meaning;
pub mod typing;
pub mod typing_steps;
pub mod leaf_typing;
pub mod pat_typing;
pub mod expr_typing;
pub mod upkeep;
pub mod pat_upkeep;
pub mod expr_upkeep;
pub mod laws;
pub mod type_laws;
pub mod step_laws;
pub mod typing_laws;
