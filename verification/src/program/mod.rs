//! The abstract syntax of properties, as the front end hands it over.
use vstd::prelude::*;

pub mod expressions;
pub mod function_types;
pub mod member_types;
pub mod operations;
pub mod units;

use crate::monitor::streams::OutputStream;
use crate::program::expressions::Expr;

verus! {

/// A property together with where it was written.
#[derive(Debug)]
pub struct SpanExpr {
    pub expr: Expr,
}

/// A monitoring program: the properties, their compiled streams and the
/// number of time points of device history that evaluation needs.
pub struct Program {
    pub expressions: Vec<SpanExpr>,
    pub environment: Option<Vec<OutputStream>>,
    pub iotstream_len: Option<usize>,
}

} // verus!
