use vstd::prelude::*;

use crate::errors::Error;
use crate::program::function_types::FunctionType;
use crate::program::member_types::MemberType;
use crate::program::operations::{BinaryOperators, UnaryOperators};
use crate::program::units::Unit;

verus! {

/// An expression of the property language.
///
/// Numbers are fixed point: `1_000` stands for `1`.
#[derive(Debug, PartialEq)]
pub enum Expr {
    Number(i128),
    String(String),
    CurrentTime,
    Member { access_type: MemberType },
    Always { interval: Option<Box<Expr>>, not: bool, expr: Box<Expr> },
    Eventually { interval: Option<Box<Expr>>, not: bool, expr: Box<Expr> },
    BinaryOperations { lhs: Box<Expr>, rhs: Box<Expr>, operator: BinaryOperators },
    UnaryOperations { operand: Box<Expr>, operator: UnaryOperators },
    Function { aggregate_type: FunctionType, expr: Box<Expr>, bound: Option<Box<Expr>> },
    Interval { start: Box<Expr>, end: Box<Expr> },
    Unit { number: Box<Expr>, unit: Unit },
}

impl Clone for Expr {
    fn clone(&self) -> (r: Self)
        ensures
            r == *self,
    {
        self.copy_tree()
    }
}

/// The whole time units that a bound expression stands for: a fixed-point
/// number divided by `1_000`, rounded towards zero.
pub open spec fn spec_time_units(e: Expr) -> Result<i128, Error> {
    match e {
        Expr::Number(n) => match n.checked_div(1000) {
            Some(q) => Ok(q),
            None => Err(Error::ArithmeticOverflow),
        },
        _ => Err(Error::InvalidIntervalExpr),
    }
}

/// The pair of time units that an interval expression stands for.
pub open spec fn spec_bound(e: Expr) -> Result<(i128, i128), Error> {
    match e {
        Expr::Interval { start, end } => match (spec_time_units(*start), spec_time_units(*end)) {
            (Ok(a), Ok(b)) => Ok((a, b)),
            (Err(x), _) => Err(x),
            (_, Err(x)) => Err(x),
        },
        _ => Err(Error::InvalidCompileExpr),
    }
}

impl Expr {
    /// A copy of the expression, node by node.
    pub fn copy_tree(&self) -> (r: Expr)
        ensures
            r == *self,
        decreases self,
    {
        match self {
            Expr::Number(n) => Expr::Number(*n),
            Expr::String(s) => Expr::String(s.clone()),
            Expr::CurrentTime => Expr::CurrentTime,
            Expr::Member { access_type } => Expr::Member { access_type: *access_type },
            Expr::Always { interval, not, expr } => Expr::Always {
                interval: Self::copy_opt(interval),
                not: *not,
                expr: Box::new(expr.copy_tree()),
            },
            Expr::Eventually { interval, not, expr } => Expr::Eventually {
                interval: Self::copy_opt(interval),
                not: *not,
                expr: Box::new(expr.copy_tree()),
            },
            Expr::BinaryOperations { lhs, rhs, operator } => Expr::BinaryOperations {
                lhs: Box::new(lhs.copy_tree()),
                rhs: Box::new(rhs.copy_tree()),
                operator: *operator,
            },
            Expr::UnaryOperations { operand, operator } => Expr::UnaryOperations {
                operand: Box::new(operand.copy_tree()),
                operator: *operator,
            },
            Expr::Function { aggregate_type, expr, bound } => Expr::Function {
                aggregate_type: *aggregate_type,
                expr: Box::new(expr.copy_tree()),
                bound: Self::copy_opt(bound),
            },
            Expr::Interval { start, end } => Expr::Interval {
                start: Box::new(start.copy_tree()),
                end: Box::new(end.copy_tree()),
            },
            Expr::Unit { number, unit } => Expr::Unit {
                number: Box::new(number.copy_tree()),
                unit: *unit,
            },
        }
    }

    fn copy_opt(e: &Option<Box<Expr>>) -> (r: Option<Box<Expr>>)
        ensures
            r == *e,
        decreases e,
    {
        match e {
            Some(b) => Some(Box::new(b.copy_tree())),
            None => None,
        }
    }

    /// The time units of a bound of a time function.
    pub fn get_bound_time_function(&self) -> (r: Result<i128, Error>)
        ensures
            r == spec_time_units(*self),
    {
        match self {
            Expr::Number(n) => match n.checked_div(1000) {
                Some(q) => Ok(q),
                None => Err(Error::ArithmeticOverflow),
            },
            _ => Err(Error::InvalidIntervalExpr),
        }
    }

    /// The start and end, in time units, of an interval expression.
    pub fn get_bound(&self) -> (r: Result<(i128, i128), Error>)
        ensures
            r == spec_bound(*self),
    {
        match self {
            Expr::Interval { start, end } => {
                let a = start.get_bound_time_function()?;
                let b = end.get_bound_time_function()?;
                Ok((a, b))
            },
            _ => Err(Error::InvalidCompileExpr),
        }
    }
}

} // verus!
