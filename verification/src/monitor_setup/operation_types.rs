use vstd::prelude::*;

use crate::program::member_types::MemberType;
use crate::program::operations::{BinaryOperators, UnaryOperators};

verus! {

/// One operation of a compiled property. A compiled property is a sequence
/// of them; the operation at index 0 is the root, and an operation refers to
/// its operands by their indices in the sequence.
#[derive(Debug, PartialEq)]
pub enum DerivedStream {
    Number(i128),
    String(String),
    Member(MemberType),
    SpawnTime,
    Size,
    Sum { idx: usize },
    Sumtime { interval_len: i128, idx: usize },
    Foreach { idx: usize },
    Binary { bin_op: BinaryOperators, idx_lhs: usize, idx_rhs: usize },
    Unary { un_op: UnaryOperators, idx: usize },
    Miitl { miitl_type: MIITLType, bound: (i128, i128), idx: usize },
}

impl Clone for DerivedStream {
    fn clone(&self) -> (r: Self)
        ensures
            r == *self,
    {
        match self {
            DerivedStream::Number(n) => DerivedStream::Number(*n),
            DerivedStream::String(s) => DerivedStream::String(s.clone()),
            DerivedStream::Member(m) => DerivedStream::Member(*m),
            DerivedStream::SpawnTime => DerivedStream::SpawnTime,
            DerivedStream::Size => DerivedStream::Size,
            DerivedStream::Sum { idx } => DerivedStream::Sum { idx: *idx },
            DerivedStream::Sumtime { interval_len, idx } => DerivedStream::Sumtime {
                interval_len: *interval_len,
                idx: *idx,
            },
            DerivedStream::Foreach { idx } => DerivedStream::Foreach { idx: *idx },
            DerivedStream::Binary { bin_op, idx_lhs, idx_rhs } => DerivedStream::Binary {
                bin_op: *bin_op,
                idx_lhs: *idx_lhs,
                idx_rhs: *idx_rhs,
            },
            DerivedStream::Unary { un_op, idx } => DerivedStream::Unary { un_op: *un_op, idx: *idx },
            DerivedStream::Miitl { miitl_type, bound, idx } => DerivedStream::Miitl {
                miitl_type: *miitl_type,
                bound: (bound.0, bound.1),
                idx: *idx,
            },
        }
    }
}

/// The two temporal operators over a bounded interval.
#[derive(Debug, PartialEq, Eq, Clone, Copy, Structural)]
pub enum MIITLType {
    Always,
    Eventually,
}

} // verus!
