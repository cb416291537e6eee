use vstd::prelude::*;

verus! {

/// The binary operators of the property language.
#[derive(Debug, Clone, Copy, PartialEq, Eq, Structural)]
pub enum BinaryOperators {
    Equal,
    NotEqual,
    Less,
    Greater,
    LessEqual,
    GreaterEqual,
    Plus,
    Minus,
    Times,
    Divide,
    Mod,
    Or,
    And,
    Implies,
}

/// The unary operators of the property language.
#[derive(Debug, Clone, Copy, PartialEq, Eq, Structural)]
pub enum UnaryOperators {
    Not,
    Negative,
}

} // verus!
