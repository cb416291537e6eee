use vstd::prelude::*;

verus! {

/// The aggregate functions of the property language.
#[derive(Debug, Clone, Copy, PartialEq, Eq, Structural)]
pub enum FunctionType {
    Foreach,
    Sum,
    Avg,
    Count,
    Sumtime,
    Avgtime,
    Counttime,
}

} // verus!
