use vstd::prelude::*;

verus! {

/// The errors that the monitor reports.
#[derive(Debug, Clone, Copy, PartialEq, Eq, Structural)]
pub enum Error {
    /// A field of the program that monitoring needs was never computed.
    FieldNotPresent,
    /// A device stream was indexed outside of its recorded time points.
    OutOfBoundsIoTStream,
    /// A value of the wrong kind (a string where a number was expected).
    ValueStackVal,
    /// A stack element was a layer marker where an element was expected.
    WrongEnumType,
    /// A device member was read outside of any device aggregation.
    DevicePointer,
    /// An expression that cannot be compiled into a derived stream.
    InvalidCompileExpr,
    /// A time function without a usable interval.
    InvalidFunctionIntervalExpr,
    /// An interval bound that is not a plain number.
    InvalidIntervalExpr,
    /// The operands of an operation have kinds that the operation does not accept.
    TypeMismatch,
    /// A program that refers to a missing operation, or that is cyclic.
    MalformedProgram,
    /// An intermediate value left the range of `i128` (or `usize` for indices).
    ArithmeticOverflow,
}

} // verus!
