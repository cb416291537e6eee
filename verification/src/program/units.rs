use vstd::prelude::*;

verus! {

/// The units that a number of the property language may carry.
#[derive(Debug, Clone, Copy, PartialEq, Eq, Structural)]
pub enum Unit {
    Seconds,
    Minutes,
    Hours,
    Watts,
    KiloWattHours,
}

} // verus!
