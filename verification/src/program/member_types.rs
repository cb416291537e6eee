use vstd::prelude::*;

verus! {

/// The member of a device that an expression reads.
#[derive(Debug, Clone, Copy, PartialEq, Eq, Structural)]
pub enum MemberType {
    Power,
    Name,
}

} // verus!
