use vstd::prelude::*;

verus! {

/// The error kinds of this crate. Each one reports a violated algebraic
/// precondition; none is a transient failure, and none is recovered from
/// internally.
#[derive(Clone, Copy, Debug, PartialEq, Eq)]
pub enum EccError {
    /// A field element was constructed with a residue outside the permitted
    /// bound relative to the modulus, or with a modulus of zero.
    RangeViolation,
    /// A finite point was constructed with coordinates that do not satisfy
    /// the curve equation.
    CurveMembershipViolation,
    /// Operands that cannot be combined: field elements with different
    /// moduli handed to a point constructor. (Operator preconditions rule
    /// the same mix out of verified arithmetic before it can run.)
    IncompatibleOperands,
}

} // verus!
