use vstd::prelude::*;

verus! {

/// The kind of record a failed lookup referred to.
#[derive(Clone, Copy, Debug, PartialEq, Eq, Structural)]
pub enum Entity {
    Series,
    Token,
}

/// Failures of the mutating entry points. Every hard failure leaves the
/// registry state exactly as it was before the call.
#[derive(Clone, Copy, Debug, PartialEq, Eq, Structural)]
pub enum SeriesError {
    /// The caller attached no prepayment at all; at least one unit is
    /// required before any work is attempted.
    DepositRequired,
    /// A referenced series or token does not exist.
    NotFound(Entity),
    /// The caller is not the owner of the series it tried to act on.
    Unauthorized,
    /// The attached prepayment does not cover the measured storage growth;
    /// `required` is the cost the operation would have charged.
    InsufficientDeposit { required: u128 },
}

} // verus!
