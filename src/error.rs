use vstd::prelude::*;

verus! {

/// The recoverable conditions that the library reports to its caller.
#[derive(Clone, Copy, Debug, PartialEq, Eq, Structural)]
pub enum LoanError {
    /// A term of zero or fewer periods was given for a loan.
    InvalidTerm,
    /// A regular payment below the loan's fixed payment; nothing was applied.
    InsufficientPayment { expected: i64, got: i64 },
    /// During projection the fixed payment did not exceed the interest of a
    /// period, so the balance would never shrink.
    DegenerateAmortization,
    /// No loan of the requested name is on record.
    LoanNotFound,
}

} // verus!
