//! Amortizing loans: the fixed periodic payment, the split of each payment
//! into interest and principal, and the projected schedule of a loan.
//!
//! Money is held as whole micro-units (millionths of the currency unit) in
//! `i64`; an annual percentage rate is held in ten-thousandths of a percent
//! (`60_000` is 6%). All arithmetic is exact integer arithmetic; interest for a
//! period is rounded down to a whole micro-unit.

pub mod calendar;
pub mod error;
pub mod amortize;
pub mod loan;
pub mod schedule;
