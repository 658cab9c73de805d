use vstd::prelude::*;

use crate::amortize::{
    compute_fixed_payment, interest_for_period, interest_of, interest_wide, is_fixed_payment, terms_fit,
};
use crate::calendar::CalendarDate;
use crate::error::LoanError;

verus! {

/// Relies on time::get_time: the wall-clock time now, whose `sec` field is
/// read as seconds since the Unix epoch. Nothing is promised of its value.
#[verifier::external_body]
fn current_unix_seconds() -> (r: i64) {
    time::get_time().sec
}

/// One amortizing loan. Money is in micro-units, `apr` in ten-thousandths of
/// a percent, `periods` counts monthly periods from origination.
#[derive(Debug)]
pub struct Loan {
    pub id: i32,
    pub name: String,
    /// The fixed monthly payment, set once at creation.
    pub payment: i64,
    /// The principal still owed.
    pub balance: i64,
    pub periods: i32,
    pub apr: u32,
    /// The date of the first scheduled payment.
    pub start_time: CalendarDate,
    /// When the record was made, in seconds since the Unix epoch.
    pub time_created: i64,
}

/// One payment on a loan, split into principal and interest.
#[derive(Debug)]
pub struct Transaction {
    pub id: i32,
    /// The loan that the payment applies to.
    pub name: String,
    pub principal: i64,
    pub interest: i64,
    pub date: CalendarDate,
    /// When the record was made, in seconds since the Unix epoch.
    pub time_created: i64,
}

/// The interest part of a payment of `loan`: none for a principal-only
/// payment, else one month's interest on the balance.
pub open spec fn payment_interest(loan: &Loan, force_all_principal: bool) -> int {
    if force_all_principal {
        0
    } else {
        interest_of(loan.balance as int, loan.apr as int)
    }
}

/// What a payment of `amount` on `loan` needs to be computed in `i64`.
pub open spec fn payment_fits(loan: &Loan, amount: i64, force_all_principal: bool) -> bool {
    let principal = amount - payment_interest(loan, force_all_principal);
    &&& payment_interest(loan, force_all_principal) <= i64::MAX
    &&& i64::MIN <= principal
    &&& i64::MIN <= loan.balance - principal <= i64::MAX
}

impl Loan {
    /// The loan's terms hold together: a balance of zero or more, a term of at
    /// least one period and a valid start date.
    pub open spec fn well_formed(&self) -> bool {
        &&& self.balance >= 0
        &&& self.periods > 0
        &&& self.start_time.well_formed()
    }

    /// A new loan of `principal` over `periods` monthly periods at the annual
    /// rate `apr`, whose fixed payment is computed once here; `InvalidTerm`
    /// where `periods` is zero or less.
    pub fn new(name: String, principal: i64, periods: i32, apr: u32, start_time: CalendarDate) -> (r: Result<Loan, LoanError>)
        requires
            terms_fit(principal as int, apr as int),
        ensures
            periods <= 0 <==> r is Err,
            r is Err ==> r->Err_0 == LoanError::InvalidTerm,
            r is Ok && start_time.well_formed() ==> r->Ok_0.well_formed(),
            r is Ok ==> ({
                let loan = r->Ok_0;
                &&& loan.id == 0
                &&& loan.name@ == name@
                &&& loan.balance == principal
                &&& loan.periods == periods
                &&& loan.apr == apr
                &&& loan.start_time == start_time
                &&& is_fixed_payment(principal as int, periods as int, apr as int, loan.payment as int)
            }),
    {
        match compute_fixed_payment(principal, periods, apr) {
            Ok(payment) => Ok(
                Loan {
                    id: 0,
                    name,
                    payment,
                    balance: principal,
                    periods,
                    apr,
                    start_time,
                    time_created: current_unix_seconds(),
                },
            ),
            Err(e) => Err(e),
        }
    }

    /// Whether a payment of `amount` on this loan can be computed in `i64`.
    pub fn payment_in_range(&self, amount: i64, force_all_principal: bool) -> (r: bool)
        ensures
            r == payment_fits(self, amount, force_all_principal),
    {
        let interest: i128 = if force_all_principal {
            0
        } else {
            interest_wide(self.balance, self.apr)
        };
        let principal: i128 = amount as i128 - interest;
        let left: i128 = self.balance as i128 - principal;
        interest <= i64::MAX as i128 && i64::MIN as i128 <= principal && i64::MIN as i128 <= left && left
            <= i64::MAX as i128
    }

    /// One month's interest on the current balance.
    pub fn calc_interest_payment(&self) -> (r: i64)
        requires
            interest_of(self.balance as int, self.apr as int) <= i64::MAX,
        ensures
            r == interest_of(self.balance as int, self.apr as int),
    {
        interest_for_period(self.balance, self.apr)
    }

    /// Applies a payment of `amount` made on `date`. A principal-only payment
    /// (`force_all_principal`) goes wholly to principal. Any other payment must
    /// be at least the fixed payment, else `InsufficientPayment` and nothing
    /// is applied; it pays the month's interest and the rest goes to principal.
    /// Returns the transaction and the new balance, which is not clamped at
    /// zero.
    pub fn apply_payment(&self, amount: i64, force_all_principal: bool, date: CalendarDate) -> (r: Result<(Transaction, i64), LoanError>)
        requires
            payment_fits(self, amount, force_all_principal),
        ensures
            r is Err <==> !force_all_principal && amount < self.payment,
            r is Err ==> r->Err_0 == (LoanError::InsufficientPayment { expected: self.payment, got: amount }),
            r is Ok ==> ({
                let (t, new_balance) = r->Ok_0;
                &&& t.id == 0
                &&& t.name@ == self.name@
                &&& t.interest == payment_interest(self, force_all_principal)
                &&& t.principal == amount - payment_interest(self, force_all_principal)
                &&& t.principal + t.interest == amount
                &&& t.date == date
                &&& new_balance == self.balance - t.principal
            }),
    {
        let interest: i64 = if force_all_principal {
            0
        } else {
            if amount < self.payment {
                return Err(LoanError::InsufficientPayment { expected: self.payment, got: amount });
            }
            self.calc_interest_payment()
        };
        let principal: i64 = amount - interest;
        let transaction = Transaction {
            id: 0,
            name: self.name.clone(),
            principal,
            interest,
            date,
            time_created: current_unix_seconds(),
        };
        Ok((transaction, self.balance - principal))
    }
}

} // verus!
