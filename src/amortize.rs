use vstd::prelude::*;
use vstd::arithmetic::div_mod::lemma_div_is_ordered;
use vstd::arithmetic::mul::{lemma_mul_inequality, lemma_mul_nonnegative};

use crate::error::LoanError;

verus! {

/// Twelve months of a rate given in ten-thousandths of a percent: a balance
/// times the annual rate, divided by this, is one month's interest.
pub const MONTHLY_RATE_DIVISOR: i128 = 12_000_000;

/// The interest that one month adds to `balance` at the annual rate `apr`
/// (in ten-thousandths of a percent), rounded down; none on a balance that is
/// zero or less.
pub open spec fn interest_of(balance: int, apr: int) -> int {
    if balance <= 0 {
        0
    } else {
        balance * apr / 12_000_000
    }
}

/// The principal part of a period's fixed payment: what the payment leaves
/// after interest, but never more than the balance still owed.
pub open spec fn principal_of(balance: int, payment: int, apr: int) -> int {
    let rest = payment - interest_of(balance, apr);
    if rest < balance {
        rest
    } else {
        balance
    }
}

/// The balance after one period in which `payment` is paid.
pub open spec fn next_balance(balance: int, payment: int, apr: int) -> int {
    balance - principal_of(balance, payment, apr)
}

/// The balance after `k` periods of the fixed payment `payment`, starting
/// from `principal`.
pub open spec fn balance_after(principal: int, payment: int, apr: int, k: nat) -> int
    decreases k,
{
    if k == 0 {
        principal
    } else {
        next_balance(balance_after(principal, payment, apr, (k - 1) as nat), payment, apr)
    }
}

/// Paying `payment` each period clears `principal` within `periods` periods.
pub open spec fn pays_off(principal: int, payment: int, apr: int, periods: int) -> bool {
    balance_after(principal, payment, apr, periods as nat) <= 0
}

/// `payment` is the fixed payment of the loan: the least payment, in whole
/// micro-units, that clears `principal` within `periods` periods.
pub open spec fn is_fixed_payment(principal: int, periods: int, apr: int, payment: int) -> bool {
    &&& payment >= 0
    &&& pays_off(principal, payment, apr, periods)
    &&& forall|y: int| 0 <= y < payment ==> !#[trigger] pays_off(principal, y, apr, periods)
}

pub proof fn lemma_interest_nonneg(balance: int, apr: int)
    requires
        apr >= 0,
    ensures
        interest_of(balance, apr) >= 0,
{
    if balance > 0 {
        lemma_mul_nonnegative(balance, apr);
    }
}

pub proof fn lemma_interest_monotone(b1: int, b2: int, apr: int)
    requires
        b1 <= b2,
        apr >= 0,
    ensures
        interest_of(b1, apr) <= interest_of(b2, apr),
{
    lemma_interest_nonneg(b1, apr);
    lemma_interest_nonneg(b2, apr);
    if b1 > 0 {
        lemma_mul_inequality(b1, b2, apr);
        lemma_div_is_ordered(b1 * apr, b2 * apr, 12_000_000);
    }
}

pub proof fn lemma_next_balance_monotone(b1: int, b2: int, payment: int, apr: int)
    requires
        0 <= b1 <= b2,
        apr >= 0,
    ensures
        next_balance(b1, payment, apr) <= next_balance(b2, payment, apr),
{
    lemma_interest_monotone(b1, b2, apr);
}

pub proof fn lemma_balance_nonneg(principal: int, payment: int, apr: int, k: nat)
    requires
        principal >= 0,
    ensures
        balance_after(principal, payment, apr, k) >= 0,
    decreases k,
{
    if k > 0 {
        lemma_balance_nonneg(principal, payment, apr, (k - 1) as nat);
    }
}

/// A larger fixed payment never leaves a larger balance.
pub proof fn lemma_balance_antitone_in_payment(principal: int, x1: int, x2: int, apr: int, k: nat)
    requires
        principal >= 0,
        x1 <= x2,
        apr >= 0,
    ensures
        balance_after(principal, x2, apr, k) <= balance_after(principal, x1, apr, k),
    decreases k,
{
    if k > 0 {
        let k1 = (k - 1) as nat;
        lemma_balance_antitone_in_payment(principal, x1, x2, apr, k1);
        lemma_balance_nonneg(principal, x1, apr, k1);
        lemma_balance_nonneg(principal, x2, apr, k1);
        let b1 = balance_after(principal, x1, apr, k1);
        let b2 = balance_after(principal, x2, apr, k1);
        lemma_next_balance_monotone(b2, b1, x2, apr);
    }
}

/// Once cleared, a balance stays cleared.
pub proof fn lemma_cleared_stays(principal: int, payment: int, apr: int, m: nat, k: nat)
    requires
        principal >= 0,
        payment >= 0,
        balance_after(principal, payment, apr, m) <= 0,
        m <= k,
    ensures
        balance_after(principal, payment, apr, k) == 0,
    decreases k - m,
{
    lemma_balance_nonneg(principal, payment, apr, k);
    if k > m {
        lemma_cleared_stays(principal, payment, apr, m, (k - 1) as nat);
    }
}

/// Once a period fails to lower a positive balance, no later period does:
/// the balance never falls below what it was then.
pub proof fn lemma_stalled_stays(principal: int, payment: int, apr: int, m: nat, k: nat)
    requires
        principal >= 0,
        apr >= 0,
        balance_after(principal, payment, apr, m + 1) >= balance_after(principal, payment, apr, m),
        m <= k,
    ensures
        balance_after(principal, payment, apr, k) >= balance_after(principal, payment, apr, m),
        balance_after(principal, payment, apr, k + 1) >= balance_after(principal, payment, apr, k),
    decreases k - m,
{
    if k > m {
        let k1 = (k - 1) as nat;
        lemma_stalled_stays(principal, payment, apr, m, k1);
        lemma_balance_nonneg(principal, payment, apr, k1);
        lemma_next_balance_monotone(
            balance_after(principal, payment, apr, k1),
            balance_after(principal, payment, apr, k),
            payment,
            apr,
        );
    }
}

/// One month's interest on `balance`, in a width where it always fits.
pub(crate) fn interest_wide(balance: i64, apr: u32) -> (r: i128)
    ensures
        r == interest_of(balance as int, apr as int),
        0 <= r <= 0x8000_0000_0000_0000_0000_0000,
{
    if balance <= 0 {
        0
    } else {
        assert(0 <= balance as int * apr as int <= 0x8000_0000_0000_0000_0000_0000) by (nonlinear_arith)
            requires
                0 < balance <= i64::MAX,
                0 <= apr <= u32::MAX,
        ;
        let product: i128 = balance as i128 * apr as i128;
        product / MONTHLY_RATE_DIVISOR
    }
}

/// One month's interest on `balance` at the annual rate `apr`, in
/// ten-thousandths of a percent, rounded down; zero for a balance of zero or
/// less.
pub fn interest_for_period(balance: i64, apr: u32) -> (r: i64)
    requires
        interest_of(balance as int, apr as int) <= i64::MAX,
    ensures
        r == interest_of(balance as int, apr as int),
{
    interest_wide(balance, apr) as i64
}

/// A loan of `principal` at `apr` can be set up in `i64`: the principal is
/// not negative and it fits together with one month's interest on it.
pub open spec fn terms_fit(principal: int, apr: int) -> bool {
    principal >= 0 && principal + interest_of(principal, apr) <= i64::MAX
}

/// Whether a loan of `principal` at `apr` can be set up in `i64`.
pub fn terms_in_range(principal: i64, apr: u32) -> (r: bool)
    ensures
        r == terms_fit(principal as int, apr as int),
{
    principal >= 0 && (principal as i128) + interest_wide(principal, apr) <= i64::MAX as i128
}

/// Whether paying `payment` each period clears `principal` within `periods`
/// periods.
fn clears_within(principal: i64, payment: i64, apr: u32, periods: i32) -> (r: bool)
    requires
        principal >= 0,
        payment >= 0,
        periods > 0,
        principal + interest_of(principal as int, apr as int) <= i64::MAX,
    ensures
        r == pays_off(principal as int, payment as int, apr as int, periods as int),
{
    let ghost p = principal as int;
    let ghost x = payment as int;
    let ghost a = apr as int;
    let mut balance: i64 = principal;
    let mut k: i32 = 0;
    while k < periods
        invariant
            0 <= k <= periods,
            0 <= balance <= principal,
            principal + interest_of(principal as int, apr as int) <= i64::MAX,
            payment >= 0,
            balance == balance_after(p, x, a, k as nat),
            p == principal as int,
            x == payment as int,
            a == apr as int,
        decreases periods - k,
    {
        if balance == 0 {
            proof {
                lemma_cleared_stays(p, x, a, k as nat, periods as nat);
            }
            return true;
        }
        proof {
            lemma_interest_monotone(balance as int, p, a);
            lemma_interest_nonneg(balance as int, a);
        }
        let interest = interest_for_period(balance, apr);
        let rest: i64 = payment - interest;
        let next: i64 = if rest < balance {
            balance - rest
        } else {
            balance - balance
        };
        assert(next == balance_after(p, x, a, (k + 1) as nat));
        if next >= balance {
            proof {
                lemma_stalled_stays(p, x, a, k as nat, periods as nat);
            }
            return false;
        }
        balance = next;
        k = k + 1;
    }
    balance == 0
}

/// The fixed periodic payment of a loan of `principal` over `periods` monthly
/// periods at the annual rate `apr` (in ten-thousandths of a percent): the
/// least payment, in whole micro-units, that clears the loan within its term.
/// This is the annuity payment `P * r / (1 - (1 + r)^-n)`, with `r` the monthly
/// rate, carried out in whole micro-units with each month's interest rounded
/// down. Without interest it is `principal / periods`, rounded up where the
/// division leaves a remainder.
pub fn compute_fixed_payment(principal: i64, periods: i32, apr: u32) -> (r: Result<i64, LoanError>)
    requires
        terms_fit(principal as int, apr as int),
    ensures
        periods <= 0 <==> r == Err::<i64, LoanError>(LoanError::InvalidTerm),
        periods > 0 ==> r is Ok,
        r is Ok ==> is_fixed_payment(principal as int, periods as int, apr as int, r->Ok_0 as int),
        r is Ok && principal > 0 ==> r->Ok_0 > 0,
{
    if periods <= 0 {
        return Err(LoanError::InvalidTerm);
    }
    let ghost p = principal as int;
    let ghost a = apr as int;
    let ghost n = periods as int;
    if principal == 0 {
        proof {
            lemma_cleared_stays(p, 0, a, 0, n as nat);
        }
        return Ok(0);
    }
    proof {
        lemma_interest_nonneg(p, a);
        assert(balance_after(p, 0, a, 1) >= balance_after(p, 0, a, 0));
        lemma_stalled_stays(p, 0, a, 0, n as nat);
        let hi = p + interest_of(p, a);
        assert(balance_after(p, hi, a, 0) == p);
        assert(balance_after(p, hi, a, 1) == 0);
        lemma_cleared_stays(p, hi, a, 1, n as nat);
    }
    let mut lo: i64 = 0;
    let mut hi: i64 = principal + interest_for_period(principal, apr);
    while hi - lo > 1
        invariant
            0 <= lo < hi <= principal + interest_of(p, a),
            principal > 0,
            periods > 0,
            principal + interest_of(principal as int, apr as int) <= i64::MAX,
            !pays_off(p, lo as int, a, n),
            pays_off(p, hi as int, a, n),
            p == principal as int,
            a == apr as int,
            n == periods as int,
        decreases hi - lo,
    {
        let mid: i64 = lo + (hi - lo) / 2;
        if clears_within(principal, mid, apr, periods) {
            hi = mid;
        } else {
            lo = mid;
        }
    }
    proof {
        assert forall|y: int| 0 <= y < hi implies !#[trigger] pays_off(p, y, a, n) by {
            if pays_off(p, y, a, n) {
                lemma_balance_antitone_in_payment(p, y, lo as int, a, n as nat);
            }
        }
    }
    Ok(hi)
}

/// Without interest, the balance after `k` periods is what `k` payments leave
/// of the principal, and never below zero.
pub proof fn lemma_interest_free_balance(principal: int, payment: int, k: nat)
    requires
        principal >= 0,
        payment >= 0,
    ensures
        balance_after(principal, payment, 0, k) == if principal - k * payment > 0 {
            principal - k * payment
        } else {
            0
        },
    decreases k,
{
    if k == 0 {
        assert(k * payment == 0);
    } else {
        let k1 = (k - 1) as nat;
        lemma_interest_free_balance(principal, payment, k1);
        let b = balance_after(principal, payment, 0, k1);
        assert(b * 0 == 0);
        assert(interest_of(b, 0) == 0);
        assert(k1 * payment + payment == k * payment) by (nonlinear_arith)
            requires
                k1 == k - 1,
        ;
        assert(k * payment >= k1 * payment) by (nonlinear_arith)
            requires
                k1 == k - 1,
                payment >= 0,
        ;
    }
}

/// The fixed payment of a loan with a positive principal is positive; without
/// interest it is the principal divided by the number of periods, exactly,
/// wherever that division leaves no remainder.
pub proof fn lemma_fixed_payment_positive(principal: int, periods: int, apr: int, payment: int)
    requires
        principal > 0,
        periods > 0,
        apr >= 0,
        is_fixed_payment(principal, periods, apr, payment),
    ensures
        payment > 0,
        apr == 0 && principal % periods == 0 ==> payment == principal / periods,
{
    if payment == 0 {
        lemma_interest_nonneg(principal, apr);
        assert(balance_after(principal, 0, apr, 0) == principal);
        lemma_stalled_stays(principal, 0, apr, 0, periods as nat);
    }
    if apr == 0 && principal % periods == 0 {
        let q = principal / periods;
        assert(periods * q == principal) by (nonlinear_arith)
            requires
                principal % periods == 0,
                q == principal / periods,
                periods > 0,
        ;
        assert(q >= 0) by (nonlinear_arith)
            requires
                q == principal / periods,
                principal > 0,
                periods > 0,
        ;
        lemma_interest_free_balance(principal, q, periods as nat);
        lemma_interest_free_balance(principal, payment, periods as nat);
        assert(pays_off(principal, q, apr, periods));
        if payment > q {
            assert(!pays_off(principal, q, apr, periods));
        }
        assert(periods * payment >= principal);
        assert(payment >= q) by (nonlinear_arith)
            requires
                periods * payment >= principal,
                periods * q == principal,
                periods > 0,
        ;
    }
}

} // verus!
