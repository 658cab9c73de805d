use vstd::prelude::*;

use crate::amortize::{
    balance_after, interest_for_period, interest_wide, interest_of, is_fixed_payment, lemma_balance_nonneg,
    lemma_interest_monotone, lemma_interest_nonneg, lemma_stalled_stays, principal_of,
};
use crate::calendar::{first_of_month_after, first_of_next_month, CalendarDate};
use crate::error::LoanError;
use crate::loan::Loan;

verus! {

/// One projected period: the date it is reported under, its interest and
/// principal, and the balance left after it.
#[derive(Clone, Copy, Debug, PartialEq, Eq, Structural)]
pub struct PeriodResult {
    pub date: CalendarDate,
    pub interest: i64,
    pub principal: i64,
    pub balance: i64,
}

/// A projected amortization schedule.
#[derive(Debug)]
pub struct Schedule {
    /// One entry per period, in order, up to and including the period that
    /// clears the balance.
    pub rows: Vec<PeriodResult>,
    /// How many periods of the term are left unused when the balance is
    /// cleared early (zero when it is cleared in the last one); `None` when the
    /// term runs out first.
    pub periods_saved: Option<i32>,
}

/// The loan's balance after `k` periods of its fixed payment.
pub open spec fn balance_at(loan: &Loan, k: nat) -> int {
    balance_after(loan.balance as int, loan.payment as int, loan.apr as int, k)
}

/// The `j`-th projected period (from zero): reported on the first of the
/// month `j + 1` months after the start date.
pub open spec fn row_at(loan: &Loan, j: nat) -> PeriodResult {
    let b = balance_at(loan, j);
    PeriodResult {
        date: first_of_month_after(loan.start_time, j + 1int),
        interest: interest_of(b, loan.apr as int) as i64,
        principal: principal_of(b, loan.payment as int, loan.apr as int) as i64,
        balance: balance_at(loan, j + 1) as i64,
    }
}

/// In period `j` (from zero) the fixed payment does not exceed the interest.
pub open spec fn stalls_at(loan: &Loan, j: nat) -> bool {
    loan.payment - interest_of(balance_at(loan, j), loan.apr as int) <= 0
}

/// How many periods are projected when the first `k` have left a balance.
pub open spec fn projected_len_from(loan: &Loan, k: nat) -> nat
    decreases loan.periods - k,
{
    if k >= loan.periods {
        k
    } else if balance_at(loan, k + 1) <= 0 {
        k + 1
    } else {
        projected_len_from(loan, k + 1)
    }
}

/// How many periods are projected: up to the first that clears the balance,
/// or the whole term.
pub open spec fn projected_len(loan: &Loan) -> nat {
    projected_len_from(loan, 0)
}

/// `r` is the projection of `loan`: the periods up to the first that clears
/// the balance, or the whole term; `DegenerateAmortization` where one of them
/// stalls.
pub open spec fn is_projection(loan: &Loan, r: Result<Schedule, LoanError>) -> bool {
    let len = projected_len(loan);
    match r {
        Ok(s) => {
            &&& forall|j: nat| j < len ==> !#[trigger] stalls_at(loan, j)
            &&& s.rows@ == Seq::new(len, |j: int| row_at(loan, j as nat))
            &&& s.periods_saved == if len > 0 && balance_at(loan, len) <= 0 {
                Some((loan.periods - len) as i32)
            } else {
                None
            }
        },
        Err(e) => {
            &&& e == LoanError::DegenerateAmortization
            &&& exists|j: nat| j < len && #[trigger] stalls_at(loan, j)
        },
    }
}

/// The last projected month still has a year that fits in `i32`.
pub open spec fn dates_fit(loan: &Loan) -> bool {
    loan.start_time.month_index() + loan.periods <= i32::MAX * 12 + 11
}

/// What a projection of `loan` needs: a balance of zero or more, a valid
/// start date, a month's interest that fits in `i64`, and dates whose year
/// fits in `i32`.
pub open spec fn projectable(loan: &Loan) -> bool {
    &&& loan.balance >= 0
    &&& loan.start_time.well_formed()
    &&& interest_of(loan.balance as int, loan.apr as int) <= i64::MAX
    &&& dates_fit(loan)
}

/// Whether `loan` can be projected.
pub fn can_project(loan: &Loan) -> (r: bool)
    ensures
        r == projectable(loan),
{
    let d = loan.start_time;
    let last_month: i64 = d.year as i64 * 12 + d.month as i64 - 1 + loan.periods as i64;
    loan.balance >= 0 && 1 <= d.month && d.month <= 12 && 1 <= d.day && d.day <= 31
        && interest_wide(loan.balance, loan.apr) <= i64::MAX as i128 && last_month <= i32::MAX as i64
        * 12 + 11
}

proof fn lemma_projected_len(loan: &Loan, k: nat)
    ensures
        k >= loan.periods ==> projected_len_from(loan, k) == k,
        k < loan.periods ==> k + 1 <= projected_len_from(loan, k) <= loan.periods,
        k < loan.periods ==> projected_len_from(loan, k) == loan.periods || balance_at(
            loan,
            projected_len_from(loan, k),
        ) <= 0,
        forall|m: nat| k < m < projected_len_from(loan, k) ==> balance_at(loan, m) > 0,
    decreases loan.periods - k,
{
    if k < loan.periods && balance_at(loan, k + 1) > 0 {
        lemma_projected_len(loan, k + 1);
    }
}

proof fn lemma_month_step(start: CalendarDate, k: int)
    requires
        start.well_formed(),
        0 <= k,
        start.month_index() + k + 1 <= i32::MAX * 12 + 11,
    ensures
        first_of_month_after(start, k).well_formed(),
        first_of_month_after(start, k).month < 12 || first_of_month_after(start, k).year < i32::MAX,
        first_of_month_after(first_of_month_after(start, k), 1) == first_of_month_after(start, k + 1),
{
    let idx = start.month_index() + k;
    assert(idx / 12 * 12 + idx % 12 == idx);
}

/// Projects the loan's schedule from its current balance: each period pays
/// the month's interest and, from the rest of the fixed payment, principal up
/// to the balance still owed. The projection stops at the first period that
/// clears the balance, or at the end of the term, and reports
/// `DegenerateAmortization` at a period whose interest is not below the
/// fixed payment.
pub fn project_schedule(loan: &Loan) -> (r: Result<Schedule, LoanError>)
    requires
        projectable(loan),
    ensures
        is_projection(loan, r),
{
    let ghost len = projected_len(loan);
    let start = CalendarDate { year: loan.start_time.year, month: loan.start_time.month, day: 1 };
    proof {
        let idx = loan.start_time.month_index();
        assert(idx / 12 == loan.start_time.year);
        assert(start == first_of_month_after(loan.start_time, 0));
    }
    let mut date = start;
    let mut rows: Vec<PeriodResult> = Vec::new();
    let mut balance: i64 = loan.balance;
    let mut k: i32 = 0;
    while k < loan.periods
        invariant
            0 <= k,
            loan.periods > 0 ==> k <= loan.periods,
            loan.periods <= 0 ==> k == 0,
            loan.balance >= 0,
            loan.start_time.well_formed(),
            interest_of(loan.balance as int, loan.apr as int) <= i64::MAX,
            dates_fit(loan),
            len == projected_len(loan),
            balance == balance_at(loan, k as nat),
            0 <= balance <= loan.balance,
            k > 0 ==> balance > 0,
            date == first_of_month_after(loan.start_time, k as int),
            projected_len(loan) == projected_len_from(loan, k as nat),
            forall|j: nat| j < k ==> !#[trigger] stalls_at(loan, j),
            rows@ == Seq::new(k as nat, |j: int| row_at(loan, j as nat)),
        decreases loan.periods - k,
    {
        proof {
            lemma_interest_monotone(balance as int, loan.balance as int, loan.apr as int);
            lemma_interest_nonneg(balance as int, loan.apr as int);
            lemma_projected_len(loan, k as nat);
        }
        let interest = interest_for_period(balance, loan.apr);
        let rest: i128 = loan.payment as i128 - interest as i128;
        if rest <= 0 {
            assert(stalls_at(loan, k as nat));
            return Err(LoanError::DegenerateAmortization);
        }
        let principal: i64 = if rest < balance as i128 {
            rest as i64
        } else {
            balance
        };
        balance = balance - principal;
        proof {
            lemma_month_step(loan.start_time, k as int);
        }
        date = first_of_next_month(date);
        let row = PeriodResult { date, interest, principal, balance };
        assert(row == row_at(loan, k as nat));
        rows.push(row);
        k = k + 1;
        assert(rows@ =~= Seq::new(k as nat, |j: int| row_at(loan, j as nat)));
        if balance == 0 {
            return Ok(Schedule { rows, periods_saved: Some(loan.periods - k) });
        }
    }
    proof {
        lemma_projected_len(loan, k as nat);
    }
    Ok(Schedule { rows, periods_saved: None })
}

/// The sum of the principal parts of `rows`.
pub open spec fn total_principal(rows: Seq<PeriodResult>) -> int
    decreases rows.len(),
{
    if rows.len() == 0 {
        0
    } else {
        total_principal(rows.drop_last()) + rows.last().principal
    }
}

/// Projecting the same loan twice gives the same result: a projection is a
/// function of the loan alone.
pub proof fn lemma_projection_deterministic(
    loan: &Loan,
    r1: Result<Schedule, LoanError>,
    r2: Result<Schedule, LoanError>,
)
    requires
        is_projection(loan, r1),
        is_projection(loan, r2),
    ensures
        r1 is Ok <==> r2 is Ok,
        r1 is Ok ==> r1->Ok_0.rows@ == r2->Ok_0.rows@,
        r1 is Ok ==> r1->Ok_0.periods_saved == r2->Ok_0.periods_saved,
        r1 is Err ==> r1->Err_0 == r2->Err_0,
{
    let len = projected_len(loan);
    if r1 is Ok && r2 is Err {
        let j = choose|j: nat| j < len && #[trigger] stalls_at(loan, j);
        assert(!stalls_at(loan, j));
    }
    if r2 is Ok && r1 is Err {
        let j = choose|j: nat| j < len && #[trigger] stalls_at(loan, j);
        assert(!stalls_at(loan, j));
    }
}

/// Without interest, no projected period charges any.
pub proof fn lemma_interest_free_schedule(loan: &Loan, s: Schedule)
    requires
        loan.apr == 0,
        is_projection(loan, Ok(s)),
    ensures
        forall|j: int| 0 <= j < s.rows@.len() ==> (#[trigger] s.rows@[j]).interest == 0,
{
    assert forall|j: int| 0 <= j < s.rows@.len() implies (#[trigger] s.rows@[j]).interest == 0 by {
        let b = balance_at(loan, j as nat);
        assert(b * 0 == 0);
        assert(s.rows@[j] == row_at(loan, j as nat));
    }
}

/// While no period stalls, the balance stays between zero and where it
/// started.
proof fn lemma_balance_within(loan: &Loan, k: nat)
    requires
        loan.balance >= 0,
        forall|j: nat| j < k ==> !#[trigger] stalls_at(loan, j),
    ensures
        0 <= balance_at(loan, k) <= loan.balance,
    decreases k,
{
    lemma_balance_nonneg(loan.balance as int, loan.payment as int, loan.apr as int, k);
    if k > 0 {
        let k1 = (k - 1) as nat;
        assert(!stalls_at(loan, k1));
        lemma_balance_within(loan, k1);
    }
}

/// A loan that still carries the fixed payment of its whole principal
/// projects to a schedule that clears it: the last balance is zero and the
/// principal parts add up to the principal.
pub proof fn lemma_schedule_repays_principal(loan: &Loan, r: Result<Schedule, LoanError>)
    requires
        loan.balance > 0,
        loan.periods > 0,
        is_fixed_payment(loan.balance as int, loan.periods as int, loan.apr as int, loan.payment as int),
        is_projection(loan, r),
    ensures
        r is Ok,
        r->Ok_0.rows@.len() > 0,
        r->Ok_0.rows@.last().balance == 0,
        total_principal(r->Ok_0.rows@) == loan.balance,
{
    let p = loan.balance as int;
    let x = loan.payment as int;
    let a = loan.apr as int;
    let len = projected_len(loan);
    lemma_projected_len(loan, 0);
    if r is Err {
        let j = choose|j: nat| j < len && #[trigger] stalls_at(loan, j);
        lemma_interest_nonneg(balance_at(loan, j), a);
        assert(balance_at(loan, j) > 0);
        lemma_stalled_stays(p, x, a, j, loan.periods as nat);
        assert(false);
    }
    let rows = r->Ok_0.rows@;
    lemma_balance_nonneg(p, x, a, len);
    assert(balance_at(loan, len) == 0);
    assert(rows.last() == row_at(loan, (len - 1) as nat));
    assert forall|k: nat| k <= len implies total_principal(rows.take(k as int)) == p - balance_at(loan, k) by {
        lemma_prefix_principal(loan, rows, len, k);
    }
    assert(rows.take(len as int) =~= rows);
}

proof fn lemma_prefix_principal(loan: &Loan, rows: Seq<PeriodResult>, len: nat, k: nat)
    requires
        loan.balance >= 0,
        k <= len,
        rows == Seq::new(len, |j: int| row_at(loan, j as nat)),
        forall|j: nat| j < len ==> !#[trigger] stalls_at(loan, j),
    ensures
        total_principal(rows.take(k as int)) == loan.balance - balance_at(loan, k),
    decreases k,
{
    if k > 0 {
        let k1 = (k - 1) as nat;
        lemma_prefix_principal(loan, rows, len, k1);
        lemma_balance_within(loan, k1);
        assert(rows.take(k as int).drop_last() =~= rows.take(k1 as int));
        assert(!stalls_at(loan, k1));
    } else {
        assert(rows.take(0) =~= Seq::<PeriodResult>::empty());
    }
}

} // verus!
