use amortization::amortize::{compute_fixed_payment, interest_for_period, terms_in_range};
use amortization::calendar::{first_of_next_month, CalendarDate};
use amortization::error::LoanError;
use amortization::loan::Loan;
use amortization::schedule::{can_project, project_schedule};

const UNIT: i64 = 1_000_000;
const CENT: i64 = 10_000;

fn date(year: i32, month: u8, day: u8) -> CalendarDate {
    CalendarDate { year, month, day }
}

fn loan(principal: i64, periods: i32, apr: u32) -> Loan {
    Loan::new("test".to_string(), principal, periods, apr, date(2020, 3, 15)).unwrap()
}

fn as_money(v: i64) -> f64 {
    v as f64 / UNIT as f64
}

#[test]
fn fixed_payment_is_positive() {
    for &(p, n, apr) in &[(1i64, 1i32, 0u32), (1, 360, 0), (5 * UNIT, 7, 12_345), (250_000 * UNIT, 360, 52_500)] {
        assert!(compute_fixed_payment(p, n, apr).unwrap() > 0);
    }
}

#[test]
fn interest_free_payment_is_principal_over_periods() {
    assert_eq!(compute_fixed_payment(12_000 * UNIT, 12, 0), Ok(1_000 * UNIT));
    assert_eq!(compute_fixed_payment(36 * UNIT, 36, 0), Ok(UNIT));
}

#[test]
fn interest_free_payment_rounds_up_when_uneven() {
    assert_eq!(compute_fixed_payment(10, 3, 0), Ok(4));
}

#[test]
fn invalid_term_is_rejected() {
    assert_eq!(compute_fixed_payment(1_000 * UNIT, 0, 50_000), Err(LoanError::InvalidTerm));
    assert_eq!(compute_fixed_payment(1_000 * UNIT, -3, 50_000), Err(LoanError::InvalidTerm));
    assert!(matches!(
        Loan::new("x".to_string(), UNIT, 0, 0, date(2020, 1, 1)),
        Err(LoanError::InvalidTerm)
    ));
}

#[test]
fn zero_principal_needs_no_payment() {
    assert_eq!(compute_fixed_payment(0, 12, 60_000), Ok(0));
}

#[test]
fn interest_for_period_values() {
    assert_eq!(interest_for_period(10_000 * UNIT, 60_000), 50 * UNIT);
    assert_eq!(interest_for_period(1_000 * UNIT, 52_500), 4_375_000);
    assert_eq!(interest_for_period(0, 60_000), 0);
    assert_eq!(interest_for_period(-5 * UNIT, 60_000), 0);
    assert_eq!(interest_for_period(10_000 * UNIT, 0), 0);
    // 7 micro-units at 6%: 0.035 micro-units, rounded down
    assert_eq!(interest_for_period(7, 60_000), 0);
}

#[test]
fn annuity_payment_matches_closed_form() {
    // principal 10000, 36 months, 6% APR
    let payment = compute_fixed_payment(10_000 * UNIT, 36, 60_000).unwrap();
    let r: f64 = 0.005;
    let exact = 10_000.0 * r / (1.0 - (1.0 + r).powf(-36.0));
    assert!((as_money(payment) - exact).abs() < 0.001);
    assert!((as_money(payment) - 304.22).abs() < 0.005);
}

#[test]
fn interest_free_loan_one_payment() {
    let l = loan(12_000 * UNIT, 12, 0);
    assert_eq!(l.payment, 1_000 * UNIT);
    let (t, new_balance) = l.apply_payment(1_000 * UNIT, false, date(2020, 4, 1)).unwrap();
    assert_eq!(new_balance, 11_000 * UNIT);
    assert_eq!(t.interest, 0);
    assert_eq!(t.principal, 1_000 * UNIT);
    assert_eq!(t.name, "test");
    assert_eq!(t.date, date(2020, 4, 1));
}

#[test]
fn six_percent_first_period() {
    let l = loan(10_000 * UNIT, 36, 60_000);
    assert!((as_money(l.payment) - 304.22).abs() < 0.005);
    let s = project_schedule(&l).unwrap();
    let first = s.rows[0];
    assert_eq!(first.interest, 50 * UNIT);
    assert!((as_money(first.principal) - 254.22).abs() < 0.005);
    assert_eq!(first.balance, 10_000 * UNIT - first.principal);
    let (t, _) = l.apply_payment(l.payment, false, date(2020, 4, 1)).unwrap();
    assert_eq!(t.interest, 50 * UNIT);
    assert_eq!(t.principal, first.principal);
}

#[test]
fn principal_only_payment() {
    for &apr in &[0u32, 60_000, 199_900] {
        let l = Loan {
            id: 4,
            name: "home".to_string(),
            payment: 300 * UNIT,
            balance: 10_000 * UNIT,
            periods: 36,
            apr,
            start_time: date(2021, 1, 1),
            time_created: 0,
        };
        let (t, new_balance) = l.apply_payment(500 * UNIT, true, date(2021, 2, 1)).unwrap();
        assert_eq!(t.interest, 0);
        assert_eq!(t.principal, 500 * UNIT);
        assert_eq!(new_balance, 9_500 * UNIT);
    }
}

#[test]
fn principal_only_payment_skips_minimum() {
    let l = loan(12_000 * UNIT, 12, 0);
    let (t, new_balance) = l.apply_payment(CENT, true, date(2020, 4, 1)).unwrap();
    assert_eq!(t.principal, CENT);
    assert_eq!(new_balance, 12_000 * UNIT - CENT);
}

#[test]
fn exact_payment_succeeds_and_one_cent_less_fails() {
    let l = loan(10_000 * UNIT, 36, 60_000);
    assert!(l.apply_payment(l.payment, false, date(2020, 4, 1)).is_ok());
    match l.apply_payment(l.payment - CENT, false, date(2020, 4, 1)) {
        Err(LoanError::InsufficientPayment { expected, got }) => {
            assert_eq!(expected, l.payment);
            assert_eq!(got, l.payment - CENT);
        }
        _ => panic!("a payment below the fixed payment must fail"),
    }
}

#[test]
fn overpayment_is_not_clamped() {
    let mut l = loan(12_000 * UNIT, 12, 0);
    l.balance = 500 * UNIT;
    let (t, new_balance) = l.apply_payment(1_000 * UNIT, false, date(2020, 4, 1)).unwrap();
    assert_eq!(t.principal, 1_000 * UNIT);
    assert_eq!(new_balance, -500 * UNIT);
}

#[test]
fn early_payoff_clamps_last_period() {
    let mut l = loan(12_000 * UNIT, 12, 0);
    l.balance = 2_500 * UNIT;
    let s = project_schedule(&l).unwrap();
    assert_eq!(s.rows.len(), 3);
    assert_eq!(s.rows[0].principal, 1_000 * UNIT);
    assert_eq!(s.rows[1].principal, 1_000 * UNIT);
    assert_eq!(s.rows[2].principal, 500 * UNIT);
    assert_eq!(s.rows[2].balance, 0);
    assert_eq!(s.periods_saved, Some(9));
}

#[test]
fn full_schedule_repays_principal() {
    for &(p, n, apr) in &[(10_000 * UNIT, 36i32, 60_000u32), (250_000 * UNIT, 360, 52_500), (12_000 * UNIT, 12, 0)] {
        let l = loan(p, n, apr);
        let s = project_schedule(&l).unwrap();
        let total: i64 = s.rows.iter().map(|r| r.principal).sum();
        assert_eq!(total, p);
        assert_eq!(s.rows.last().unwrap().balance, 0);
        assert!(s.rows.len() <= n as usize);
        let total_f: f64 = s.rows.iter().map(|r| as_money(r.principal)).sum();
        assert!((total_f - as_money(p)).abs() < 1e-6);
    }
}

#[test]
fn full_term_schedule_saves_no_periods() {
    let l = loan(12_000 * UNIT, 12, 0);
    let s = project_schedule(&l).unwrap();
    assert_eq!(s.rows.len(), 12);
    assert_eq!(s.periods_saved, Some(0));
}

#[test]
fn projection_is_repeatable() {
    let l = loan(10_000 * UNIT, 36, 60_000);
    let a = project_schedule(&l).unwrap();
    let b = project_schedule(&l).unwrap();
    assert_eq!(a.rows, b.rows);
    assert_eq!(a.periods_saved, b.periods_saved);
}

#[test]
fn interest_free_schedule_charges_no_interest() {
    let l = loan(1_000 * UNIT, 7, 0);
    let s = project_schedule(&l).unwrap();
    assert!(s.rows.iter().all(|r| r.interest == 0));
}

#[test]
fn payment_below_interest_is_degenerate() {
    let mut l = loan(10_000 * UNIT, 36, 60_000);
    l.payment = 50 * UNIT;
    assert_eq!(project_schedule(&l).unwrap_err(), LoanError::DegenerateAmortization);
}

#[test]
fn term_left_over_after_projection() {
    let mut l = loan(10_000 * UNIT, 36, 60_000);
    l.periods = 2;
    let s = project_schedule(&l).unwrap();
    assert_eq!(s.rows.len(), 2);
    assert_eq!(s.periods_saved, None);
}

#[test]
fn paid_off_loan_projects_one_empty_period() {
    let mut l = loan(12_000 * UNIT, 12, 0);
    l.balance = 0;
    let s = project_schedule(&l).unwrap();
    assert_eq!(s.rows.len(), 1);
    assert_eq!(s.rows[0].principal, 0);
    assert_eq!(s.periods_saved, Some(11));
}

#[test]
fn schedule_dates_roll_over_the_year() {
    let mut l = loan(12_000 * UNIT, 12, 0);
    l.start_time = date(2020, 11, 15);
    let s = project_schedule(&l).unwrap();
    assert_eq!(s.rows[0].date, date(2020, 12, 1));
    assert_eq!(s.rows[1].date, date(2021, 1, 1));
    assert_eq!(s.rows[11].date, date(2021, 11, 1));
}

#[test]
fn next_month_rolls_december_into_january() {
    assert_eq!(first_of_next_month(date(1999, 12, 31)), date(2000, 1, 1));
    assert_eq!(first_of_next_month(date(2000, 2, 29)), date(2000, 3, 1));
}

#[test]
fn new_loan_keeps_terms_and_stamps_creation_time() {
    let l = Loan::new("car".to_string(), 8_000 * UNIT, 48, 39_900, date(2022, 6, 1)).unwrap();
    assert_eq!(l.id, 0);
    assert_eq!(l.name, "car");
    assert_eq!(l.balance, 8_000 * UNIT);
    assert_eq!(l.periods, 48);
    assert_eq!(l.apr, 39_900);
    assert_eq!(l.start_time, date(2022, 6, 1));
    assert!(l.time_created > 1_500_000_000);
}

#[test]
fn range_checks() {
    assert!(terms_in_range(10_000 * UNIT, 60_000));
    assert!(!terms_in_range(-1, 60_000));
    assert!(!terms_in_range(i64::MAX, 60_000));
    assert!(terms_in_range(i64::MAX, 0));

    let l = loan(10_000 * UNIT, 36, 60_000);
    assert!(l.payment_in_range(l.payment, false));
    assert!(!l.payment_in_range(i64::MIN, false));
    assert!(can_project(&l));
    let mut bad = loan(10_000 * UNIT, 36, 60_000);
    bad.start_time.month = 13;
    assert!(!can_project(&bad));
    bad.start_time = CalendarDate { year: i32::MAX, month: 12, day: 1 };
    assert!(!can_project(&bad));
}

#[test]
fn calc_interest_payment_uses_current_balance() {
    let mut l = loan(10_000 * UNIT, 36, 60_000);
    assert_eq!(l.calc_interest_payment(), 50 * UNIT);
    l.balance = 5_000 * UNIT;
    assert_eq!(l.calc_interest_payment(), 25 * UNIT);
}
