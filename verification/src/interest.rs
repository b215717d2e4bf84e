//! The interest calculator: a pure function of elapsed time, principal and
//! daily rate, truncating at each division.

use vstd::prelude::*;
use crate::types::{LoanStatus, LoanV};

verus! {

pub const SECONDS_PER_DAY: u64 = 86400;

pub const INTEREST_RATE_SCALE: u32 = 10000;

/// Integer division truncating toward zero, as the host's machine
/// arithmetic performs it.
pub open spec fn trunc_div(a: int, b: int) -> int
    recommends
        b != 0,
{
    if a >= 0 {
        a / b
    } else {
        -((-a) / b)
    }
}

/// Days elapsed since `timestamp` as the protocol counts them: the first
/// day begins immediately, so zero elapsed seconds is already day one.
pub open spec fn spec_elapsed_days(now: u64, timestamp: u64) -> int {
    (now - timestamp) / (SECONDS_PER_DAY as int) + 1
}

/// What a loan has accrued at time `now`: zero unless in progress,
/// otherwise `loan_amount * elapsed_days * daily_interest_rate / 10000`
/// with truncating division.
pub open spec fn spec_interest(loan: LoanV, now: u64) -> int {
    if loan.status != LoanStatus::InProgress {
        0
    } else {
        trunc_div(
            loan.loan_amount * spec_elapsed_days(now, loan.timestamp) * loan.daily_interest_rate,
            INTEREST_RATE_SCALE as int,
        )
    }
}

/// The machine limits under which the interest of a loan record can be
/// computed in 128-bit arithmetic: the clock has not run backwards past the
/// loan's start, and neither partial product overflows.
pub open spec fn interest_in_range(loan: LoanV, now: u64) -> bool {
    loan.status == LoanStatus::InProgress ==> {
        let days = spec_elapsed_days(now, loan.timestamp);
        &&& now >= loan.timestamp
        &&& i128::MIN <= loan.loan_amount * days <= i128::MAX
        &&& i128::MIN <= loan.loan_amount * days * loan.daily_interest_rate <= i128::MAX
    }
}

/// Divides by the rate scale, truncating toward zero.
fn div_rate_scale(p: i128) -> (q: i128)
    ensures
        q == trunc_div(p as int, INTEREST_RATE_SCALE as int),
{
    if p >= 0 {
        p / 10000
    } else {
        let m: u128 = if p == i128::MIN {
            170141183460469231731687303715884105728u128
        } else {
            (-p) as u128
        };
        let q = m / 10000;
        -(q as i128)
    }
}

/// Days elapsed since `timestamp`, counting the first day from the start.
pub fn elapsed_days(now: u64, timestamp: u64) -> (d: u64)
    requires
        now >= timestamp,
    ensures
        d == spec_elapsed_days(now, timestamp),
        0 < d <= u64::MAX / SECONDS_PER_DAY + 1,
{
    (now - timestamp) / SECONDS_PER_DAY + 1
}

/// Tests `interest_in_range` at run time, so an embedding can check the
/// machine limits before asking for a loan's interest.
pub fn interest_fits(loan: &crate::types::Loan, now: u64) -> (b: bool)
    ensures
        b == interest_in_range(loan@, now),
{
    match loan.status {
        LoanStatus::InProgress => {
            if now < loan.timestamp {
                return false;
            }
            let days = elapsed_days(now, loan.timestamp);
            match loan.loan_amount.checked_mul(days as i128) {
                None => false,
                Some(scaled) => scaled.checked_mul(loan.daily_interest_rate as i128).is_some(),
            }
        },
        _ => true,
    }
}

/// Interest accrued by `loan` at time `now`; see `spec_interest`.
pub fn calculate_interest(loan: &crate::types::Loan, now: u64) -> (r: i128)
    requires
        interest_in_range(loan@, now),
    ensures
        r == spec_interest(loan@, now),
{
    match loan.status {
        LoanStatus::InProgress => {
            let days = elapsed_days(now, loan.timestamp);
            let scaled = loan.loan_amount * (days as i128);
            let product = scaled * (loan.daily_interest_rate as i128);
            div_rate_scale(product)
        },
        _ => 0,
    }
}

} // verus!
