//! End-to-end tests of the loan lifecycle: creation, funding, interest,
//! repayment, cancellation and escrow withdrawal.

use p2p_lending::contract::P2PLendingContract;
use p2p_lending::types::{Collateral, Error, Loan, LoanStatus, SeizeCondition, TransferAction};

const CUSTODY: u64 = 999;
const BORROWER: u64 = 1;
const LENDER: u64 = 2;
const LOAN_ASSET: u64 = 10;
const COLLATERAL_ASSET: u64 = 11;

fn plain_loan(status: LoanStatus, borrower: Option<u64>, lender: Option<u64>) -> Loan {
    Loan {
        borrower,
        lender,
        collateral: None,
        status,
        loan_asset: LOAN_ASSET,
        loan_amount: 1000,
        daily_interest_rate: 500,
        max_loan_term: 10,
        timestamp: 0,
    }
}

fn default_collateral() -> Collateral {
    Collateral {
        asset_contract: COLLATERAL_ASSET,
        amount: 25,
        seize_conditions: vec![SeizeCondition::LoanDefault],
    }
}

#[test]
fn create_then_get_returns_input() {
    let mut p = P2PLendingContract::new(CUSTODY);
    let mut loan = plain_loan(LoanStatus::WaitingForLender, Some(BORROWER), None);
    loan.collateral = Some(default_collateral());
    let tr = p.new_loan(7, loan, &vec![BORROWER]).unwrap();
    assert_eq!(
        tr,
        vec![TransferAction { token: COLLATERAL_ASSET, from: BORROWER, to: CUSTODY, amount: 25 }]
    );
    let got = p.get_loan(7).unwrap();
    assert_eq!(got.borrower, Some(BORROWER));
    assert_eq!(got.lender, None);
    assert!(matches!(got.status, LoanStatus::WaitingForLender));
    assert_eq!(got.loan_asset, LOAN_ASSET);
    assert_eq!(got.loan_amount, 1000);
    assert_eq!(got.daily_interest_rate, 500);
    assert_eq!(got.max_loan_term, 10);
    assert_eq!(got.timestamp, 0);
    let col = got.collateral.unwrap();
    assert_eq!(col.asset_contract, COLLATERAL_ASSET);
    assert_eq!(col.amount, 25);
    assert_eq!(col.seize_conditions.len(), 1);
    assert_eq!(p.get_loans(BORROWER), vec![7]);
}

#[test]
fn empty_condition_set_is_invalid_collateral() {
    let mut p = P2PLendingContract::new(CUSTODY);
    let mut loan = plain_loan(LoanStatus::WaitingForLender, Some(BORROWER), None);
    loan.collateral = Some(Collateral {
        asset_contract: COLLATERAL_ASSET,
        amount: 25,
        seize_conditions: vec![],
    });
    assert_eq!(p.new_loan(7, loan, &vec![BORROWER]), Err(Error::InvalidCollateral));
    assert!(p.get_loan(7).is_err());
}

#[test]
fn duplicate_key_rejected() {
    let mut p = P2PLendingContract::new(CUSTODY);
    let loan = plain_loan(LoanStatus::WaitingForLender, Some(BORROWER), None);
    p.new_loan(1, loan, &vec![BORROWER]).unwrap();
    let again = plain_loan(LoanStatus::WaitingForLender, Some(BORROWER), None);
    assert_eq!(p.new_loan(1, again, &vec![BORROWER]), Err(Error::LoanAlreadyExist));
}

#[test]
fn creation_error_kinds() {
    let mut p = P2PLendingContract::new(CUSTODY);
    let no_borrower = plain_loan(LoanStatus::WaitingForLender, None, None);
    assert_eq!(p.new_loan(1, no_borrower, &vec![BORROWER]), Err(Error::InvalidBorrower));
    let no_lender = plain_loan(LoanStatus::WaitingForBorrower, None, None);
    assert_eq!(p.new_loan(1, no_lender, &vec![LENDER]), Err(Error::InvalidLender));
    let unauthorized = plain_loan(LoanStatus::WaitingForLender, Some(BORROWER), None);
    assert_eq!(p.new_loan(1, unauthorized, &vec![LENDER]), Err(Error::NotAuthorized));
    let active = plain_loan(LoanStatus::InProgress, Some(BORROWER), Some(LENDER));
    assert_eq!(p.new_loan(1, active, &vec![BORROWER, LENDER]), Err(Error::LoanInProgress));
}

#[test]
fn scenario_lend_interest_repay() {
    // loan_key 1, amount 1000, rate 500 (5%), no collateral,
    // created waiting-for-lender by the borrower
    let mut p = P2PLendingContract::new(CUSTODY);
    let loan = plain_loan(LoanStatus::WaitingForLender, Some(BORROWER), None);
    let tr = p.new_loan(1, loan, &vec![BORROWER]).unwrap();
    assert!(tr.is_empty());

    let t0: u64 = 5_000_000;
    let tr = p.lend(1, LENDER, t0, &vec![LENDER]).unwrap();
    assert_eq!(
        tr,
        vec![TransferAction { token: LOAN_ASSET, from: LENDER, to: BORROWER, amount: 1000 }]
    );
    let stored = p.get_loan(1).unwrap();
    assert!(matches!(stored.status, LoanStatus::InProgress));
    assert_eq!(stored.lender, Some(LENDER));
    assert_eq!(stored.timestamp, t0);
    assert_eq!(p.get_loans(LENDER), vec![1]);

    // two full days later the loan is in its third day
    let now = t0 + 2 * 86400;
    assert_eq!(p.get_interest(1, now), Ok(150));

    let tr = p.repay(1, BORROWER, now, &vec![BORROWER]).unwrap();
    assert_eq!(
        tr,
        vec![TransferAction { token: LOAN_ASSET, from: BORROWER, to: CUSTODY, amount: 1150 }]
    );
    assert_eq!(p.get_loan(1).unwrap_err(), Error::LoanNotExist);
    assert!(p.get_loans(BORROWER).is_empty());
    assert!(p.get_loans(LENDER).is_empty());
    let balances = p.get_balances(LENDER);
    assert_eq!(balances.get(&LOAN_ASSET), Some(&1150));
}

#[test]
fn interest_is_zero_before_funding() {
    let mut p = P2PLendingContract::new(CUSTODY);
    let loan = plain_loan(LoanStatus::WaitingForLender, Some(BORROWER), None);
    p.new_loan(1, loan, &vec![BORROWER]).unwrap();
    assert_eq!(p.get_interest(1, 123456), Ok(0));
    assert_eq!(p.get_interest(2, 123456), Err(Error::LoanNotExist));
}

#[test]
fn interest_at_funding_instant_counts_one_day() {
    let mut p = P2PLendingContract::new(CUSTODY);
    let loan = plain_loan(LoanStatus::WaitingForLender, Some(BORROWER), None);
    p.new_loan(1, loan, &vec![BORROWER]).unwrap();
    let t0: u64 = 777;
    p.lend(1, LENDER, t0, &vec![LENDER]).unwrap();
    // 1000 * 1 * 500 / 10000 == 50
    assert_eq!(p.get_interest(1, t0), Ok(50));
}

#[test]
fn repay_needs_in_progress_and_leaves_record() {
    let mut p = P2PLendingContract::new(CUSTODY);
    let loan = plain_loan(LoanStatus::WaitingForLender, Some(BORROWER), None);
    p.new_loan(1, loan, &vec![BORROWER]).unwrap();
    assert_eq!(p.repay(1, BORROWER, 100, &vec![BORROWER]), Err(Error::LoanNotInProgress));
    let still = p.get_loan(1).unwrap();
    assert!(matches!(still.status, LoanStatus::WaitingForLender));
    assert_eq!(still.loan_amount, 1000);
    assert_eq!(p.get_loans(BORROWER), vec![1]);
}

#[test]
fn repay_returns_collateral_to_borrower_escrow() {
    let mut p = P2PLendingContract::new(CUSTODY);
    let mut loan = plain_loan(LoanStatus::WaitingForLender, Some(BORROWER), None);
    loan.collateral = Some(default_collateral());
    p.new_loan(1, loan, &vec![BORROWER]).unwrap();
    p.lend(1, LENDER, 0, &vec![LENDER]).unwrap();
    p.repay(1, BORROWER, 0, &vec![BORROWER]).unwrap();
    assert_eq!(p.get_balances(LENDER).get(&LOAN_ASSET), Some(&1050));
    assert_eq!(p.get_balances(BORROWER).get(&COLLATERAL_ASSET), Some(&25));
    assert_eq!(p.get_loan(1).unwrap_err(), Error::LoanNotExist);
}

#[test]
fn lend_error_kinds() {
    let mut p = P2PLendingContract::new(CUSTODY);
    assert_eq!(p.lend(9, LENDER, 0, &vec![LENDER]), Err(Error::LoanNotExist));
    let mut reserved = plain_loan(LoanStatus::WaitingForLender, Some(BORROWER), None);
    reserved.lender = Some(42);
    p.new_loan(1, reserved, &vec![BORROWER]).unwrap();
    assert_eq!(p.lend(1, LENDER, 0, &vec![LENDER]), Err(Error::InvalidLender));
    // self-lending is forbidden
    let own = plain_loan(LoanStatus::WaitingForLender, Some(BORROWER), None);
    p.new_loan(2, own, &vec![BORROWER]).unwrap();
    assert_eq!(p.lend(2, BORROWER, 0, &vec![BORROWER]), Err(Error::LendingError));
    // wrong state
    let waiting_b = plain_loan(LoanStatus::WaitingForBorrower, None, Some(LENDER));
    p.new_loan(3, waiting_b, &vec![LENDER]).unwrap();
    assert_eq!(p.lend(3, LENDER, 0, &vec![LENDER]), Err(Error::LendingError));
    assert_eq!(p.lend(2, LENDER, 0, &vec![BORROWER]), Err(Error::NotAuthorized));
}

#[test]
fn borrow_funds_and_pulls_collateral() {
    let mut p = P2PLendingContract::new(CUSTODY);
    let mut loan = plain_loan(LoanStatus::WaitingForBorrower, None, Some(LENDER));
    loan.collateral = Some(default_collateral());
    let tr = p.new_loan(1, loan, &vec![LENDER]).unwrap();
    assert_eq!(
        tr,
        vec![TransferAction { token: LOAN_ASSET, from: LENDER, to: CUSTODY, amount: 1000 }]
    );
    let t0: u64 = 400;
    let tr = p.borrow(1, BORROWER, t0, &vec![BORROWER]).unwrap();
    assert_eq!(
        tr,
        vec![
            TransferAction { token: LOAN_ASSET, from: CUSTODY, to: BORROWER, amount: 1000 },
            TransferAction { token: COLLATERAL_ASSET, from: BORROWER, to: CUSTODY, amount: 25 },
        ]
    );
    let stored = p.get_loan(1).unwrap();
    assert!(matches!(stored.status, LoanStatus::InProgress));
    assert_eq!(stored.borrower, Some(BORROWER));
    assert_eq!(stored.timestamp, t0);
    assert_eq!(p.get_loans(BORROWER), vec![1]);
    // self-dealing on the borrow side
    let other = plain_loan(LoanStatus::WaitingForBorrower, None, Some(LENDER));
    p.new_loan(2, other, &vec![LENDER]).unwrap();
    assert_eq!(p.borrow(2, LENDER, 0, &vec![LENDER]), Err(Error::BorrowingError));
    // reserved borrower must match
    let mut reserved = plain_loan(LoanStatus::WaitingForBorrower, Some(42), Some(LENDER));
    reserved.borrower = Some(42);
    p.new_loan(3, reserved, &vec![LENDER]).unwrap();
    assert_eq!(p.borrow(3, BORROWER, 0, &vec![BORROWER]), Err(Error::InvalidBorrower));
}

#[test]
fn cancel_refunds_opening_party() {
    let mut p = P2PLendingContract::new(CUSTODY);
    let mut loan = plain_loan(LoanStatus::WaitingForLender, Some(BORROWER), None);
    loan.collateral = Some(default_collateral());
    p.new_loan(1, loan, &vec![BORROWER]).unwrap();
    let tr = p.cancel_loan(1, &vec![BORROWER]).unwrap();
    assert_eq!(
        tr,
        vec![TransferAction { token: COLLATERAL_ASSET, from: CUSTODY, to: BORROWER, amount: 25 }]
    );
    assert_eq!(p.get_loan(1).unwrap_err(), Error::LoanNotExist);
    assert!(p.get_loans(BORROWER).is_empty());

    let waiting_b = plain_loan(LoanStatus::WaitingForBorrower, None, Some(LENDER));
    p.new_loan(2, waiting_b, &vec![LENDER]).unwrap();
    let tr = p.cancel_loan(2, &vec![LENDER]).unwrap();
    assert_eq!(
        tr,
        vec![TransferAction { token: LOAN_ASSET, from: CUSTODY, to: LENDER, amount: 1000 }]
    );

    // an in-progress loan cannot be canceled
    let active = plain_loan(LoanStatus::WaitingForLender, Some(BORROWER), None);
    p.new_loan(3, active, &vec![BORROWER]).unwrap();
    p.lend(3, LENDER, 0, &vec![LENDER]).unwrap();
    assert_eq!(p.cancel_loan(3, &vec![BORROWER, LENDER]), Err(Error::LoanInProgress));
    assert_eq!(p.cancel_loan(9, &vec![BORROWER]), Err(Error::LoanNotExist));
}

#[test]
fn withdraw_all_or_nothing() {
    let mut p = P2PLendingContract::new(CUSTODY);
    // nothing recorded: refused, and no transfer happens
    assert_eq!(p.withdraw(LENDER, LOAN_ASSET), Err(Error::NotAuthorized));

    let loan = plain_loan(LoanStatus::WaitingForLender, Some(BORROWER), None);
    p.new_loan(1, loan, &vec![BORROWER]).unwrap();
    p.lend(1, LENDER, 0, &vec![LENDER]).unwrap();
    p.repay(1, BORROWER, 0, &vec![BORROWER]).unwrap();
    // 1000 principal + 1000*1*500/10000 interest
    let t = p.withdraw(LENDER, LOAN_ASSET).unwrap();
    assert_eq!(t, TransferAction { token: LOAN_ASSET, from: CUSTODY, to: LENDER, amount: 1050 });
    assert!(p.get_balances(LENDER).get(&LOAN_ASSET).is_none());
    assert_eq!(p.withdraw(LENDER, LOAN_ASSET), Err(Error::NotAuthorized));
}

#[test]
fn get_loans_is_idempotent() {
    let mut p = P2PLendingContract::new(CUSTODY);
    let loan = plain_loan(LoanStatus::WaitingForLender, Some(BORROWER), None);
    p.new_loan(1, loan, &vec![BORROWER]).unwrap();
    let second = plain_loan(LoanStatus::WaitingForLender, Some(BORROWER), None);
    p.new_loan(2, second, &vec![BORROWER]).unwrap();
    let first_read = p.get_loans(BORROWER);
    let second_read = p.get_loans(BORROWER);
    assert_eq!(first_read, second_read);
    assert_eq!(first_read, vec![2, 1]);
    assert!(p.get_loans(77).is_empty());
}

#[test]
fn guards_report_machine_limits() {
    let mut p = P2PLendingContract::new(CUSTODY);
    let loan = plain_loan(LoanStatus::WaitingForLender, Some(BORROWER), None);
    p.new_loan(1, loan, &vec![BORROWER]).unwrap();
    p.lend(1, LENDER, 0, &vec![LENDER]).unwrap();
    let now = 2 * 86400;
    assert!(p.repay_fits(1, BORROWER, now, &vec![BORROWER]));
    assert!(p.seize_fits(1, now));

    // a principal at the type's maximum overflows the interest product
    let mut q = P2PLendingContract::new(CUSTODY);
    let mut huge = plain_loan(LoanStatus::WaitingForLender, Some(BORROWER), None);
    huge.loan_amount = i128::MAX;
    q.new_loan(1, huge, &vec![BORROWER]).unwrap();
    q.lend(1, LENDER, 0, &vec![LENDER]).unwrap();
    assert!(!q.repay_fits(1, BORROWER, now, &vec![BORROWER]));
    // the guard holds vacuously where repay would fail anyway
    assert!(q.repay_fits(2, BORROWER, now, &vec![BORROWER]));
}
