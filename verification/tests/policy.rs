//! Tests of the seizure policy engine: the default condition's day
//! threshold and the oracle price comparison, including stale and missing
//! price data.

use p2p_lending::contract::P2PLendingContract;
use p2p_lending::types::{
    Collateral, Error, Loan, LoanStatus, OracleAsset, OracleQuery, PriceEntry, SeizeCondition,
};

const CUSTODY: u64 = 999;
const BORROWER: u64 = 1;
const LENDER: u64 = 2;
const LOAN_ASSET: u64 = 10;
const COLLATERAL_ASSET: u64 = 11;
const ORACLE: u64 = 77;

fn funded_loan_with(conditions: Vec<SeizeCondition>, p: &mut P2PLendingContract, t0: u64) {
    let loan = Loan {
        borrower: Some(BORROWER),
        lender: None,
        collateral: Some(Collateral {
            asset_contract: COLLATERAL_ASSET,
            amount: 25,
            seize_conditions: conditions,
        }),
        status: LoanStatus::WaitingForLender,
        loan_asset: LOAN_ASSET,
        loan_amount: 1000,
        daily_interest_rate: 500,
        max_loan_term: 10,
        timestamp: 0,
    };
    p.new_loan(1, loan, &vec![BORROWER]).unwrap();
    p.lend(1, LENDER, t0, &vec![LENDER]).unwrap();
}

fn symbol_asset(sym: u64) -> OracleAsset {
    OracleAsset { oracle_contract: ORACLE, asset_contract: None, oracle_symbol: Some(sym) }
}

fn native_asset(contract: u64) -> OracleAsset {
    OracleAsset { oracle_contract: ORACLE, asset_contract: Some(contract), oracle_symbol: None }
}

fn price(query: OracleQuery, value: i128, timestamp: u64) -> PriceEntry {
    PriceEntry { oracle_contract: ORACLE, query, price: value, timestamp }
}

fn comparison(amount_a: i128, amount_b: i128, greater: bool) -> SeizeCondition {
    SeizeCondition::OraclePriceComparison {
        asset_a: symbol_asset(5),
        amount_a,
        asset_b: native_asset(4),
        amount_b,
        greater,
    }
}

#[test]
fn default_condition_threshold() {
    // max_loan_term is 10 days: seizable once now - timestamp reaches
    // 10 * 86400 seconds, and not a second earlier
    let t0: u64 = 1_000_000;
    let book = vec![];

    let mut p = P2PLendingContract::new(CUSTODY);
    funded_loan_with(vec![SeizeCondition::LoanDefault], &mut p, t0);
    assert_eq!(
        p.seize(1, t0 + 10 * 86400 - 1, &book, &vec![LENDER]),
        Err(Error::CollateralNotSeizable)
    );
    let tr = p.seize(1, t0 + 10 * 86400, &book, &vec![LENDER]).unwrap();
    assert!(tr.is_empty());
    assert_eq!(p.get_balances(LENDER).get(&COLLATERAL_ASSET), Some(&25));
    assert_eq!(p.get_loan(1).unwrap_err(), Error::LoanNotExist);
    assert!(p.get_loans(LENDER).is_empty());
    assert!(p.get_loans(BORROWER).is_empty());
}

#[test]
fn seize_error_kinds() {
    let mut p = P2PLendingContract::new(CUSTODY);
    let book = vec![];
    assert_eq!(p.seize(9, 0, &book, &vec![LENDER]), Err(Error::LoanNotExist));

    // waiting loans cannot be seized
    let waiting = Loan {
        borrower: Some(BORROWER),
        lender: None,
        collateral: Some(Collateral {
            asset_contract: COLLATERAL_ASSET,
            amount: 25,
            seize_conditions: vec![SeizeCondition::LoanDefault],
        }),
        status: LoanStatus::WaitingForLender,
        loan_asset: LOAN_ASSET,
        loan_amount: 1000,
        daily_interest_rate: 500,
        max_loan_term: 10,
        timestamp: 0,
    };
    p.new_loan(2, waiting, &vec![BORROWER]).unwrap();
    assert_eq!(p.seize(2, 0, &book, &vec![LENDER]), Err(Error::LoanNotInProgress));

    // a loan without collateral has nothing to seize
    let bare = Loan {
        borrower: Some(BORROWER),
        lender: None,
        collateral: None,
        status: LoanStatus::WaitingForLender,
        loan_asset: LOAN_ASSET,
        loan_amount: 1000,
        daily_interest_rate: 500,
        max_loan_term: 0,
        timestamp: 0,
    };
    p.new_loan(3, bare, &vec![BORROWER]).unwrap();
    p.lend(3, LENDER, 0, &vec![LENDER]).unwrap();
    assert_eq!(p.seize(3, 86400 * 50, &book, &vec![LENDER]), Err(Error::InvalidCollateral));

    // only the lender may trigger a seizure
    let mut q = P2PLendingContract::new(CUSTODY);
    funded_loan_with(vec![SeizeCondition::LoanDefault], &mut q, 0);
    assert_eq!(q.seize(1, 86400 * 50, &book, &vec![BORROWER]), Err(Error::NotAuthorized));
}

#[test]
fn price_ratio_greater_direction() {
    let now: u64 = 2_000_000;
    let fresh = vec![
        price(OracleQuery::Symbolic(5), 10, now),
        price(OracleQuery::Native(4), 4, now),
    ];
    // value_a / value_b == (10 * 2) / (4 * 1) == 5 > 0: seizable
    let mut p = P2PLendingContract::new(CUSTODY);
    funded_loan_with(vec![comparison(2, 1, true)], &mut p, now);
    p.seize(1, now, &fresh, &vec![LENDER]).unwrap();

    // value_a / value_b == (10 * 1) / (4 * 6) == 0 after truncation:
    // not greater
    let mut q = P2PLendingContract::new(CUSTODY);
    funded_loan_with(vec![comparison(1, 6, true)], &mut q, now);
    assert_eq!(q.seize(1, now, &fresh, &vec![LENDER]), Err(Error::CollateralNotSeizable));
}

#[test]
fn price_ratio_lower_direction_means_truncated_zero() {
    let now: u64 = 2_000_000;
    let fresh = vec![
        price(OracleQuery::Symbolic(5), 10, now),
        price(OracleQuery::Native(4), 4, now),
    ];
    // (10 * 1) / (4 * 6) truncates to zero: the "lower" direction holds
    let mut p = P2PLendingContract::new(CUSTODY);
    funded_loan_with(vec![comparison(1, 6, false)], &mut p, now);
    p.seize(1, now, &fresh, &vec![LENDER]).unwrap();

    // (10 * 2) / (4 * 1) == 5: the "lower" direction does not hold
    let mut q = P2PLendingContract::new(CUSTODY);
    funded_loan_with(vec![comparison(2, 1, false)], &mut q, now);
    assert_eq!(q.seize(1, now, &fresh, &vec![LENDER]), Err(Error::CollateralNotSeizable));
}

#[test]
fn zero_denominator_is_not_seizable() {
    let now: u64 = 2_000_000;
    let zero_price_b = vec![
        price(OracleQuery::Symbolic(5), 10, now),
        price(OracleQuery::Native(4), 0, now),
    ];
    let mut p = P2PLendingContract::new(CUSTODY);
    funded_loan_with(vec![comparison(2, 1, true)], &mut p, now);
    assert_eq!(p.seize(1, now, &zero_price_b, &vec![LENDER]), Err(Error::CollateralNotSeizable));

    let fresh = vec![
        price(OracleQuery::Symbolic(5), 10, now),
        price(OracleQuery::Native(4), 4, now),
    ];
    let mut q = P2PLendingContract::new(CUSTODY);
    funded_loan_with(vec![comparison(2, 0, true)], &mut q, now);
    assert_eq!(q.seize(1, now, &fresh, &vec![LENDER]), Err(Error::CollateralNotSeizable));
}

#[test]
fn stale_or_missing_price_aborts_seizure() {
    let now: u64 = 2_000_000;
    // a price older than 310 seconds is stale
    let stale = vec![
        price(OracleQuery::Symbolic(5), 10, now - 311),
        price(OracleQuery::Native(4), 4, now),
    ];
    let mut p = P2PLendingContract::new(CUSTODY);
    funded_loan_with(vec![comparison(2, 1, true)], &mut p, now);
    assert_eq!(p.seize(1, now, &stale, &vec![LENDER]), Err(Error::OracleError));
    // the record survives the failed attempt
    assert!(p.get_loan(1).is_ok());

    // exactly 310 seconds old is still fresh
    let boundary = vec![
        price(OracleQuery::Symbolic(5), 10, now - 310),
        price(OracleQuery::Native(4), 4, now),
    ];
    p.seize(1, now, &boundary, &vec![LENDER]).unwrap();

    // a missing entry is a hard failure too
    let missing = vec![price(OracleQuery::Symbolic(5), 10, now)];
    let mut q = P2PLendingContract::new(CUSTODY);
    funded_loan_with(vec![comparison(2, 1, true)], &mut q, now);
    assert_eq!(q.seize(1, now, &missing, &vec![LENDER]), Err(Error::OracleError));
}

#[test]
fn huge_ratio_still_compares_exactly() {
    let now: u64 = 2_000_000;
    // value_a / value_b == i128::MAX * i128::MAX, far outside the signed
    // 128-bit range: the ratio is computed exactly in 256-bit arithmetic,
    // so the "greater" direction holds and the "lower" direction fails
    let huge = vec![
        price(OracleQuery::Symbolic(5), i128::MAX, now),
        price(OracleQuery::Native(4), 1, now),
    ];
    let mut p = P2PLendingContract::new(CUSTODY);
    funded_loan_with(vec![comparison(i128::MAX, 1, true)], &mut p, now);
    p.seize(1, now, &huge, &vec![LENDER]).unwrap();
    let mut q = P2PLendingContract::new(CUSTODY);
    funded_loan_with(vec![comparison(i128::MAX, 1, false)], &mut q, now);
    assert_eq!(q.seize(1, now, &huge, &vec![LENDER]), Err(Error::CollateralNotSeizable));

    // a large negative ratio is neither "greater" nor zero
    let min_price = vec![
        price(OracleQuery::Symbolic(5), i128::MIN, now),
        price(OracleQuery::Native(4), 1, now),
    ];
    let mut r = P2PLendingContract::new(CUSTODY);
    funded_loan_with(vec![comparison(1, 1, false)], &mut r, now);
    assert_eq!(r.seize(1, now, &min_price, &vec![LENDER]), Err(Error::CollateralNotSeizable));
    let mut s = P2PLendingContract::new(CUSTODY);
    funded_loan_with(vec![comparison(1, 1, true)], &mut s, now);
    assert_eq!(s.seize(1, now, &min_price, &vec![LENDER]), Err(Error::CollateralNotSeizable));
}

#[test]
fn negative_interest_truncates_toward_zero() {
    // a waiting-for-borrower loan with a negative amount is representable;
    // its interest truncates toward zero, not toward minus infinity
    let mut p = P2PLendingContract::new(CUSTODY);
    let loan = Loan {
        borrower: None,
        lender: Some(LENDER),
        collateral: None,
        status: LoanStatus::WaitingForBorrower,
        loan_asset: LOAN_ASSET,
        loan_amount: -999,
        daily_interest_rate: 500,
        max_loan_term: 10,
        timestamp: 0,
    };
    p.new_loan(1, loan, &vec![LENDER]).unwrap();
    let t0: u64 = 50;
    p.borrow(1, BORROWER, t0, &vec![BORROWER]).unwrap();
    // -999 * 1 * 500 / 10000 == -49.95, truncated to -49
    assert_eq!(p.get_interest(1, t0), Ok(-49));
}

#[test]
fn any_true_condition_suffices() {
    let now: u64 = 2_000_000;
    let fresh = vec![
        price(OracleQuery::Symbolic(5), 10, now),
        price(OracleQuery::Native(4), 4, now),
    ];
    // the ratio condition fails but the default condition holds
    let mut p = P2PLendingContract::new(CUSTODY);
    funded_loan_with(vec![comparison(1, 6, true), SeizeCondition::LoanDefault], &mut p, now);
    // rewind far enough past the term: re-fund at an early timestamp
    let mut q = P2PLendingContract::new(CUSTODY);
    funded_loan_with(vec![comparison(1, 6, true), SeizeCondition::LoanDefault], &mut q, 0);
    let late = 11 * 86400;
    let fresh_late = vec![
        price(OracleQuery::Symbolic(5), 10, late),
        price(OracleQuery::Native(4), 4, late),
    ];
    q.seize(1, late, &fresh_late, &vec![LENDER]).unwrap();
    // while within the term neither condition holds
    assert_eq!(p.seize(1, now, &fresh, &vec![LENDER]), Err(Error::CollateralNotSeizable));
}
