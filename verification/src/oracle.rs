//! The seizure policy engine: evaluates a collateral's conditions against
//! the clock and a snapshot of oracle prices.
//!
//! A condition set is evaluated disjunctively and in order; a missing or
//! stale price is a hard failure that aborts the whole attempt rather than
//! counting as "not seizable".

use vstd::prelude::*;
use crate::interest::spec_elapsed_days;
use crate::types::{Collateral, Error, Loan, LoanV, OracleAsset, OracleQuery, PriceEntry, Address, SeizeCondition};
use crate::wide::{price_condition_holds, spec_price_condition};

verus! {

/// How old a reported price may be, in seconds, before it is stale:
/// five minutes of sampling plus ten seconds of slack.
pub const PRICE_MAX_AGE: u64 = 310;

/// The first price in the book that answers the given question at the
/// given oracle endpoint.
pub open spec fn spec_book_lookup(
    book: Seq<PriceEntry>,
    oracle: Address,
    q: OracleQuery,
) -> Option<PriceEntry>
    decreases book.len(),
{
    if book.len() == 0 {
        None
    } else if book[0].oracle_contract == oracle && book[0].query == q {
        Some(book[0])
    } else {
        spec_book_lookup(book.drop_first(), oracle, q)
    }
}

/// What querying the oracle for an asset yields: its last price, or a
/// hard failure when the book has no entry or the entry is more than
/// `PRICE_MAX_AGE` seconds older than `now`.
pub open spec fn spec_lastprice(book: Seq<PriceEntry>, asset: OracleAsset, now: u64) -> Result<
    i128,
    Error,
> {
    match spec_book_lookup(book, asset.oracle_contract, asset.spec_query()) {
        None => Err(Error::OracleError),
        Some(e) => if e.timestamp + PRICE_MAX_AGE < now {
            Err(Error::OracleError)
        } else {
            Ok(e.price)
        },
    }
}

/// Whether one seizure condition holds for `loan` at time `now`, or the
/// failure that aborts the evaluation.
pub open spec fn spec_check(
    cond: SeizeCondition,
    loan: LoanV,
    now: u64,
    book: Seq<PriceEntry>,
) -> Result<bool, Error> {
    match cond {
        SeizeCondition::LoanDefault => Ok(
            spec_elapsed_days(now, loan.timestamp) > loan.max_loan_term,
        ),
        SeizeCondition::OraclePriceComparison { asset_a, amount_a, asset_b, amount_b, greater } => {
            match spec_lastprice(book, asset_a, now) {
                Err(e) => Err(e),
                Ok(price_a) => match spec_lastprice(book, asset_b, now) {
                    Err(e) => Err(e),
                    Ok(price_b) => if price_b == 0 || amount_b == 0 {
                        Ok(false)
                    } else {
                        Ok(spec_price_condition(price_a, amount_a, price_b, amount_b, greater))
                    },
                },
            }
        },
    }
}

/// Whether any condition in the ordered set holds, evaluating all of them
/// in order; the first failure wins over every result.
pub open spec fn spec_seizable(
    conds: Seq<SeizeCondition>,
    loan: LoanV,
    now: u64,
    book: Seq<PriceEntry>,
) -> Result<bool, Error>
    decreases conds.len(),
{
    if conds.len() == 0 {
        Ok(false)
    } else {
        match spec_check(conds[0], loan, now, book) {
            Err(e) => Err(e),
            Ok(b) => match spec_seizable(conds.drop_first(), loan, now, book) {
                Err(e) => Err(e),
                Ok(rest) => Ok(b || rest),
            },
        }
    }
}

impl OracleAsset {
    /// The oracle collaborator's answer for this asset, drawn from the
    /// price snapshot the host passed in: the first matching entry's
    /// price, unless it is missing or stale.
    pub fn lastprice(&self, book: &Vec<PriceEntry>, now: u64) -> (r: Result<i128, Error>)
        requires
            self.resolvable(),
        ensures
            r == spec_lastprice(book@, *self, now),
    {
        let q = self.query();
        let mut i: usize = 0;
        proof {
            assert(book@.skip(0) =~= book@);
        }
        while i < book.len()
            invariant
                i <= book.len(),
                q == self.spec_query(),
                spec_book_lookup(book@, self.oracle_contract, q) == spec_book_lookup(
                    book@.skip(i as int),
                    self.oracle_contract,
                    q,
                ),
            decreases book.len() - i,
        {
            proof {
                assert(book@.skip(i as int)[0] == book@[i as int]);
                assert(book@.skip(i as int).drop_first() =~= book@.skip(i as int + 1));
            }
            let e = book[i];
            if e.oracle_contract == self.oracle_contract && e.query == q {
                if now > PRICE_MAX_AGE && e.timestamp < now - PRICE_MAX_AGE {
                    return Err(Error::OracleError);
                }
                return Ok(e.price);
            }
            i = i + 1;
        }
        proof {
            assert(book@.skip(book@.len() as int) =~= Seq::<PriceEntry>::empty());
        }
        Err(Error::OracleError)
    }
}

impl SeizeCondition {
    /// Evaluates this condition for `loan` at time `now` against the
    /// price snapshot.
    pub fn check(&self, loan: &Loan, now: u64, book: &Vec<PriceEntry>) -> (r: Result<bool, Error>)
        requires
            self.resolvable(),
            now >= loan.timestamp,
        ensures
            r == spec_check(*self, loan@, now, book@),
    {
        match self {
            SeizeCondition::LoanDefault => {
                let days = crate::interest::elapsed_days(now, loan.timestamp);
                Ok(days > loan.max_loan_term as u64)
            },
            SeizeCondition::OraclePriceComparison { asset_a, amount_a, asset_b, amount_b, greater } => {
                let price_a = match asset_a.lastprice(book, now) {
                    Ok(p) => p,
                    Err(e) => {
                        return Err(e);
                    },
                };
                let price_b = match asset_b.lastprice(book, now) {
                    Ok(p) => p,
                    Err(e) => {
                        return Err(e);
                    },
                };
                if price_b == 0 || *amount_b == 0 {
                    Ok(false)
                } else {
                    Ok(price_condition_holds(price_a, *amount_a, price_b, *amount_b, *greater))
                }
            },
        }
    }
}

impl Collateral {
    /// Whether this collateral may be repossessed from `loan` at time
    /// `now`: true as soon as any one seizure condition holds. Every
    /// condition is evaluated, and the first oracle failure aborts the
    /// whole attempt.
    pub fn seizable(&self, loan: &Loan, now: u64, book: &Vec<PriceEntry>) -> (r: Result<
        bool,
        Error,
    >)
        requires
            self@.resolvable(),
            now >= loan.timestamp,
        ensures
            r == spec_seizable(self.seize_conditions@, loan@, now, book@),
    {
        let mut found = false;
        let mut i: usize = 0;
        proof {
            assert(self.seize_conditions@.skip(0) =~= self.seize_conditions@);
        }
        while i < self.seize_conditions.len()
            invariant
                i <= self.seize_conditions.len(),
                self@.resolvable(),
                now >= loan.timestamp,
                spec_seizable(self.seize_conditions@, loan@, now, book@) == (match spec_seizable(
                    self.seize_conditions@.skip(i as int),
                    loan@,
                    now,
                    book@,
                ) {
                    Err(e) => Err::<bool, Error>(e),
                    Ok(rest) => Ok::<bool, Error>(found || rest),
                }),
            decreases self.seize_conditions.len() - i,
        {
            proof {
                assert(self.seize_conditions@.skip(i as int)[0] == self.seize_conditions@[i as int]);
                assert(self.seize_conditions@.skip(i as int).drop_first() =~= self.seize_conditions@.skip(i as int + 1));
                assert(self@.seize_conditions[i as int].resolvable());
            }
            let c = &self.seize_conditions[i];
            match c.check(loan, now, book) {
                Err(e) => {
                    return Err(e);
                },
                Ok(b) => {
                    if b {
                        found = true;
                    }
                },
            }
            i = i + 1;
        }
        proof {
            assert(self.seize_conditions@.skip(self.seize_conditions@.len() as int) =~= Seq::<SeizeCondition>::empty());
        }
        Ok(found)
    }
}

} // verus!
