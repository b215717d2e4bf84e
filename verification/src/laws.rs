//! The protocol's laws: general statements that relate several operations,
//! proved once and for all over the same specifications the operations'
//! contracts use.

use vstd::prelude::*;
use crate::contract::{registered, P2PLendingContract};
use crate::interest::{spec_elapsed_days, spec_interest, trunc_div, SECONDS_PER_DAY};
use crate::oracle::{spec_check, spec_seizable};
use crate::types::{Address, Error, LoanStatus, LoanV, PriceEntry, SeizeCondition};
use crate::wide::lemma_div_ge_iff;

verus! {

/// Creating a loan and then looking it up returns the record that was
/// handed in, untouched: `new_loan` ensures the store becomes
/// `insert(loan_key, loan)`, and `get_loan` returns exactly what the store
/// holds under the key.
pub proof fn lemma_new_loan_then_get_loan(
    pre: P2PLendingContract,
    post: P2PLendingContract,
    loan_key: u64,
    loan: LoanV,
)
    requires
        post.spec_loans() == pre.spec_loans().insert(loan_key, loan),
    ensures
        post.spec_loans().contains_key(loan_key),
        post.spec_loans()[loan_key] == loan,
{
}

/// Creating a loan under a fresh key with collateral whose condition set
/// is empty is always rejected with `InvalidCollateral`, whatever the
/// other fields, the authorization set, or the rest of the state.
pub proof fn lemma_empty_conditions_rejected(
    pre: P2PLendingContract,
    loan_key: u64,
    loan: LoanV,
    auths: Seq<Address>,
)
    requires
        !pre.spec_loans().contains_key(loan_key),
        loan.collateral matches Some(c) && c.seize_conditions.len() == 0,
    ensures
        P2PLendingContract::new_loan_decision(pre, loan_key, loan, auths) == Err::<Address, Error>(
            Error::InvalidCollateral,
        ),
{
}

/// The interest of an in-progress loan at time `now` is
/// `loan_amount * ((now - timestamp) / 86400 + 1) * daily_interest_rate / 10000`,
/// truncating at each division — and at `now == timestamp` the loan is
/// already one day in.
pub proof fn lemma_interest_formula(loan: LoanV, now: u64)
    requires
        loan.status == LoanStatus::InProgress,
        now >= loan.timestamp,
    ensures
        spec_interest(loan, now) == trunc_div(
            loan.loan_amount * ((now - loan.timestamp) / (SECONDS_PER_DAY as int) + 1)
                * loan.daily_interest_rate,
            10000,
        ),
        now == loan.timestamp ==> spec_interest(loan, now) == trunc_div(
            loan.loan_amount * loan.daily_interest_rate,
            10000,
        ),
{
    if now == loan.timestamp {
        assert(spec_elapsed_days(now, loan.timestamp) == 1);
        assert(loan.loan_amount * 1 == loan.loan_amount);
    }
}

/// Repaying a loan that exists but is not in progress is always rejected
/// with `LoanNotInProgress`, for any authorized caller; `repay`'s contract
/// adds that the rejected call leaves the state untouched.
pub proof fn lemma_repay_needs_in_progress(
    pre: P2PLendingContract,
    loan_key: u64,
    user: Address,
    auths: Seq<Address>,
)
    requires
        pre.spec_loans().contains_key(loan_key),
        pre.spec_loans()[loan_key].status != LoanStatus::InProgress,
        auths.contains(user),
    ensures
        P2PLendingContract::repay_decision(pre, loan_key, user, auths) == Err::<(), Error>(
            Error::LoanNotInProgress,
        ),
{
}

/// A collateral guarded by the single default condition with a maximum
/// term of ten days becomes seizable exactly when ten full days have
/// passed since the loan went in progress, whatever the price book says.
pub proof fn lemma_default_condition_threshold(loan: LoanV, now: u64, book: Seq<PriceEntry>)
    requires
        loan.max_loan_term == 10,
        now >= loan.timestamp,
    ensures
        spec_seizable(seq![SeizeCondition::LoanDefault], loan, now, book) == Ok::<bool, Error>(
            now - loan.timestamp >= 10 * 86400,
        ),
{
    let conds = seq![SeizeCondition::LoanDefault];
    assert(conds.drop_first() =~= Seq::<SeizeCondition>::empty());
    assert(spec_seizable(Seq::<SeizeCondition>::empty(), loan, now, book) == Ok::<bool, Error>(
        false,
    ));
    assert(conds[0] == SeizeCondition::LoanDefault);
    assert(spec_check(conds[0], loan, now, book) == Ok::<bool, Error>(
        spec_elapsed_days(now, loan.timestamp) > 10,
    ));
    assert(spec_seizable(conds, loan, now, book) == Ok::<bool, Error>(
        spec_elapsed_days(now, loan.timestamp) > 10,
    ));
    let elapsed = now - loan.timestamp;
    lemma_div_ge_iff(elapsed, SECONDS_PER_DAY as int, 10);
    assert((elapsed / (SECONDS_PER_DAY as int) + 1 > 10) <==> (elapsed >= 10 * 86400));
}

/// After a successful repayment the record is gone, the lender's claimable
/// balance for the loan asset has grown by exactly principal plus accrued
/// interest, the borrower's claimable balance for the collateral asset (if
/// any) by exactly the collateral amount, and the key has left both
/// parties' indices. The premises are what `repay` ensures on success.
pub proof fn lemma_repay_settles(
    pre: P2PLendingContract,
    post: P2PLendingContract,
    loan_key: u64,
    now: u64,
)
    requires
        pre.spec_loans().contains_key(loan_key),
        pre.spec_loans()[loan_key].lender is Some,
        pre.spec_loans()[loan_key].borrower is Some,
        post.spec_loans() == pre.spec_loans().remove(loan_key),
        ({
            let loan = pre.spec_loans()[loan_key];
            let l = loan.lender->Some_0;
            let total = spec_interest(loan, now) + loan.loan_amount;
            &&& i128::MIN <= total <= i128::MAX
            &&& i128::MIN <= pre.spec_balance(l, loan.loan_asset) + total <= i128::MAX
            &&& post.spec_sheet(l) == pre.spec_sheet(l).insert(
                loan.loan_asset,
                (pre.spec_balance(l, loan.loan_asset) + total) as i128,
            )
        }),
        ({
            let loan = pre.spec_loans()[loan_key];
            let b = loan.borrower->Some_0;
            match loan.collateral {
                Some(c) => {
                    &&& i128::MIN <= pre.spec_balance(b, c.asset_contract) + c.amount <= i128::MAX
                    &&& post.spec_sheet(b) == pre.spec_sheet(b).insert(
                        c.asset_contract,
                        (pre.spec_balance(b, c.asset_contract) + c.amount) as i128,
                    )
                },
                None => true,
            }
        }),
        !post.spec_list(pre.spec_loans()[loan_key].lender->Some_0).contains(loan_key),
        !post.spec_list(pre.spec_loans()[loan_key].borrower->Some_0).contains(loan_key),
    ensures
        !post.spec_loans().contains_key(loan_key),
        ({
            let loan = pre.spec_loans()[loan_key];
            let l = loan.lender->Some_0;
            post.spec_balance(l, loan.loan_asset) == pre.spec_balance(l, loan.loan_asset)
                + spec_interest(loan, now) + loan.loan_amount
        }),
        ({
            let loan = pre.spec_loans()[loan_key];
            let b = loan.borrower->Some_0;
            match loan.collateral {
                Some(c) => post.spec_balance(b, c.asset_contract) == pre.spec_balance(
                    b,
                    c.asset_contract,
                ) + c.amount,
                None => true,
            }
        }),
{
}

/// A user's loan index lists exactly the open loans in which the user
/// currently holds a registered role: every key it contains names a stored
/// loan with that user as its registered borrower or lender, and every
/// such loan's key is in the index. The premise is the state invariant
/// every operation requires and preserves.
pub proof fn lemma_index_lists_open_loans(s: P2PLendingContract, u: Address, k: u64)
    requires
        s.wf(),
    ensures
        s.spec_list(u).contains(k) <==> (s.spec_loans().contains_key(k) && registered(
            s.spec_loans().index(k),
            u,
        )),
{
}

/// A successful withdrawal empties exactly the withdrawn asset: the asset
/// leaves the user's sheet, and every other (user, asset) balance reads as
/// before. `withdraw`'s contract supplies the premise.
pub proof fn lemma_withdraw_clears_entry(
    pre: P2PLendingContract,
    post: P2PLendingContract,
    user: Address,
    token: Address,
)
    requires
        post.spec_sheet(user) == pre.spec_sheet(user).remove(token),
        forall|u: Address| u != user ==> post.spec_sheet(u) == pre.spec_sheet(u),
    ensures
        !post.spec_sheet(user).contains_key(token),
        forall|u: Address, t: Address|
            u != user || t != token ==> #[trigger] post.spec_balance(u, t) == pre.spec_balance(
                u,
                t,
            ),
{
    assert forall|u: Address, t: Address|
        u != user || t != token implies #[trigger] post.spec_balance(u, t) == pre.spec_balance(
        u,
        t,
    ) by {
        if u == user {
            assert(post.spec_sheet(u).contains_key(t) == pre.spec_sheet(u).contains_key(t));
        }
    }
}

} // verus!
