//! The protocol's data model: loans, collateral, seizure conditions,
//! oracle references, errors, and the plain values that stand between the
//! library and the host ledger.

use vstd::prelude::*;

verus! {

/// An on-ledger identity (an account or a contract), reduced to the opaque
/// 64-bit handle the host assigns it.
pub type Address = u64;

/// Where a loan stands in its lifecycle.
#[derive(Clone, Copy, Debug, PartialEq, Eq, Structural)]
pub enum LoanStatus {
    WaitingForLender,
    WaitingForBorrower,
    InProgress,
}

/// Every caller-visible failure of the protocol.
#[derive(Clone, Copy, Debug, PartialEq, Eq, Structural)]
pub enum Error {
    NotAuthorized,
    LoanNotExist,
    LoanAlreadyExist,
    InvalidCollateral,
    InvalidBorrower,
    InvalidLender,
    LoanInProgress,
    LoanNotInProgress,
    LendingError,
    BorrowingError,
    CollateralNotSeizable,
    OracleError,
}

/// An asset reference resolvable to a price through an oracle endpoint:
/// either a foreign-asset symbol known to the oracle or a native asset
/// contract. The symbol, when present, takes precedence.
#[derive(Clone, Copy, Debug)]
pub struct OracleAsset {
    pub oracle_contract: Address,
    pub asset_contract: Option<Address>,
    pub oracle_symbol: Option<u64>,
}

impl OracleAsset {
    /// An oracle asset must name at least one of the two ways to query a
    /// price; one with neither cannot be resolved at all.
    pub open spec fn resolvable(self) -> bool {
        self.oracle_symbol is Some || self.asset_contract is Some
    }

    /// The concrete question this reference puts to its oracle.
    pub open spec fn spec_query(self) -> OracleQuery {
        match self.oracle_symbol {
            Some(s) => OracleQuery::Symbolic(s),
            None => OracleQuery::Native(self.asset_contract->Some_0),
        }
    }

    /// Resolves the reference to the question asked of the oracle.
    pub fn query(&self) -> (q: OracleQuery)
        requires
            self.resolvable(),
        ensures
            q == self.spec_query(),
    {
        match self.oracle_symbol {
            Some(s) => OracleQuery::Symbolic(s),
            None => OracleQuery::Native(self.asset_contract.unwrap()),
        }
    }
}

/// The question an oracle is asked: a price for a foreign symbol, or for a
/// native asset contract.
#[derive(Clone, Copy, Debug, PartialEq, Eq, Structural)]
pub enum OracleQuery {
    Symbolic(u64),
    Native(Address),
}

/// A rule that, when satisfied, authorizes collateral repossession.
#[derive(Clone, Copy, Debug)]
pub enum SeizeCondition {
    /// True once the elapsed days since the loan went in progress exceed
    /// its maximum term.
    LoanDefault,
    /// True when the oracle-valued ratio of two asset amounts satisfies the
    /// chosen comparison; see `oracle` for the exact arithmetic.
    OraclePriceComparison {
        asset_a: OracleAsset,
        amount_a: i128,
        asset_b: OracleAsset,
        amount_b: i128,
        greater: bool,
    },
}

impl SeizeCondition {
    /// Both oracle references of a price comparison must be resolvable;
    /// a default condition needs nothing from outside.
    pub open spec fn resolvable(self) -> bool {
        match self {
            SeizeCondition::LoanDefault => true,
            SeizeCondition::OraclePriceComparison { asset_a, asset_b, .. } => {
                asset_a.resolvable() && asset_b.resolvable()
            },
        }
    }
}

/// The asset a borrower pledges, with the rules under which it may be
/// seized. The conditions are evaluated disjunctively.
#[derive(Debug)]
pub struct Collateral {
    pub asset_contract: Address,
    pub amount: i128,
    pub seize_conditions: Vec<SeizeCondition>,
}

/// The mathematical shadow of a `Collateral`.
#[verifier::ext_equal]
pub ghost struct CollateralV {
    pub asset_contract: Address,
    pub amount: i128,
    pub seize_conditions: Seq<SeizeCondition>,
}

impl View for Collateral {
    type V = CollateralV;

    open spec fn view(&self) -> CollateralV {
        CollateralV {
            asset_contract: self.asset_contract,
            amount: self.amount,
            seize_conditions: self.seize_conditions@,
        }
    }
}

impl CollateralV {
    pub open spec fn resolvable(self) -> bool {
        forall|i: int|
            0 <= i < self.seize_conditions.len() ==> (#[trigger] self.seize_conditions[i]).resolvable()
    }
}

/// The central entity: one loan record, identified from outside by an
/// opaque 64-bit key chosen by its creator.
#[derive(Debug)]
pub struct Loan {
    pub borrower: Option<Address>,
    pub lender: Option<Address>,
    pub collateral: Option<Collateral>,
    pub status: LoanStatus,
    pub loan_asset: Address,
    pub loan_amount: i128,
    pub daily_interest_rate: u32,
    pub max_loan_term: u32,
    pub timestamp: u64,
}

/// The mathematical shadow of a `Loan`.
#[verifier::ext_equal]
pub ghost struct LoanV {
    pub borrower: Option<Address>,
    pub lender: Option<Address>,
    pub collateral: Option<CollateralV>,
    pub status: LoanStatus,
    pub loan_asset: Address,
    pub loan_amount: i128,
    pub daily_interest_rate: u32,
    pub max_loan_term: u32,
    pub timestamp: u64,
}

impl View for Loan {
    type V = LoanV;

    open spec fn view(&self) -> LoanV {
        LoanV {
            borrower: self.borrower,
            lender: self.lender,
            collateral: match self.collateral {
                Some(c) => Some(c@),
                None => None,
            },
            status: self.status,
            loan_asset: self.loan_asset,
            loan_amount: self.loan_amount,
            daily_interest_rate: self.daily_interest_rate,
            max_loan_term: self.max_loan_term,
            timestamp: self.timestamp,
        }
    }
}

impl LoanV {
    /// The record invariants the lifecycle keeps: each waiting state has its
    /// opening party set, an in-progress loan has both parties, and every
    /// oracle reference among the seizure conditions can be resolved.
    pub open spec fn well_formed(self) -> bool {
        &&& match self.status {
            LoanStatus::WaitingForLender => self.borrower is Some,
            LoanStatus::WaitingForBorrower => self.lender is Some,
            LoanStatus::InProgress => self.borrower is Some && self.lender is Some
                && self.borrower != self.lender,
        }
        &&& match self.collateral {
            Some(c) => c.resolvable(),
            None => true,
        }
    }
}

/// One price the oracle collaborator reported: which endpoint was asked
/// what, the price, and when the oracle sampled it.
#[derive(Clone, Copy, Debug)]
pub struct PriceEntry {
    pub oracle_contract: Address,
    pub query: OracleQuery,
    pub price: i128,
    pub timestamp: u64,
}

/// One asset movement the embedding must execute: `amount` units of the
/// token `token` from `from` to `to`. The host's transfer collaborator
/// fails (and the whole operation with it) if `from` lacks balance or
/// authorization, or if the amount is not positive.
#[derive(Clone, Copy, Debug, PartialEq, Eq, Structural)]
pub struct TransferAction {
    pub token: Address,
    pub from: Address,
    pub to: Address,
    pub amount: i128,
}

/// Duplicates a vector of copyable values.
pub fn dup_vec<T: Copy>(v: &Vec<T>) -> (r: Vec<T>)
    ensures
        r@ == v@,
{
    let mut r: Vec<T> = Vec::new();
    let mut i: usize = 0;
    while i < v.len()
        invariant
            i <= v.len(),
            r@ == v@.subrange(0, i as int),
        decreases v.len() - i,
    {
        r.push(v[i]);
        i = i + 1;
    }
    proof {
        assert(r@ =~= v@);
    }
    r
}

/// Duplicates a loan record; the duplicate has the same view.
pub fn dup_loan(l: &Loan) -> (r: Loan)
    ensures
        r@ == l@,
{
    let collateral = match &l.collateral {
        Some(c) => Some(
            Collateral {
                asset_contract: c.asset_contract,
                amount: c.amount,
                seize_conditions: dup_vec(&c.seize_conditions),
            },
        ),
        None => None,
    };
    let r = Loan {
        borrower: l.borrower,
        lender: l.lender,
        collateral,
        status: l.status,
        loan_asset: l.loan_asset,
        loan_amount: l.loan_amount,
        daily_interest_rate: l.daily_interest_rate,
        max_loan_term: l.max_loan_term,
        timestamp: l.timestamp,
    };
    proof {
        assert(r@ =~= l@);
    }
    r
}

/// True when `who` is among the identities that have authorized the
/// current invocation.
pub fn is_authorized(auths: &Vec<Address>, who: Address) -> (b: bool)
    ensures
        b == auths@.contains(who),
{
    let mut i: usize = 0;
    while i < auths.len()
        invariant
            i <= auths.len(),
            forall|j: int| 0 <= j < i ==> auths@[j] != who,
        decreases auths.len() - i,
    {
        if auths[i] == who {
            return true;
        }
        i = i + 1;
    }
    false
}

} // verus!
