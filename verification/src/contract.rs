//! The loan lifecycle state machine: the orchestrator that validates
//! inputs, enforces authorization, drives transitions, keeps the per-user
//! loan index and the escrow ledger consistent, and owns the canonical
//! loan records.
//!
//! Every operation is a single read-modify-write unit: it either applies
//! fully and returns the asset movements the host must execute with it, or
//! fails with one error kind and leaves the state untouched.

use vstd::prelude::*;
use std::collections::HashMap;
use crate::interest::{interest_in_range, spec_interest, calculate_interest, interest_fits};
use crate::oracle::spec_seizable;
use crate::types::{
    Address, Error, Loan, LoanStatus, LoanV, PriceEntry, TransferAction, dup_loan, dup_vec,
    is_authorized,
};

verus! {

broadcast use vstd::std_specs::hash::group_hash_axioms, vstd::seq_lib::lemma_seq_contains_after_push;

/// No loan key occurs twice in a user's index.
pub open spec fn no_dups(s: Seq<u64>) -> bool {
    forall|i: int, j: int| 0 <= i < j < s.len() ==> s[i] != s[j]
}

/// Registering a key in a user's index: to the front, and only when it is
/// not already present.
pub open spec fn list_add(s: Seq<u64>, k: u64) -> Seq<u64> {
    if s.contains(k) {
        s
    } else {
        s.insert(0, k)
    }
}

/// Deregistering a key from a user's index: the list with the first
/// occurrence of the key removed, the order of the rest kept; unchanged
/// when the key does not occur.
pub open spec fn list_remove(s: Seq<u64>, k: u64) -> Seq<u64>
    decreases s.len(),
{
    if s.len() == 0 {
        s
    } else if s[0] == k {
        s.drop_first()
    } else {
        seq![s[0]] + list_remove(s.drop_first(), k)
    }
}

proof fn lemma_list_remove_absent(s: Seq<u64>, k: u64)
    requires
        !s.contains(k),
    ensures
        list_remove(s, k) == s,
    decreases s.len(),
{
    if s.len() > 0 {
        assert(s[0] != k);
        assert(!s.drop_first().contains(k)) by {
            if s.drop_first().contains(k) {
                let j = choose|j: int| 0 <= j < s.drop_first().len() && s.drop_first()[j] == k;
                assert(s[j + 1] == k);
            }
        }
        lemma_list_remove_absent(s.drop_first(), k);
        assert(seq![s[0]] + s.drop_first() =~= s);
    }
}

proof fn lemma_list_remove_push(s: Seq<u64>, k: u64, x: u64)
    ensures
        x != k ==> list_remove(s.push(x), k) == list_remove(s, k).push(x),
        x == k && !s.contains(k) ==> list_remove(s.push(x), k) == s,
    decreases s.len(),
{
    let sp = s.push(x);
    if s.len() == 0 {
        assert(sp.len() == 1 && sp[0] == x);
        if x == k {
            assert(list_remove(sp, k) =~= s);
        } else {
            assert(sp.drop_first() =~= Seq::<u64>::empty());
            assert(list_remove(Seq::<u64>::empty(), k) == Seq::<u64>::empty());
            assert(list_remove(sp, k) == seq![x] + list_remove(sp.drop_first(), k));
            assert(list_remove(sp, k) =~= list_remove(s, k).push(x));
        }
    } else {
        assert(sp[0] == s[0]);
        assert(sp.drop_first() =~= s.drop_first().push(x));
        if s[0] == k {
            assert(s.contains(k)) by {
                assert(s[0] == k);
            }
            if x != k {
                assert(list_remove(sp, k) == sp.drop_first());
                assert(list_remove(s, k).push(x) == s.drop_first().push(x));
            }
        } else {
            lemma_list_remove_push(s.drop_first(), k, x);
            if x != k {
                assert(list_remove(sp, k) == seq![s[0]] + list_remove(s.drop_first(), k).push(x));
                assert(seq![s[0]] + list_remove(s.drop_first(), k).push(x) =~= (seq![s[0]]
                    + list_remove(s.drop_first(), k)).push(x));
            } else if !s.contains(k) {
                assert(!s.drop_first().contains(k)) by {
                    if s.drop_first().contains(k) {
                        let j = choose|j: int|
                            0 <= j < s.drop_first().len() && s.drop_first()[j] == k;
                        assert(s[j + 1] == k);
                    }
                }
                assert(list_remove(sp, k) == seq![s[0]] + s.drop_first());
                assert(seq![s[0]] + s.drop_first() =~= s);
            }
        }
    }
}

/// Whether `u` currently holds a registered role in `loan`: the borrower
/// of a waiting-for-lender or in-progress loan, or the lender of a
/// waiting-for-borrower or in-progress loan. A party merely reserved for
/// a slot not yet taken holds no role.
pub open spec fn registered(loan: LoanV, u: Address) -> bool {
    match loan.status {
        LoanStatus::WaitingForLender => loan.borrower == Some(u),
        LoanStatus::WaitingForBorrower => loan.lender == Some(u),
        LoanStatus::InProgress => loan.borrower == Some(u) || loan.lender == Some(u),
    }
}

proof fn lemma_list_add_contains(s: Seq<u64>, k: u64)
    ensures
        forall|x: u64| #[trigger] list_add(s, k).contains(x) == (x == k || s.contains(x)),
{
    if !s.contains(k) {
        let t = s.insert(0, k);
        assert(t =~= seq![k] + s);
        assert forall|x: u64| #[trigger] t.contains(x) == (x == k || s.contains(x)) by {
            if t.contains(x) {
                let i = choose|i: int| 0 <= i < t.len() && t[i] == x;
                if i > 0 {
                    assert(s[i - 1] == x);
                }
            }
            if x == k {
                assert(t[0] == x);
            }
            if s.contains(x) {
                let j = choose|j: int| 0 <= j < s.len() && s[j] == x;
                assert(t[j + 1] == x);
            }
        }
    }
}

/// The protocol instance: its own custody address and the three shared
/// stores — the canonical loan records, the per-user loan index, and the
/// per-user escrow ledger of claimable balances.
pub struct P2PLendingContract {
    pub contract_address: Address,
    pub loans: HashMap<u64, Loan>,
    pub loan_lists: HashMap<Address, Vec<u64>>,
    pub balances: HashMap<Address, HashMap<Address, i128>>,
}

impl P2PLendingContract {
    /// The loan records, as a map from key to record.
    pub open spec fn spec_loans(self) -> Map<u64, LoanV> {
        Map::new(|k: u64| self.loans@.contains_key(k), |k: u64| self.loans@[k]@)
    }

    /// A user's loan index; empty when the user has none.
    pub open spec fn spec_list(self, u: Address) -> Seq<u64> {
        if self.loan_lists@.contains_key(u) {
            self.loan_lists@[u]@
        } else {
            Seq::empty()
        }
    }

    /// A user's escrow sheet: the claimable balance per asset.
    pub open spec fn spec_sheet(self, u: Address) -> Map<Address, i128> {
        if self.balances@.contains_key(u) {
            self.balances@[u]@
        } else {
            Map::empty()
        }
    }

    /// A user's claimable balance for one asset; zero when unlisted.
    pub open spec fn spec_balance(self, u: Address, t: Address) -> i128 {
        if self.spec_sheet(u).contains_key(t) {
            self.spec_sheet(u)[t]
        } else {
            0
        }
    }

    /// The loan index matches the records: a key stands in a user's index
    /// exactly when a stored loan holds that user in a registered role.
    pub open spec fn index_consistent(self) -> bool {
        forall|u: Address, k: u64|
            #![trigger self.spec_list(u).contains(k)]
            #![trigger registered(self.spec_loans().index(k), u)]
            self.spec_list(u).contains(k) <==> (self.spec_loans().contains_key(k) && registered(
                self.spec_loans().index(k),
                u,
            ))
    }

    /// The state invariant: every stored record is well formed, no user's
    /// index repeats a key, and the index matches the records.
    pub open spec fn wf(self) -> bool {
        &&& forall|k: u64|
            #[trigger] self.spec_loans().contains_key(k) ==> self.spec_loans()[k].well_formed()
        &&& forall|u: Address| no_dups(#[trigger] self.spec_list(u))
        &&& self.index_consistent()
    }

    /// A fresh protocol instance holding custody at `contract_address`,
    /// with no loans, no index entries and no claimable balances.
    pub fn new(contract_address: Address) -> (r: P2PLendingContract)
        ensures
            r.wf(),
            r.contract_address == contract_address,
            r.spec_loans() == Map::<u64, LoanV>::empty(),
            forall|u: Address| #[trigger] r.spec_list(u) == Seq::<u64>::empty(),
            forall|u: Address| #[trigger] r.spec_sheet(u) == Map::<Address, i128>::empty(),
    {
        let r = P2PLendingContract {
            contract_address,
            loans: HashMap::new(),
            loan_lists: HashMap::new(),
            balances: HashMap::new(),
        };
        proof {
            assert(r.spec_loans() =~= Map::<u64, LoanV>::empty());
            assert forall|u: Address, k: u64|
                r.spec_list(u).contains(k) <==> (r.spec_loans().contains_key(k) && registered(
                    r.spec_loans().index(k),
                    u,
                )) by {
                assert(!r.spec_list(u).contains(k));
                assert(!r.spec_loans().contains_key(k));
            }
        }
        r
    }

    /// True when `k` occurs in `v`.
    fn vec_has(v: &Vec<u64>, k: u64) -> (b: bool)
        ensures
            b == v@.contains(k),
    {
        let mut i: usize = 0;
        while i < v.len()
            invariant
                i <= v.len(),
                forall|j: int| 0 <= j < i ==> v@[j] != k,
            decreases v.len() - i,
        {
            if v[i] == k {
                return true;
            }
            i = i + 1;
        }
        false
    }

    /// Adds `loan_key` to `user`'s index (front, no duplicates) or removes
    /// it (the key no longer occurs afterwards). Touches nothing else.
    fn modify_loan_list(&mut self, user: Address, loan_key: u64, add: bool)
        requires
            no_dups(old(self).spec_list(user)),
        ensures
            final(self).loans == old(self).loans,
            final(self).balances == old(self).balances,
            final(self).contract_address == old(self).contract_address,
            forall|u: Address|
                u != user ==> (#[trigger] final(self).spec_list(u)) == old(self).spec_list(u),
            no_dups(final(self).spec_list(user)),
            add ==> final(self).spec_list(user) == list_add(old(self).spec_list(user), loan_key),
            !add ==> final(self).spec_list(user) == list_remove(
                old(self).spec_list(user),
                loan_key,
            ),
            !add ==> !final(self).spec_list(user).contains(loan_key),
            !add ==> forall|x: u64|
                x != loan_key ==> final(self).spec_list(user).contains(x) == old(self).spec_list(
                    user,
                ).contains(x),
            !add && !old(self).spec_list(user).contains(loan_key) ==> final(self).spec_list(user)
                == old(self).spec_list(user),
    {
        let ghost pre = old(self).spec_list(user);
        let list: Vec<u64> = match self.loan_lists.remove(&user) {
            Some(l) => l,
            None => Vec::new(),
        };
        proof {
            assert(list@ == pre);
        }
        if add {
            let mut list = list;
            if !Self::vec_has(&list, loan_key) {
                list.insert(0, loan_key);
                proof {
                    assert(no_dups(list@)) by {
                        assert(forall|j: int|
                            1 <= j < list@.len() ==> list@[j] == pre[j - 1]);
                    }
                }
            }
            self.loan_lists.insert(user, list);
        } else {
            let mut out: Vec<u64> = Vec::new();
            let mut i: usize = 0;
            while i < list.len()
                invariant
                    i <= list.len(),
                    list@ == pre,
                    no_dups(pre),
                    no_dups(out@),
                    forall|x: u64|
                        #[trigger] out@.contains(x) == (pre.subrange(0, i as int).contains(x) && x
                            != loan_key),
                    out@ == list_remove(pre.subrange(0, i as int), loan_key),
                decreases list.len() - i,
            {
                let ghost prefix = pre.subrange(0, i as int);
                proof {
                    assert(pre.subrange(0, i as int + 1) =~= prefix.push(pre[i as int]));
                    lemma_list_remove_push(prefix, loan_key, pre[i as int]);
                    if pre[i as int] == loan_key {
                        assert(!prefix.contains(loan_key)) by {
                            if prefix.contains(loan_key) {
                                let j = choose|j: int|
                                    0 <= j < prefix.len() && prefix[j] == loan_key;
                                assert(pre[j] == pre[i as int]);
                            }
                        }
                        lemma_list_remove_absent(prefix, loan_key);
                    }
                }
                if list[i] != loan_key {
                    proof {
                        assert(!out@.contains(list@[i as int])) by {
                            if prefix.contains(list@[i as int]) {
                                let j = choose|j: int|
                                    0 <= j < prefix.len() && prefix[j] == list@[i as int];
                                assert(pre[j] == pre[i as int]);
                            }
                        }
                    }
                    out.push(list[i]);
                    proof {
                        assert(no_dups(out@)) by {
                            assert(forall|j: int|
                                0 <= j < out@.len() - 1 ==> #[trigger] out@[j] != out@[out@.len()
                                    - 1]);
                        }
                    }
                }
                i = i + 1;
            }
            proof {
                assert(pre.subrange(0, pre.len() as int) =~= pre);
                if !pre.contains(loan_key) {
                    lemma_list_remove_absent(pre, loan_key);
                }
            }
            self.loan_lists.insert(user, out);
        }
    }

    /// Accrues `amount` of `token` to `to`'s claimable balance, pulling the
    /// funds into custody first when they are not already there. Returns
    /// the transfer the host must execute, if one is needed.
    ///
    /// The ledger itself places no sign restriction on the credited
    /// amount. Every credit is matched by a transfer the host executes
    /// atomically with the state change (the pull returned here, or the
    /// earlier pull that brought the funds into custody), and the host's
    /// transfer collaborator refuses non-positive amounts, so in every run
    /// the host commits the stored balances are positive.
    fn create_claimable_balance(&mut self, token: Address, from: Address, to: Address, amount: i128)
        -> (t: Option<TransferAction>)
        requires
            i128::MIN <= old(self).spec_balance(to, token) + amount <= i128::MAX,
        ensures
            final(self).loans == old(self).loans,
            final(self).loan_lists == old(self).loan_lists,
            final(self).contract_address == old(self).contract_address,
            forall|u: Address|
                u != to ==> (#[trigger] final(self).spec_sheet(u)) == old(self).spec_sheet(u),
            final(self).spec_sheet(to) == old(self).spec_sheet(to).insert(
                token,
                (old(self).spec_balance(to, token) + amount) as i128,
            ),
            t == if from != old(self).contract_address {
                Some(
                    TransferAction {
                        token,
                        from,
                        to: old(self).contract_address,
                        amount,
                    },
                )
            } else {
                Option::<TransferAction>::None
            },
    {
        let action = if from != self.contract_address {
            Some(TransferAction { token, from, to: self.contract_address, amount })
        } else {
            None
        };
        let mut sheet: HashMap<Address, i128> = match self.balances.remove(&to) {
            Some(s) => s,
            None => HashMap::new(),
        };
        let current: i128 = match sheet.get(&token) {
            Some(v) => *v,
            None => 0,
        };
        sheet.insert(token, current + amount);
        self.balances.insert(to, sheet);
        action
    }

    /// What `new_loan` decides for the given state and inputs: the identity
    /// to register the loan under, or the error that rejects it.
    pub open spec fn new_loan_decision(
        pre: P2PLendingContract,
        loan_key: u64,
        loan: LoanV,
        auths: Seq<Address>,
    ) -> Result<Address, Error> {
        if pre.spec_loans().contains_key(loan_key) {
            Err(Error::LoanAlreadyExist)
        } else if match loan.collateral {
            Some(c) => c.seize_conditions.len() == 0,
            None => false,
        } {
            Err(Error::InvalidCollateral)
        } else {
            match loan.status {
                LoanStatus::WaitingForLender => match loan.borrower {
                    None => Err(Error::InvalidBorrower),
                    Some(b) => if !auths.contains(b) {
                        Err(Error::NotAuthorized)
                    } else {
                        Ok(b)
                    },
                },
                LoanStatus::WaitingForBorrower => match loan.lender {
                    None => Err(Error::InvalidLender),
                    Some(l) => if !auths.contains(l) {
                        Err(Error::NotAuthorized)
                    } else {
                        Ok(l)
                    },
                },
                LoanStatus::InProgress => Err(Error::LoanInProgress),
            }
        }
    }

    /// The asset movements that creating `loan` asks of the host: the
    /// collateral into custody when a borrower opens, or the principal into
    /// custody when a lender opens.
    pub open spec fn new_loan_transfers(pre: P2PLendingContract, loan: LoanV) -> Seq<
        TransferAction,
    > {
        match loan.status {
            LoanStatus::WaitingForLender => match loan.collateral {
                Some(c) => seq![
                    TransferAction {
                        token: c.asset_contract,
                        from: loan.borrower->Some_0,
                        to: pre.contract_address,
                        amount: c.amount,
                    },
                ],
                None => Seq::empty(),
            },
            _ => seq![
                TransferAction {
                    token: loan.loan_asset,
                    from: loan.lender->Some_0,
                    to: pre.contract_address,
                    amount: loan.loan_amount,
                },
            ],
        }
    }

    /// Creates the loan record under `loan_key`, exactly as handed in.
    ///
    /// Fails when the key is taken, when collateral comes with an empty
    /// condition set, when the opening party is unset or unauthorized, or
    /// when the record claims to be already in progress. On success the
    /// record is stored untouched, the opening party's index gains the key,
    /// and the returned transfers move the opening party's stake into
    /// custody.
    pub fn new_loan(&mut self, loan_key: u64, loan: Loan, auths: &Vec<Address>) -> (r: Result<
        Vec<TransferAction>,
        Error,
    >)
        requires
            old(self).wf(),
            match loan@.collateral {
                Some(c) => c.resolvable(),
                None => true,
            },
        ensures
            final(self).wf(),
            final(self).contract_address == old(self).contract_address,
            r matches Err(e) ==> Self::new_loan_decision(*old(self), loan_key, loan@, auths@)
                == Err::<Address, Error>(e) && *final(self) == *old(self),
            r matches Ok(tr) ==> {
                let actor = Self::new_loan_decision(*old(self), loan_key, loan@, auths@)->Ok_0;
                &&& Self::new_loan_decision(*old(self), loan_key, loan@, auths@) is Ok
                &&& final(self).spec_loans() == old(self).spec_loans().insert(loan_key, loan@)
                &&& final(self).spec_list(actor) == list_add(old(self).spec_list(actor), loan_key)
                &&& forall|u: Address|
                    u != actor ==> final(self).spec_list(u) == old(self).spec_list(u)
                &&& forall|u: Address| #[trigger] final(self).spec_sheet(u) == old(self).spec_sheet(u)
                &&& tr@ == Self::new_loan_transfers(*old(self), loan@)
            },
    {
        if self.loans.contains_key(&loan_key) {
            return Err(Error::LoanAlreadyExist);
        }
        if let Some(collateral) = &loan.collateral {
            if collateral.seize_conditions.len() == 0 {
                return Err(Error::InvalidCollateral);
            }
        }
        let mut transfers: Vec<TransferAction> = Vec::new();
        let actor: Address = match loan.status {
            LoanStatus::WaitingForLender => {
                let borrower = match loan.borrower {
                    Some(b) => b,
                    None => {
                        return Err(Error::InvalidBorrower);
                    },
                };
                if !is_authorized(auths, borrower) {
                    return Err(Error::NotAuthorized);
                }
                if let Some(collateral) = &loan.collateral {
                    transfers.push(
                        TransferAction {
                            token: collateral.asset_contract,
                            from: borrower,
                            to: self.contract_address,
                            amount: collateral.amount,
                        },
                    );
                }
                borrower
            },
            LoanStatus::WaitingForBorrower => {
                let lender = match loan.lender {
                    Some(l) => l,
                    None => {
                        return Err(Error::InvalidLender);
                    },
                };
                if !is_authorized(auths, lender) {
                    return Err(Error::NotAuthorized);
                }
                transfers.push(
                    TransferAction {
                        token: loan.loan_asset,
                        from: lender,
                        to: self.contract_address,
                        amount: loan.loan_amount,
                    },
                );
                lender
            },
            LoanStatus::InProgress => {
                return Err(Error::LoanInProgress);
            },
        };
        let ghost pre = *self;
        self.modify_loan_list(actor, loan_key, true);
        let ghost mid = *self;
        self.loans.insert(loan_key, loan);
        proof {
            assert(self.spec_loans() =~= pre.spec_loans().insert(loan_key, loan@));
            assert(transfers@ =~= Self::new_loan_transfers(pre, loan@));
            assert(loan@.well_formed());
            assert forall|u: Address| no_dups(#[trigger] self.spec_list(u)) by {
                assert(self.spec_list(u) == mid.spec_list(u));
                if u != actor {
                    assert(mid.spec_list(u) == pre.spec_list(u));
                    assert(no_dups(pre.spec_list(u)));
                }
            }
            assert forall|u: Address| u != actor implies #[trigger] self.spec_list(u) == pre.spec_list(
                u,
            ) by {
                assert(self.spec_list(u) == mid.spec_list(u));
                assert(mid.spec_list(u) == pre.spec_list(u));
            }
            assert(self.spec_list(actor) == mid.spec_list(actor));
            assert(forall|k: u64|
                #[trigger] self.spec_loans().contains_key(k) ==> self.spec_loans().index(
                    k,
                ).well_formed());
            assert forall|u: Address, k2: u64|
                self.spec_list(u).contains(k2) <==> (self.spec_loans().contains_key(k2)
                    && registered(self.spec_loans().index(k2), u)) by {
                lemma_list_add_contains(pre.spec_list(actor), loan_key);
                assert(self.spec_list(actor) == list_add(pre.spec_list(actor), loan_key));
                if u != actor {
                    assert(self.spec_list(u) == pre.spec_list(u));
                }
                assert(pre.spec_list(u).contains(k2) <==> (pre.spec_loans().contains_key(k2)
                    && registered(pre.spec_loans().index(k2), u)));
                if k2 == loan_key {
                    assert(!pre.spec_loans().contains_key(loan_key));
                    assert(!pre.spec_list(u).contains(loan_key));
                    assert(self.spec_loans().index(loan_key) == loan@);
                    assert(registered(loan@, u) == (u == actor));
                } else {
                    assert(self.spec_loans().contains_key(k2) == pre.spec_loans().contains_key(
                        k2,
                    ));
                    if pre.spec_loans().contains_key(k2) {
                        assert(self.spec_loans().index(k2) == pre.spec_loans().index(k2));
                    }
                }
            }
        }
        Ok(transfers)
    }

    /// What `cancel_loan` decides: the party refunded and deregistered, or
    /// the error that rejects the cancellation.
    pub open spec fn cancel_decision(
        pre: P2PLendingContract,
        loan_key: u64,
        auths: Seq<Address>,
    ) -> Result<Address, Error> {
        if !pre.spec_loans().contains_key(loan_key) {
            Err(Error::LoanNotExist)
        } else {
            let loan = pre.spec_loans()[loan_key];
            match loan.status {
                LoanStatus::WaitingForLender => match loan.borrower {
                    None => Err(Error::InvalidBorrower),
                    Some(b) => if !auths.contains(b) {
                        Err(Error::NotAuthorized)
                    } else {
                        Ok(b)
                    },
                },
                LoanStatus::WaitingForBorrower => match loan.lender {
                    None => Err(Error::InvalidLender),
                    Some(l) => if !auths.contains(l) {
                        Err(Error::NotAuthorized)
                    } else {
                        Ok(l)
                    },
                },
                LoanStatus::InProgress => Err(Error::LoanInProgress),
            }
        }
    }

    /// The refunds a cancellation asks of the host: the collateral back to
    /// the borrower, or the escrowed principal back to the lender.
    pub open spec fn cancel_transfers(pre: P2PLendingContract, loan: LoanV) -> Seq<
        TransferAction,
    > {
        match loan.status {
            LoanStatus::WaitingForLender => match loan.collateral {
                Some(c) => seq![
                    TransferAction {
                        token: c.asset_contract,
                        from: pre.contract_address,
                        to: loan.borrower->Some_0,
                        amount: c.amount,
                    },
                ],
                None => Seq::empty(),
            },
            _ => seq![
                TransferAction {
                    token: loan.loan_asset,
                    from: pre.contract_address,
                    to: loan.lender->Some_0,
                    amount: loan.loan_amount,
                },
            ],
        }
    }

    /// Cancels a waiting loan: the opening party takes its stake back and
    /// the record is deleted. In-progress loans cannot be canceled.
    pub fn cancel_loan(&mut self, loan_key: u64, auths: &Vec<Address>) -> (r: Result<
        Vec<TransferAction>,
        Error,
    >)
        requires
            old(self).wf(),
        ensures
            final(self).wf(),
            final(self).contract_address == old(self).contract_address,
            r matches Err(e) ==> Self::cancel_decision(*old(self), loan_key, auths@) == Err::<
                Address,
                Error,
            >(e) && *final(self) == *old(self),
            r matches Ok(tr) ==> {
                let actor = Self::cancel_decision(*old(self), loan_key, auths@)->Ok_0;
                let loan = old(self).spec_loans()[loan_key];
                &&& Self::cancel_decision(*old(self), loan_key, auths@) is Ok
                &&& final(self).spec_loans() == old(self).spec_loans().remove(loan_key)
                &&& final(self).spec_list(actor) == list_remove(
                    old(self).spec_list(actor),
                    loan_key,
                )
                &&& !final(self).spec_list(actor).contains(loan_key)
                &&& forall|x: u64|
                    x != loan_key ==> final(self).spec_list(actor).contains(x) == old(
                        self,
                    ).spec_list(actor).contains(x)
                &&& forall|u: Address|
                    u != actor ==> final(self).spec_list(u) == old(self).spec_list(u)
                &&& forall|u: Address| #[trigger] final(self).spec_sheet(u) == old(self).spec_sheet(u)
                &&& tr@ == Self::cancel_transfers(*old(self), loan)
            },
    {
        let loan_ref = match self.loans.get(&loan_key) {
            Some(l) => l,
            None => {
                return Err(Error::LoanNotExist);
            },
        };
        let mut transfers: Vec<TransferAction> = Vec::new();
        let actor: Address = match loan_ref.status {
            LoanStatus::WaitingForLender => {
                let borrower = match loan_ref.borrower {
                    Some(b) => b,
                    None => {
                        return Err(Error::InvalidBorrower);
                    },
                };
                if !is_authorized(auths, borrower) {
                    return Err(Error::NotAuthorized);
                }
                if let Some(collateral) = &loan_ref.collateral {
                    transfers.push(
                        TransferAction {
                            token: collateral.asset_contract,
                            from: self.contract_address,
                            to: borrower,
                            amount: collateral.amount,
                        },
                    );
                }
                borrower
            },
            LoanStatus::WaitingForBorrower => {
                let lender = match loan_ref.lender {
                    Some(l) => l,
                    None => {
                        return Err(Error::InvalidLender);
                    },
                };
                if !is_authorized(auths, lender) {
                    return Err(Error::NotAuthorized);
                }
                transfers.push(
                    TransferAction {
                        token: loan_ref.loan_asset,
                        from: self.contract_address,
                        to: lender,
                        amount: loan_ref.loan_amount,
                    },
                );
                lender
            },
            LoanStatus::InProgress => {
                return Err(Error::LoanInProgress);
            },
        };
        let ghost pre = *self;
        self.modify_loan_list(actor, loan_key, false);
        let ghost mid = *self;
        self.loans.remove(&loan_key);
        proof {
            assert(self.spec_loans() =~= pre.spec_loans().remove(loan_key));
            assert(transfers@ =~= Self::cancel_transfers(pre, pre.spec_loans()[loan_key]));
            assert forall|u: Address| no_dups(#[trigger] self.spec_list(u)) by {
                assert(self.spec_list(u) == mid.spec_list(u));
                if u != actor {
                    assert(mid.spec_list(u) == pre.spec_list(u));
                    assert(no_dups(pre.spec_list(u)));
                }
            }
            assert forall|u: Address| u != actor implies #[trigger] self.spec_list(u) == pre.spec_list(
                u,
            ) by {
                assert(self.spec_list(u) == mid.spec_list(u));
                assert(mid.spec_list(u) == pre.spec_list(u));
            }
            assert(self.spec_list(actor) == mid.spec_list(actor));
            assert(forall|k: u64|
                #[trigger] self.spec_loans().contains_key(k) ==> self.spec_loans().index(
                    k,
                ).well_formed());
            assert forall|u: Address, k2: u64|
                self.spec_list(u).contains(k2) <==> (self.spec_loans().contains_key(k2)
                    && registered(self.spec_loans().index(k2), u)) by {
                if u != actor {
                    assert(self.spec_list(u) == pre.spec_list(u));
                }
                assert(pre.spec_list(u).contains(k2) <==> (pre.spec_loans().contains_key(k2)
                    && registered(pre.spec_loans().index(k2), u)));
                if k2 == loan_key {
                    assert(!self.spec_loans().contains_key(loan_key));
                    assert(registered(pre.spec_loans().index(loan_key), u) == (u == actor));
                    assert(!self.spec_list(actor).contains(loan_key));
                } else {
                    assert(self.spec_loans().contains_key(k2) == pre.spec_loans().contains_key(
                        k2,
                    ));
                    if pre.spec_loans().contains_key(k2) {
                        assert(self.spec_loans().index(k2) == pre.spec_loans().index(k2));
                    }
                    assert(self.spec_list(actor).contains(k2) == pre.spec_list(actor).contains(k2));
                }
            }
        }
        Ok(transfers)
    }

    /// The record a funding step stores: the acting party takes the open
    /// slot, the clock is stamped, and the loan goes in progress.
    pub open spec fn funded_by_lender(loan: LoanV, lender: Address, now: u64) -> LoanV {
        LoanV { lender: Some(lender), status: LoanStatus::InProgress, timestamp: now, ..loan }
    }

    /// As `funded_by_lender`, for the borrower's side.
    pub open spec fn funded_by_borrower(loan: LoanV, borrower: Address, now: u64) -> LoanV {
        LoanV { borrower: Some(borrower), status: LoanStatus::InProgress, timestamp: now, ..loan }
    }

    /// What `lend` decides: accepted, or the error that rejects it.
    pub open spec fn lend_decision(
        pre: P2PLendingContract,
        loan_key: u64,
        lender: Address,
        auths: Seq<Address>,
    ) -> Result<(), Error> {
        if !pre.spec_loans().contains_key(loan_key) {
            Err(Error::LoanNotExist)
        } else if !auths.contains(lender) {
            Err(Error::NotAuthorized)
        } else {
            let loan = pre.spec_loans()[loan_key];
            if loan.status != LoanStatus::WaitingForLender {
                Err(Error::LendingError)
            } else if match loan.lender {
                Some(l0) => l0 != lender,
                None => false,
            } {
                Err(Error::InvalidLender)
            } else {
                match loan.borrower {
                    None => Err(Error::InvalidBorrower),
                    Some(b) => if lender == b {
                        Err(Error::LendingError)
                    } else {
                        Ok(())
                    },
                }
            }
        }
    }

    /// Funds a waiting-for-lender loan: the authorized caller becomes the
    /// lender, the principal moves straight from lender to borrower, the
    /// clock is stamped and the loan goes in progress.
    pub fn lend(&mut self, loan_key: u64, lender: Address, now: u64, auths: &Vec<Address>) -> (r:
        Result<Vec<TransferAction>, Error>)
        requires
            old(self).wf(),
        ensures
            final(self).wf(),
            final(self).contract_address == old(self).contract_address,
            r matches Err(e) ==> Self::lend_decision(*old(self), loan_key, lender, auths@)
                == Err::<(), Error>(e) && *final(self) == *old(self),
            r matches Ok(tr) ==> {
                let loan = old(self).spec_loans()[loan_key];
                &&& Self::lend_decision(*old(self), loan_key, lender, auths@) is Ok
                &&& final(self).spec_loans() == old(self).spec_loans().insert(
                    loan_key,
                    Self::funded_by_lender(loan, lender, now),
                )
                &&& final(self).spec_list(lender) == list_add(old(self).spec_list(lender), loan_key)
                &&& forall|u: Address|
                    u != lender ==> final(self).spec_list(u) == old(self).spec_list(u)
                &&& forall|u: Address| #[trigger] final(self).spec_sheet(u) == old(self).spec_sheet(u)
                &&& tr@ == seq![
                    TransferAction {
                        token: loan.loan_asset,
                        from: lender,
                        to: loan.borrower->Some_0,
                        amount: loan.loan_amount,
                    },
                ]
            },
    {
        let loan_ref = match self.loans.get(&loan_key) {
            Some(l) => l,
            None => {
                return Err(Error::LoanNotExist);
            },
        };
        if !is_authorized(auths, lender) {
            return Err(Error::NotAuthorized);
        }
        match loan_ref.status {
            LoanStatus::WaitingForLender => {},
            _ => {
                return Err(Error::LendingError);
            },
        }
        if let Some(reserved) = loan_ref.lender {
            if reserved != lender {
                return Err(Error::InvalidLender);
            }
        }
        let borrower = match loan_ref.borrower {
            Some(b) => b,
            None => {
                return Err(Error::InvalidBorrower);
            },
        };
        if lender == borrower {
            return Err(Error::LendingError);
        }
        let mut transfers: Vec<TransferAction> = Vec::new();
        transfers.push(
            TransferAction {
                token: loan_ref.loan_asset,
                from: lender,
                to: borrower,
                amount: loan_ref.loan_amount,
            },
        );
        let mut updated = dup_loan(loan_ref);
        updated.lender = Some(lender);
        updated.timestamp = now;
        updated.status = LoanStatus::InProgress;
        let ghost pre = *self;
        self.loans.insert(loan_key, updated);
        proof {
            assert(self.spec_list(lender) == pre.spec_list(lender));
            assert(no_dups(pre.spec_list(lender)));
        }
        self.modify_loan_list(lender, loan_key, true);
        proof {
            assert(updated@ =~= Self::funded_by_lender(pre.spec_loans()[loan_key], lender, now));
            assert(self.spec_loans() =~= pre.spec_loans().insert(loan_key, updated@));
            assert(transfers@ =~= seq![
                TransferAction {
                    token: pre.spec_loans()[loan_key].loan_asset,
                    from: lender,
                    to: pre.spec_loans()[loan_key].borrower->Some_0,
                    amount: pre.spec_loans()[loan_key].loan_amount,
                },
            ]);
            assert forall|u: Address| no_dups(#[trigger] self.spec_list(u)) by {
                if u != lender {
                    assert(self.spec_list(u) == pre.spec_list(u));
                    assert(no_dups(pre.spec_list(u)));
                }
            }
            assert(forall|k: u64|
                #[trigger] self.spec_loans().contains_key(k) ==> self.spec_loans().index(
                    k,
                ).well_formed());
            assert forall|u: Address, k2: u64|
                self.spec_list(u).contains(k2) <==> (self.spec_loans().contains_key(k2)
                    && registered(self.spec_loans().index(k2), u)) by {
                lemma_list_add_contains(pre.spec_list(lender), loan_key);
                assert(self.spec_list(lender) == list_add(pre.spec_list(lender), loan_key));
                if u != lender {
                    assert(self.spec_list(u) == pre.spec_list(u));
                }
                assert(pre.spec_list(u).contains(k2) <==> (pre.spec_loans().contains_key(k2)
                    && registered(pre.spec_loans().index(k2), u)));
                if k2 == loan_key {
                    assert(pre.spec_loans().contains_key(loan_key));
                    assert(self.spec_loans().index(loan_key) == updated@);
                    assert(registered(pre.spec_loans().index(loan_key), u) == (u == borrower));
                    assert(registered(updated@, u) == (u == borrower || u == lender));
                } else {
                    assert(self.spec_loans().contains_key(k2) == pre.spec_loans().contains_key(
                        k2,
                    ));
                    if pre.spec_loans().contains_key(k2) {
                        assert(self.spec_loans().index(k2) == pre.spec_loans().index(k2));
                    }
                }
            }
        }
        Ok(transfers)
    }

    /// What `borrow` decides: accepted, or the error that rejects it.
    pub open spec fn borrow_decision(
        pre: P2PLendingContract,
        loan_key: u64,
        borrower: Address,
        auths: Seq<Address>,
    ) -> Result<(), Error> {
        if !pre.spec_loans().contains_key(loan_key) {
            Err(Error::LoanNotExist)
        } else if !auths.contains(borrower) {
            Err(Error::NotAuthorized)
        } else {
            let loan = pre.spec_loans()[loan_key];
            if loan.status != LoanStatus::WaitingForBorrower {
                Err(Error::BorrowingError)
            } else if match loan.borrower {
                Some(b0) => b0 != borrower,
                None => false,
            } {
                Err(Error::InvalidBorrower)
            } else if loan.lender == Some(borrower) {
                Err(Error::BorrowingError)
            } else {
                Ok(())
            }
        }
    }

    /// The movements `borrow` asks of the host: the escrowed principal out
    /// to the borrower, then the collateral (if any) into custody.
    pub open spec fn borrow_transfers(
        pre: P2PLendingContract,
        loan: LoanV,
        borrower: Address,
    ) -> Seq<TransferAction> {
        let principal = seq![
            TransferAction {
                token: loan.loan_asset,
                from: pre.contract_address,
                to: borrower,
                amount: loan.loan_amount,
            },
        ];
        match loan.collateral {
            Some(c) => principal + seq![
                TransferAction {
                    token: c.asset_contract,
                    from: borrower,
                    to: pre.contract_address,
                    amount: c.amount,
                },
            ],
            None => principal,
        }
    }

    /// Funds a waiting-for-borrower loan: the authorized caller becomes the
    /// borrower, the escrowed principal is paid out to them, their
    /// collateral (if any) moves into custody, and the loan goes in
    /// progress.
    pub fn borrow(&mut self, loan_key: u64, borrower: Address, now: u64, auths: &Vec<Address>)
        -> (r: Result<Vec<TransferAction>, Error>)
        requires
            old(self).wf(),
        ensures
            final(self).wf(),
            final(self).contract_address == old(self).contract_address,
            r matches Err(e) ==> Self::borrow_decision(*old(self), loan_key, borrower, auths@)
                == Err::<(), Error>(e) && *final(self) == *old(self),
            r matches Ok(tr) ==> {
                let loan = old(self).spec_loans()[loan_key];
                &&& Self::borrow_decision(*old(self), loan_key, borrower, auths@) is Ok
                &&& final(self).spec_loans() == old(self).spec_loans().insert(
                    loan_key,
                    Self::funded_by_borrower(loan, borrower, now),
                )
                &&& final(self).spec_list(borrower) == list_add(
                    old(self).spec_list(borrower),
                    loan_key,
                )
                &&& forall|u: Address|
                    u != borrower ==> final(self).spec_list(u) == old(self).spec_list(u)
                &&& forall|u: Address| #[trigger] final(self).spec_sheet(u) == old(self).spec_sheet(u)
                &&& tr@ == Self::borrow_transfers(*old(self), loan, borrower)
            },
    {
        let loan_ref = match self.loans.get(&loan_key) {
            Some(l) => l,
            None => {
                return Err(Error::LoanNotExist);
            },
        };
        if !is_authorized(auths, borrower) {
            return Err(Error::NotAuthorized);
        }
        match loan_ref.status {
            LoanStatus::WaitingForBorrower => {},
            _ => {
                return Err(Error::BorrowingError);
            },
        }
        if let Some(reserved) = loan_ref.borrower {
            if reserved != borrower {
                return Err(Error::InvalidBorrower);
            }
        }
        let lender = match loan_ref.lender {
            Some(l) => l,
            None => {
                proof {
                    assert(false);
                }
                return Err(Error::InvalidLender);
            },
        };
        if lender == borrower {
            return Err(Error::BorrowingError);
        }
        let mut transfers: Vec<TransferAction> = Vec::new();
        transfers.push(
            TransferAction {
                token: loan_ref.loan_asset,
                from: self.contract_address,
                to: borrower,
                amount: loan_ref.loan_amount,
            },
        );
        if let Some(collateral) = &loan_ref.collateral {
            transfers.push(
                TransferAction {
                    token: collateral.asset_contract,
                    from: borrower,
                    to: self.contract_address,
                    amount: collateral.amount,
                },
            );
        }
        let mut updated = dup_loan(loan_ref);
        updated.borrower = Some(borrower);
        updated.timestamp = now;
        updated.status = LoanStatus::InProgress;
        let ghost pre = *self;
        self.loans.insert(loan_key, updated);
        proof {
            assert(self.spec_list(borrower) == pre.spec_list(borrower));
            assert(no_dups(pre.spec_list(borrower)));
        }
        self.modify_loan_list(borrower, loan_key, true);
        proof {
            assert(updated@ =~= Self::funded_by_borrower(pre.spec_loans()[loan_key], borrower, now));
            assert(self.spec_loans() =~= pre.spec_loans().insert(loan_key, updated@));
            assert(transfers@ =~= Self::borrow_transfers(pre, pre.spec_loans()[loan_key], borrower));
            assert forall|u: Address| no_dups(#[trigger] self.spec_list(u)) by {
                if u != borrower {
                    assert(self.spec_list(u) == pre.spec_list(u));
                    assert(no_dups(pre.spec_list(u)));
                }
            }
            assert(forall|k: u64|
                #[trigger] self.spec_loans().contains_key(k) ==> self.spec_loans().index(
                    k,
                ).well_formed());
            assert forall|u: Address, k2: u64|
                self.spec_list(u).contains(k2) <==> (self.spec_loans().contains_key(k2)
                    && registered(self.spec_loans().index(k2), u)) by {
                lemma_list_add_contains(pre.spec_list(borrower), loan_key);
                assert(self.spec_list(borrower) == list_add(pre.spec_list(borrower), loan_key));
                if u != borrower {
                    assert(self.spec_list(u) == pre.spec_list(u));
                }
                assert(pre.spec_list(u).contains(k2) <==> (pre.spec_loans().contains_key(k2)
                    && registered(pre.spec_loans().index(k2), u)));
                if k2 == loan_key {
                    assert(pre.spec_loans().contains_key(loan_key));
                    assert(self.spec_loans().index(loan_key) == updated@);
                    assert(registered(pre.spec_loans().index(loan_key), u) == (u == lender));
                    assert(registered(updated@, u) == (u == borrower || u == lender));
                } else {
                    assert(self.spec_loans().contains_key(k2) == pre.spec_loans().contains_key(
                        k2,
                    ));
                    if pre.spec_loans().contains_key(k2) {
                        assert(self.spec_loans().index(k2) == pre.spec_loans().index(k2));
                    }
                }
            }
        }
        Ok(transfers)
    }

    /// What `repay` decides: accepted, or the error that rejects it.
    pub open spec fn repay_decision(
        pre: P2PLendingContract,
        loan_key: u64,
        user: Address,
        auths: Seq<Address>,
    ) -> Result<(), Error> {
        if !pre.spec_loans().contains_key(loan_key) {
            Err(Error::LoanNotExist)
        } else if !auths.contains(user) {
            Err(Error::NotAuthorized)
        } else {
            let loan = pre.spec_loans()[loan_key];
            if loan.status != LoanStatus::InProgress {
                Err(Error::LoanNotInProgress)
            } else if loan.lender is None {
                Err(Error::InvalidLender)
            } else if loan.borrower is None {
                Err(Error::InvalidBorrower)
            } else {
                Ok(())
            }
        }
    }

    /// The machine limits under which a repayment can be computed in
    /// 128-bit arithmetic: the interest formula stays in range and both
    /// escrow credits fit.
    pub open spec fn repay_ready(
        pre: P2PLendingContract,
        loan_key: u64,
        user: Address,
        now: u64,
        auths: Seq<Address>,
    ) -> bool {
        Self::repay_decision(pre, loan_key, user, auths) is Ok ==> {
            let loan = pre.spec_loans()[loan_key];
            let total = spec_interest(loan, now) + loan.loan_amount;
            &&& now >= loan.timestamp
            &&& interest_in_range(loan, now)
            &&& i128::MIN <= total <= i128::MAX
            &&& i128::MIN <= pre.spec_balance(loan.lender->Some_0, loan.loan_asset) + total
                <= i128::MAX
            &&& match loan.collateral {
                Some(c) => i128::MIN <= pre.spec_balance(loan.borrower->Some_0, c.asset_contract)
                    + c.amount <= i128::MAX,
                None => true,
            }
        }
    }

    /// A user's claimable balance for one asset, zero when unlisted.
    fn read_balance(&self, u: Address, t: Address) -> (b: i128)
        ensures
            b == self.spec_balance(u, t),
    {
        match self.balances.get(&u) {
            Some(sheet) => match sheet.get(&t) {
                Some(v) => *v,
                None => 0,
            },
            None => 0,
        }
    }

    /// Tests `repay_ready` at run time, so an embedding can check the
    /// machine limits before settling a loan.
    pub fn repay_fits(&self, loan_key: u64, user: Address, now: u64, auths: &Vec<Address>) -> (b:
        bool)
        ensures
            b == Self::repay_ready(*self, loan_key, user, now, auths@),
    {
        let loan_ref = match self.loans.get(&loan_key) {
            Some(l) => l,
            None => {
                return true;
            },
        };
        if !is_authorized(auths, user) {
            return true;
        }
        match loan_ref.status {
            LoanStatus::InProgress => {},
            _ => {
                return true;
            },
        }
        let lender = match loan_ref.lender {
            Some(l) => l,
            None => {
                return true;
            },
        };
        let borrower = match loan_ref.borrower {
            Some(b) => b,
            None => {
                return true;
            },
        };
        if now < loan_ref.timestamp {
            return false;
        }
        if !interest_fits(loan_ref, now) {
            return false;
        }
        let interest = calculate_interest(loan_ref, now);
        let total = match interest.checked_add(loan_ref.loan_amount) {
            Some(t) => t,
            None => {
                return false;
            },
        };
        if self.read_balance(lender, loan_ref.loan_asset).checked_add(total).is_none() {
            return false;
        }
        match &loan_ref.collateral {
            Some(c) => self.read_balance(borrower, c.asset_contract).checked_add(c.amount).is_some(),
            None => true,
        }
    }

    /// Settles an in-progress loan: any authorized caller pays principal
    /// plus accrued interest into the lender's escrow, the collateral (if
    /// any) is credited from custody to the borrower's escrow, the key
    /// leaves both parties' indices, and the record is deleted.
    pub fn repay(&mut self, loan_key: u64, user: Address, now: u64, auths: &Vec<Address>) -> (r:
        Result<Vec<TransferAction>, Error>)
        requires
            old(self).wf(),
            Self::repay_ready(*old(self), loan_key, user, now, auths@),
        ensures
            final(self).wf(),
            final(self).contract_address == old(self).contract_address,
            r matches Err(e) ==> Self::repay_decision(*old(self), loan_key, user, auths@) == Err::<
                (),
                Error,
            >(e) && *final(self) == *old(self),
            r matches Ok(tr) ==> {
                let loan = old(self).spec_loans()[loan_key];
                let l = loan.lender->Some_0;
                let b = loan.borrower->Some_0;
                let total = spec_interest(loan, now) + loan.loan_amount;
                &&& Self::repay_decision(*old(self), loan_key, user, auths@) is Ok
                &&& final(self).spec_loans() == old(self).spec_loans().remove(loan_key)
                &&& final(self).spec_sheet(l) == old(self).spec_sheet(l).insert(
                    loan.loan_asset,
                    (old(self).spec_balance(l, loan.loan_asset) + total) as i128,
                )
                &&& match loan.collateral {
                    Some(c) => final(self).spec_sheet(b) == old(self).spec_sheet(b).insert(
                        c.asset_contract,
                        (old(self).spec_balance(b, c.asset_contract) + c.amount) as i128,
                    ),
                    None => final(self).spec_sheet(b) == old(self).spec_sheet(b),
                }
                &&& forall|u: Address|
                    u != l && u != b ==> final(self).spec_sheet(u) == old(self).spec_sheet(u)
                &&& final(self).spec_list(l) == list_remove(old(self).spec_list(l), loan_key)
                &&& final(self).spec_list(b) == list_remove(old(self).spec_list(b), loan_key)
                &&& !final(self).spec_list(l).contains(loan_key)
                &&& !final(self).spec_list(b).contains(loan_key)
                &&& forall|x: u64|
                    x != loan_key ==> final(self).spec_list(l).contains(x) == old(self).spec_list(
                        l,
                    ).contains(x)
                &&& forall|x: u64|
                    x != loan_key ==> final(self).spec_list(b).contains(x) == old(self).spec_list(
                        b,
                    ).contains(x)
                &&& forall|u: Address|
                    u != l && u != b ==> final(self).spec_list(u) == old(self).spec_list(u)
                &&& tr@ == if user != old(self).contract_address {
                    seq![
                        TransferAction {
                            token: loan.loan_asset,
                            from: user,
                            to: old(self).contract_address,
                            amount: total as i128,
                        },
                    ]
                } else {
                    Seq::<TransferAction>::empty()
                }
            },
    {
        let loan_ref = match self.loans.get(&loan_key) {
            Some(l) => l,
            None => {
                return Err(Error::LoanNotExist);
            },
        };
        if !is_authorized(auths, user) {
            return Err(Error::NotAuthorized);
        }
        match loan_ref.status {
            LoanStatus::InProgress => {},
            _ => {
                return Err(Error::LoanNotInProgress);
            },
        }
        let lender = match loan_ref.lender {
            Some(l) => l,
            None => {
                return Err(Error::InvalidLender);
            },
        };
        let borrower = match loan_ref.borrower {
            Some(b) => b,
            None => {
                return Err(Error::InvalidBorrower);
            },
        };
        let interest = calculate_interest(loan_ref, now);
        let total = interest + loan_ref.loan_amount;
        let loan_asset = loan_ref.loan_asset;
        let col: Option<(Address, i128)> = match &loan_ref.collateral {
            Some(c) => Some((c.asset_contract, c.amount)),
            None => None,
        };
        let ghost pre = *self;
        let mut transfers: Vec<TransferAction> = Vec::new();
        match self.create_claimable_balance(loan_asset, user, lender, total) {
            Some(t) => transfers.push(t),
            None => {},
        }
        if let Some((col_asset, col_amount)) = col {
            let own = self.contract_address;
            proof {
                assert(self.spec_balance(borrower, col_asset) == pre.spec_balance(
                    borrower,
                    col_asset,
                ));
            }
            let t2 = self.create_claimable_balance(col_asset, own, borrower, col_amount);
            proof {
                assert(t2 is None);
            }
        }
        let ghost mid_sheets = *self;
        proof {
            assert(self.spec_list(lender) == pre.spec_list(lender));
            assert(no_dups(pre.spec_list(lender)));
        }
        self.modify_loan_list(lender, loan_key, false);
        let ghost mid_l = *self;
        proof {
            assert(self.spec_list(borrower) == mid_sheets.spec_list(borrower));
            assert(mid_sheets.spec_list(borrower) == pre.spec_list(borrower));
            assert(no_dups(pre.spec_list(borrower)));
        }
        self.modify_loan_list(borrower, loan_key, false);
        let ghost mid_b = *self;
        self.loans.remove(&loan_key);
        proof {
            assert(self.spec_loans() =~= pre.spec_loans().remove(loan_key));
            if user != pre.contract_address {
                assert(transfers@ =~= seq![
                    TransferAction {
                        token: loan_asset,
                        from: user,
                        to: pre.contract_address,
                        amount: total,
                    },
                ]);
            } else {
                assert(transfers@ =~= Seq::<TransferAction>::empty());
            }
            assert forall|u: Address| no_dups(#[trigger] self.spec_list(u)) by {
                assert(self.spec_list(u) == mid_b.spec_list(u));
                if u != lender && u != borrower {
                    assert(mid_b.spec_list(u) == mid_l.spec_list(u));
                    assert(mid_l.spec_list(u) == mid_sheets.spec_list(u));
                    assert(mid_sheets.spec_list(u) == pre.spec_list(u));
                    assert(no_dups(pre.spec_list(u)));
                }
            }
            assert forall|u: Address|
                u != lender && u != borrower implies #[trigger] self.spec_list(u)
                == pre.spec_list(u) by {
                assert(self.spec_list(u) == mid_b.spec_list(u));
                assert(mid_b.spec_list(u) == mid_l.spec_list(u));
                assert(mid_l.spec_list(u) == mid_sheets.spec_list(u));
                assert(mid_sheets.spec_list(u) == pre.spec_list(u));
            }
            assert(pre.spec_loans().contains_key(loan_key));
            assert(lender != borrower) by {
                assert(pre.spec_loans()[loan_key].well_formed());
            }
            assert(self.spec_list(borrower) == mid_b.spec_list(borrower));
            assert(mid_b.spec_list(borrower) == list_remove(mid_l.spec_list(borrower), loan_key));
            assert(self.spec_list(lender) == mid_b.spec_list(lender));
            assert(mid_b.spec_list(lender) == mid_l.spec_list(lender));
            assert(mid_l.spec_list(lender) == list_remove(mid_sheets.spec_list(lender), loan_key));
            assert forall|u: Address| #[trigger] self.spec_sheet(u) == mid_sheets.spec_sheet(
                u,
            ) by {
                assert(self.spec_sheet(u) == mid_b.spec_sheet(u));
                assert(mid_b.spec_sheet(u) == mid_l.spec_sheet(u));
                assert(mid_l.spec_sheet(u) == mid_sheets.spec_sheet(u));
            }
            assert(forall|k: u64|
                #[trigger] self.spec_loans().contains_key(k) ==> self.spec_loans().index(
                    k,
                ).well_formed());
            assert forall|u: Address, k2: u64|
                self.spec_list(u).contains(k2) <==> (self.spec_loans().contains_key(k2)
                    && registered(self.spec_loans().index(k2), u)) by {
                if u != lender && u != borrower {
                    assert(self.spec_list(u) == pre.spec_list(u));
                }
                assert(pre.spec_list(u).contains(k2) <==> (pre.spec_loans().contains_key(k2)
                    && registered(pre.spec_loans().index(k2), u)));
                if k2 == loan_key {
                    assert(!self.spec_loans().contains_key(loan_key));
                    assert(registered(pre.spec_loans().index(loan_key), u) == (u == lender || u
                        == borrower));
                    assert(!self.spec_list(lender).contains(loan_key));
                    assert(!self.spec_list(borrower).contains(loan_key));
                } else {
                    assert(self.spec_loans().contains_key(k2) == pre.spec_loans().contains_key(
                        k2,
                    ));
                    if pre.spec_loans().contains_key(k2) {
                        assert(self.spec_loans().index(k2) == pre.spec_loans().index(k2));
                    }
                    assert(self.spec_list(lender).contains(k2) == pre.spec_list(lender).contains(
                        k2,
                    ));
                    assert(self.spec_list(borrower).contains(k2) == pre.spec_list(
                        borrower,
                    ).contains(k2));
                }
            }
        }
        Ok(transfers)
    }

    /// What `seize` decides: accepted, or the error that rejects it —
    /// including any oracle failure and "not seizable".
    pub open spec fn seize_decision(
        pre: P2PLendingContract,
        loan_key: u64,
        now: u64,
        book: Seq<PriceEntry>,
        auths: Seq<Address>,
    ) -> Result<(), Error> {
        if !pre.spec_loans().contains_key(loan_key) {
            Err(Error::LoanNotExist)
        } else {
            let loan = pre.spec_loans()[loan_key];
            if loan.status != LoanStatus::InProgress {
                Err(Error::LoanNotInProgress)
            } else if loan.collateral is None {
                Err(Error::InvalidCollateral)
            } else if loan.lender is None {
                Err(Error::InvalidLender)
            } else if loan.borrower is None {
                Err(Error::InvalidBorrower)
            } else if !auths.contains(loan.lender->Some_0) {
                Err(Error::NotAuthorized)
            } else {
                match spec_seizable(loan.collateral->Some_0.seize_conditions, loan, now, book) {
                    Err(e) => Err(e),
                    Ok(false) => Err(Error::CollateralNotSeizable),
                    Ok(true) => Ok(()),
                }
            }
        }
    }

    /// The machine limits under which a seizure can be recorded: the clock
    /// has not run backwards past the loan's start, and the lender's escrow
    /// credit fits.
    pub open spec fn seize_ready(
        pre: P2PLendingContract,
        loan_key: u64,
        now: u64,
    ) -> bool {
        pre.spec_loans().contains_key(loan_key) ==> {
            let loan = pre.spec_loans()[loan_key];
            loan.status == LoanStatus::InProgress ==> {
                &&& now >= loan.timestamp
                &&& match loan.collateral {
                    Some(c) => match loan.lender {
                        Some(l) => i128::MIN <= pre.spec_balance(l, c.asset_contract) + c.amount
                            <= i128::MAX,
                        None => true,
                    },
                    None => true,
                }
            }
        }
    }

    /// Tests `seize_ready` at run time, so an embedding can check the
    /// machine limits before attempting a seizure.
    pub fn seize_fits(&self, loan_key: u64, now: u64) -> (b: bool)
        ensures
            b == Self::seize_ready(*self, loan_key, now),
    {
        let loan_ref = match self.loans.get(&loan_key) {
            Some(l) => l,
            None => {
                return true;
            },
        };
        match loan_ref.status {
            LoanStatus::InProgress => {},
            _ => {
                return true;
            },
        }
        if now < loan_ref.timestamp {
            return false;
        }
        match (&loan_ref.collateral, loan_ref.lender) {
            (Some(c), Some(l)) => self.read_balance(l, c.asset_contract).checked_add(
                c.amount,
            ).is_some(),
            _ => true,
        }
    }

    /// Repossesses the collateral of an in-progress loan: only the lender
    /// may trigger it, and only when a seizure condition holds. The
    /// collateral is credited from custody to the lender's escrow, the key
    /// leaves both parties' indices, and the record is deleted.
    pub fn seize(&mut self, loan_key: u64, now: u64, book: &Vec<PriceEntry>, auths: &Vec<Address>)
        -> (r: Result<Vec<TransferAction>, Error>)
        requires
            old(self).wf(),
            Self::seize_ready(*old(self), loan_key, now),
        ensures
            final(self).wf(),
            final(self).contract_address == old(self).contract_address,
            r matches Err(e) ==> Self::seize_decision(*old(self), loan_key, now, book@, auths@)
                == Err::<(), Error>(e) && *final(self) == *old(self),
            r matches Ok(tr) ==> {
                let loan = old(self).spec_loans()[loan_key];
                let l = loan.lender->Some_0;
                let b = loan.borrower->Some_0;
                let c = loan.collateral->Some_0;
                &&& Self::seize_decision(*old(self), loan_key, now, book@, auths@) is Ok
                &&& final(self).spec_loans() == old(self).spec_loans().remove(loan_key)
                &&& final(self).spec_sheet(l) == old(self).spec_sheet(l).insert(
                    c.asset_contract,
                    (old(self).spec_balance(l, c.asset_contract) + c.amount) as i128,
                )
                &&& forall|u: Address|
                    u != l ==> final(self).spec_sheet(u) == old(self).spec_sheet(u)
                &&& final(self).spec_list(l) == list_remove(old(self).spec_list(l), loan_key)
                &&& final(self).spec_list(b) == list_remove(old(self).spec_list(b), loan_key)
                &&& !final(self).spec_list(l).contains(loan_key)
                &&& !final(self).spec_list(b).contains(loan_key)
                &&& forall|x: u64|
                    x != loan_key ==> final(self).spec_list(l).contains(x) == old(self).spec_list(
                        l,
                    ).contains(x)
                &&& forall|x: u64|
                    x != loan_key ==> final(self).spec_list(b).contains(x) == old(self).spec_list(
                        b,
                    ).contains(x)
                &&& forall|u: Address|
                    u != l && u != b ==> final(self).spec_list(u) == old(self).spec_list(u)
                &&& tr@ == Seq::<TransferAction>::empty()
            },
    {
        let loan_ref = match self.loans.get(&loan_key) {
            Some(l) => l,
            None => {
                return Err(Error::LoanNotExist);
            },
        };
        match loan_ref.status {
            LoanStatus::InProgress => {},
            _ => {
                return Err(Error::LoanNotInProgress);
            },
        }
        let (col_asset, col_amount) = match &loan_ref.collateral {
            Some(c) => (c.asset_contract, c.amount),
            None => {
                return Err(Error::InvalidCollateral);
            },
        };
        let lender = match loan_ref.lender {
            Some(l) => l,
            None => {
                return Err(Error::InvalidLender);
            },
        };
        let borrower = match loan_ref.borrower {
            Some(b) => b,
            None => {
                return Err(Error::InvalidBorrower);
            },
        };
        if !is_authorized(auths, lender) {
            return Err(Error::NotAuthorized);
        }
        let collateral = match &loan_ref.collateral {
            Some(c) => c,
            None => {
                proof {
                    assert(false);
                }
                return Err(Error::InvalidCollateral);
            },
        };
        proof {
            assert(collateral@.resolvable());
        }
        match collateral.seizable(loan_ref, now, book) {
            Err(e) => {
                return Err(e);
            },
            Ok(false) => {
                return Err(Error::CollateralNotSeizable);
            },
            Ok(true) => {},
        }
        let ghost pre = *self;
        let own = self.contract_address;
        let t = self.create_claimable_balance(col_asset, own, lender, col_amount);
        let ghost mid_sheets = *self;
        proof {
            assert(t is None);
            assert(self.spec_list(lender) == pre.spec_list(lender));
            assert(no_dups(pre.spec_list(lender)));
        }
        self.modify_loan_list(lender, loan_key, false);
        let ghost mid_l = *self;
        proof {
            assert(self.spec_list(borrower) == mid_sheets.spec_list(borrower));
            assert(mid_sheets.spec_list(borrower) == pre.spec_list(borrower));
            assert(no_dups(pre.spec_list(borrower)));
        }
        self.modify_loan_list(borrower, loan_key, false);
        let ghost mid_b = *self;
        self.loans.remove(&loan_key);
        let transfers: Vec<TransferAction> = Vec::new();
        proof {
            assert(self.spec_loans() =~= pre.spec_loans().remove(loan_key));
            assert forall|u: Address| no_dups(#[trigger] self.spec_list(u)) by {
                assert(self.spec_list(u) == mid_b.spec_list(u));
                if u != lender && u != borrower {
                    assert(mid_b.spec_list(u) == mid_l.spec_list(u));
                    assert(mid_l.spec_list(u) == mid_sheets.spec_list(u));
                    assert(mid_sheets.spec_list(u) == pre.spec_list(u));
                    assert(no_dups(pre.spec_list(u)));
                }
            }
            assert forall|u: Address|
                u != lender && u != borrower implies #[trigger] self.spec_list(u)
                == pre.spec_list(u) by {
                assert(self.spec_list(u) == mid_b.spec_list(u));
                assert(mid_b.spec_list(u) == mid_l.spec_list(u));
                assert(mid_l.spec_list(u) == mid_sheets.spec_list(u));
                assert(mid_sheets.spec_list(u) == pre.spec_list(u));
            }
            assert(pre.spec_loans().contains_key(loan_key));
            assert(lender != borrower) by {
                assert(pre.spec_loans()[loan_key].well_formed());
            }
            assert(self.spec_list(borrower) == mid_b.spec_list(borrower));
            assert(mid_b.spec_list(borrower) == list_remove(mid_l.spec_list(borrower), loan_key));
            assert(self.spec_list(lender) == mid_b.spec_list(lender));
            assert(mid_b.spec_list(lender) == mid_l.spec_list(lender));
            assert(mid_l.spec_list(lender) == list_remove(mid_sheets.spec_list(lender), loan_key));
            assert forall|u: Address| #[trigger] self.spec_sheet(u) == mid_sheets.spec_sheet(
                u,
            ) by {
                assert(self.spec_sheet(u) == mid_b.spec_sheet(u));
                assert(mid_b.spec_sheet(u) == mid_l.spec_sheet(u));
                assert(mid_l.spec_sheet(u) == mid_sheets.spec_sheet(u));
            }
            assert(forall|k: u64|
                #[trigger] self.spec_loans().contains_key(k) ==> self.spec_loans().index(
                    k,
                ).well_formed());
            assert forall|u: Address, k2: u64|
                self.spec_list(u).contains(k2) <==> (self.spec_loans().contains_key(k2)
                    && registered(self.spec_loans().index(k2), u)) by {
                if u != lender && u != borrower {
                    assert(self.spec_list(u) == pre.spec_list(u));
                }
                assert(pre.spec_list(u).contains(k2) <==> (pre.spec_loans().contains_key(k2)
                    && registered(pre.spec_loans().index(k2), u)));
                if k2 == loan_key {
                    assert(!self.spec_loans().contains_key(loan_key));
                    assert(registered(pre.spec_loans().index(loan_key), u) == (u == lender || u
                        == borrower));
                    assert(!self.spec_list(lender).contains(loan_key));
                    assert(!self.spec_list(borrower).contains(loan_key));
                } else {
                    assert(self.spec_loans().contains_key(k2) == pre.spec_loans().contains_key(
                        k2,
                    ));
                    if pre.spec_loans().contains_key(k2) {
                        assert(self.spec_loans().index(k2) == pre.spec_loans().index(k2));
                    }
                    assert(self.spec_list(lender).contains(k2) == pre.spec_list(lender).contains(
                        k2,
                    ));
                    assert(self.spec_list(borrower).contains(k2) == pre.spec_list(
                        borrower,
                    ).contains(k2));
                }
            }
        }
        Ok(transfers)
    }

    /// Pulls a user's whole claimable balance for one asset out of escrow.
    /// A zero (or absent) balance is refused; a successful withdrawal
    /// removes the asset from the user's sheet entirely.
    pub fn withdraw(&mut self, user: Address, token: Address) -> (r: Result<TransferAction, Error>)
        requires
            old(self).wf(),
        ensures
            final(self).wf(),
            final(self).contract_address == old(self).contract_address,
            r matches Err(e) ==> e == Error::NotAuthorized && old(self).spec_balance(user, token)
                == 0 && *final(self) == *old(self),
            r matches Ok(t) ==> {
                &&& old(self).spec_balance(user, token) != 0
                &&& t == (TransferAction {
                    token,
                    from: old(self).contract_address,
                    to: user,
                    amount: old(self).spec_balance(user, token),
                })
                &&& final(self).spec_sheet(user) == old(self).spec_sheet(user).remove(token)
                &&& forall|u: Address|
                    u != user ==> final(self).spec_sheet(u) == old(self).spec_sheet(u)
                &&& final(self).loans == old(self).loans
                &&& final(self).loan_lists == old(self).loan_lists
            },
    {
        let balance: i128 = match self.balances.get(&user) {
            Some(sheet) => match sheet.get(&token) {
                Some(v) => *v,
                None => 0,
            },
            None => 0,
        };
        if balance == 0 {
            return Err(Error::NotAuthorized);
        }
        let mut sheet: HashMap<Address, i128> = match self.balances.remove(&user) {
            Some(s) => s,
            None => {
                proof {
                    assert(false);
                }
                HashMap::new()
            },
        };
        sheet.remove(&token);
        self.balances.insert(user, sheet);
        proof {
            assert(self.spec_loans() =~= old(self).spec_loans());
            assert forall|u: Address| no_dups(#[trigger] self.spec_list(u)) by {
                assert(self.spec_list(u) == old(self).spec_list(u));
                assert(no_dups(old(self).spec_list(u)));
            }
            assert forall|u: Address, k2: u64|
                self.spec_list(u).contains(k2) <==> (self.spec_loans().contains_key(k2)
                    && registered(self.spec_loans().index(k2), u)) by {
                assert(self.spec_list(u) == old(self).spec_list(u));
                assert(old(self).spec_list(u).contains(k2) <==> (old(
                    self,
                ).spec_loans().contains_key(k2) && registered(
                    old(self).spec_loans().index(k2),
                    u,
                )));
            }
        }
        Ok(TransferAction { token, from: self.contract_address, to: user, amount: balance })
    }

    /// The stored record under `loan_key`, or `LoanNotExist`.
    pub fn get_loan(&self, loan_key: u64) -> (r: Result<Loan, Error>)
        ensures
            match r {
                Ok(l) => self.spec_loans().contains_key(loan_key) && l@ == self.spec_loans().index(
                    loan_key,
                ),
                Err(e) => e == Error::LoanNotExist && !self.spec_loans().contains_key(loan_key),
            },
    {
        match self.loans.get(&loan_key) {
            Some(l) => Ok(dup_loan(l)),
            None => Err(Error::LoanNotExist),
        }
    }

    /// The keys of the loans `user` currently participates in; empty when
    /// there are none. Reading mutates nothing, so two reads agree.
    pub fn get_loans(&self, user: Address) -> (r: Vec<u64>)
        ensures
            r@ == self.spec_list(user),
    {
        match self.loan_lists.get(&user) {
            Some(v) => dup_vec(v),
            None => Vec::new(),
        }
    }

    /// The interest the loan under `loan_key` has accrued at time `now`;
    /// zero for a loan not yet in progress.
    pub fn get_interest(&self, loan_key: u64, now: u64) -> (r: Result<i128, Error>)
        requires
            self.spec_loans().contains_key(loan_key) ==> interest_in_range(
                self.spec_loans()[loan_key],
                now,
            ),
        ensures
            match r {
                Ok(v) => self.spec_loans().contains_key(loan_key) && v == spec_interest(
                    self.spec_loans()[loan_key],
                    now,
                ),
                Err(e) => e == Error::LoanNotExist && !self.spec_loans().contains_key(loan_key),
            },
    {
        match self.loans.get(&loan_key) {
            Some(l) => Ok(calculate_interest(l, now)),
            None => Err(Error::LoanNotExist),
        }
    }

    /// A snapshot of `user`'s claimable balances, one amount per asset;
    /// empty when the user has none. In every run the host commits, the
    /// listed amounts are positive: each credit was matched by a transfer
    /// the host executed, and the transfer collaborator refuses
    /// non-positive amounts (see `create_claimable_balance`); a withdrawal
    /// removes its asset's entry outright rather than leaving a zero.
    pub fn get_balances(&self, user: Address) -> (r: HashMap<Address, i128>)
        ensures
            r@ == self.spec_sheet(user),
    {
        match self.balances.get(&user) {
            Some(m) => m.clone(),
            None => HashMap::new(),
        }
    }
}

} // verus!
