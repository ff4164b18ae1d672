use vstd::prelude::*;

use crate::errors::Error;
use crate::store::{copy_list, IdIndex};

verus! {

/// Lifecycle of a loan. `Pending` moves to `Approved` or `Defaulted`
/// (rejection shares the terminal status with default); `Approved` moves to
/// `Repaid` or `Defaulted`. `Repaid` and `Defaulted` are terminal.
#[derive(Clone, Copy, Debug, PartialEq, Eq, Structural)]
pub enum LoanStatus {
    Pending,
    Approved,
    Repaid,
    Defaulted,
}

/// One loan record. `interest_rate` is in basis points, frozen from the tier
/// table when the loan is requested. `collateral_stream_id` is an advisory
/// reference to a salary stream, not enforced.
#[derive(Clone, Copy, Debug, PartialEq, Eq, Structural)]
pub struct Loan {
    pub id: u32,
    pub borrower: u64,
    pub amount: i128,
    pub status: LoanStatus,
    pub risk_tier: u32,
    pub interest_rate: u32,
    pub created_at: u64,
    pub repaid_amount: i128,
    pub collateral_stream_id: u32,
}

/// The kind of state change a transaction records.
#[derive(Clone, Copy, Debug, PartialEq, Eq, Structural)]
pub enum TransactionType {
    LoanRequest,
    LoanApproval,
    Repayment,
    Default,
}

/// One audit-trail record. Transactions are append-only: one is written for
/// every state-changing lending call and none is ever mutated or deleted.
#[derive(Clone, Copy, Debug, PartialEq, Eq, Structural)]
pub struct Transaction {
    pub id: u32,
    pub loan_id: u32,
    pub transaction_type: TransactionType,
    pub amount: i128,
    pub timestamp: u64,
    pub borrower: u64,
}

/// Aggregate statistics over all loans, as returned by `get_loan_summary`.
#[derive(Clone, Copy, Debug, PartialEq, Eq, Structural)]
pub struct LoanSummary {
    pub total_loans: u32,
    pub total_amount: i128,
    pub pending_loans: u32,
    pub approved_loans: u32,
    pub repaid_loans: u32,
    pub defaulted_loans: u32,
    pub total_outstanding: i128,
}

/// The interest rate (basis points) the tier table assigns to `tier`, with
/// the defensive 600 bp fallback where the table has no row for it.
pub open spec fn rate_for_tier(rates: Seq<u32>, tier: u32) -> u32 {
    if 1 <= tier <= 5 && rates.len() == 5 {
        rates[tier - 1]
    } else {
        600
    }
}

/// The maximum percentage of a salary stream that may be advanced to a
/// borrower of the given tier.
pub open spec fn max_percentage_of_tier(tier: u32) -> u32 {
    if tier == 1 {
        80
    } else if tier == 2 {
        65
    } else if tier == 3 {
        50
    } else if tier == 4 {
        35
    } else {
        25
    }
}

/// Per-record validity of a loan. Statuses pin the repaid amount: a pending
/// loan has repaid nothing, an approved loan is not yet fully repaid, and a
/// repaid loan is repaid exactly in full.
pub open spec fn loan_valid(l: Loan) -> bool {
    &&& l.amount > 0
    &&& 0 <= l.repaid_amount <= l.amount
    &&& 1 <= l.risk_tier <= 5
    &&& (l.status is Pending ==> l.repaid_amount == 0)
    &&& (l.status is Approved ==> l.repaid_amount < l.amount)
    &&& (l.status is Repaid ==> l.repaid_amount == l.amount)
    &&& (l.status is Defaulted ==> l.repaid_amount < l.amount)
}

/// A loan is fully repaid exactly when its status is `Repaid`: repayment
/// stops at the principal, and the moment it reaches it the loan leaves the
/// `Approved` state for good.
pub proof fn lemma_fully_repaid_iff_repaid(l: Loan)
    requires
        loan_valid(l),
    ensures
        l.repaid_amount == l.amount <==> l.status is Repaid,
{
}

/// A single loan's contribution to `borrower`'s outstanding balance: its
/// unpaid remainder if it is an approved loan of that borrower, else zero.
pub open spec fn outstanding_contrib(l: Loan, borrower: u64) -> int {
    if l.borrower == borrower && l.status is Approved {
        l.amount - l.repaid_amount
    } else {
        0
    }
}

/// The net outstanding balance of `borrower`: the sum of `amount -
/// repaid_amount` over the borrower's approved loans.
pub open spec fn outstanding_of(loans: Seq<Loan>, borrower: u64) -> int
    decreases loans.len(),
{
    if loans.len() == 0 {
        0
    } else {
        outstanding_of(loans.drop_last(), borrower) + outstanding_contrib(
            loans.last(),
            borrower,
        )
    }
}

/// A loan's contribution to the system-wide outstanding total.
pub open spec fn approved_contrib(l: Loan) -> int {
    if l.status is Approved {
        l.amount - l.repaid_amount
    } else {
        0
    }
}

/// The outstanding total over approved loans of every borrower.
pub open spec fn total_outstanding_of(loans: Seq<Loan>) -> int
    decreases loans.len(),
{
    if loans.len() == 0 {
        0
    } else {
        total_outstanding_of(loans.drop_last()) + approved_contrib(loans.last())
    }
}

/// The sum of all loan principals.
pub open spec fn total_amount_of(loans: Seq<Loan>) -> int
    decreases loans.len(),
{
    if loans.len() == 0 {
        0
    } else {
        total_amount_of(loans.drop_last()) + loans.last().amount
    }
}

/// How many loans have the given status.
pub open spec fn count_with_status(loans: Seq<Loan>, status: LoanStatus) -> int
    decreases loans.len(),
{
    if loans.len() == 0 {
        0
    } else {
        count_with_status(loans.drop_last(), status) + if loans.last().status == status {
            1int
        } else {
            0int
        }
    }
}

/// The loans with the given status, in creation order.
pub open spec fn loans_with_status(loans: Seq<Loan>, status: LoanStatus) -> Seq<Loan>
    decreases loans.len(),
{
    if loans.len() == 0 {
        Seq::empty()
    } else {
        let prefix = loans_with_status(loans.drop_last(), status);
        if loans.last().status == status {
            prefix.push(loans.last())
        } else {
            prefix
        }
    }
}

/// The ids of `borrower`'s loans, in creation order.
pub open spec fn loan_ids_of(loans: Seq<Loan>, borrower: u64) -> Seq<u32>
    decreases loans.len(),
{
    if loans.len() == 0 {
        Seq::empty()
    } else {
        let prefix = loan_ids_of(loans.drop_last(), borrower);
        if loans.last().borrower == borrower {
            prefix.push(loans.last().id)
        } else {
            prefix
        }
    }
}

/// The transactions recorded for one loan, in order.
pub open spec fn txs_of_loan(txs: Seq<Transaction>, loan_id: u32) -> Seq<Transaction>
    decreases txs.len(),
{
    if txs.len() == 0 {
        Seq::empty()
    } else {
        let prefix = txs_of_loan(txs.drop_last(), loan_id);
        if txs.last().loan_id == loan_id {
            prefix.push(txs.last())
        } else {
            prefix
        }
    }
}

/// The transactions recorded for one borrower, in order.
pub open spec fn txs_of_borrower(txs: Seq<Transaction>, borrower: u64) -> Seq<Transaction>
    decreases txs.len(),
{
    if txs.len() == 0 {
        Seq::empty()
    } else {
        let prefix = txs_of_borrower(txs.drop_last(), borrower);
        if txs.last().borrower == borrower {
            prefix.push(txs.last())
        } else {
            prefix
        }
    }
}

/// An outstanding balance is a sum of non-negative terms.
pub proof fn lemma_outstanding_nonneg(loans: Seq<Loan>, borrower: u64)
    requires
        forall|i: int| 0 <= i < loans.len() ==> loan_valid(#[trigger] loans[i]),
    ensures
        outstanding_of(loans, borrower) >= 0,
    decreases loans.len(),
{
    if loans.len() > 0 {
        lemma_outstanding_nonneg(loans.drop_last(), borrower);
    }
}

/// An outstanding balance is at least any single loan's contribution.
pub proof fn lemma_outstanding_at_least(loans: Seq<Loan>, borrower: u64, i: int)
    requires
        forall|j: int| 0 <= j < loans.len() ==> loan_valid(#[trigger] loans[j]),
        0 <= i < loans.len(),
    ensures
        outstanding_of(loans, borrower) >= outstanding_contrib(loans[i], borrower),
    decreases loans.len(),
{
    if i == loans.len() - 1 {
        lemma_outstanding_nonneg(loans.drop_last(), borrower);
    } else {
        lemma_outstanding_at_least(loans.drop_last(), borrower, i);
    }
}

/// A balance of contributions that are all zero is zero.
proof fn lemma_outstanding_all_zero(loans: Seq<Loan>, borrower: u64)
    requires
        forall|i: int| 0 <= i < loans.len() ==> outstanding_contrib(#[trigger] loans[i], borrower)
            == 0,
    ensures
        outstanding_of(loans, borrower) == 0,
    decreases loans.len(),
{
    if loans.len() > 0 {
        lemma_outstanding_all_zero(loans.drop_last(), borrower);
    }
}

/// A borrower's outstanding balance is zero exactly when the borrower has no
/// approved loan. Together with the request and approval contracts this is
/// the one-concurrent-loan rule: while an approved loan of a borrower is
/// unresolved, no request or approval for that borrower can succeed.
pub proof fn lemma_outstanding_zero_iff_no_approved(loans: Seq<Loan>, borrower: u64)
    requires
        forall|i: int| 0 <= i < loans.len() ==> loan_valid(#[trigger] loans[i]),
    ensures
        outstanding_of(loans, borrower) == 0 <==> (forall|i: int|
            0 <= i < loans.len() ==> !((#[trigger] loans[i]).borrower == borrower
                && loans[i].status is Approved)),
{
    if forall|i: int|
        0 <= i < loans.len() ==> !((#[trigger] loans[i]).borrower == borrower
            && loans[i].status is Approved) {
        assert forall|i: int|
            0 <= i < loans.len() implies outstanding_contrib(#[trigger] loans[i], borrower)
            == 0 by {}
        lemma_outstanding_all_zero(loans, borrower);
    } else {
        let i = choose|i: int|
            0 <= i < loans.len() && (#[trigger] loans[i]).borrower == borrower
                && loans[i].status is Approved;
        assert(outstanding_contrib(loans[i], borrower) > 0);
        lemma_outstanding_at_least(loans, borrower, i);
    }
}

/// In a well-formed ledger a borrower never has two approved loans at once:
/// requesting and approving both re-validate the outstanding balance, so two
/// distinct approved loans always belong to distinct borrowers.
pub proof fn lemma_single_approved_loan(c: LendingContract, i: int, j: int)
    requires
        c.wf(),
        0 <= i < c.loans@.len(),
        0 <= j < c.loans@.len(),
        i != j,
        c.loans@[i].status is Approved,
        c.loans@[j].status is Approved,
    ensures
        c.loans@[i].borrower != c.loans@[j].borrower,
{
}

/// Appending a loan adds its principal to the total and its contribution to
/// the system-wide outstanding total, and extends the status counts.
pub proof fn lemma_totals_push(loans: Seq<Loan>, l: Loan, status: LoanStatus)
    ensures
        total_amount_of(loans.push(l)) == total_amount_of(loans) + l.amount,
        total_outstanding_of(loans.push(l)) == total_outstanding_of(loans) + approved_contrib(l),
        count_with_status(loans.push(l), status) == count_with_status(loans, status) + if l.status
            == status {
            1int
        } else {
            0int
        },
        loans_with_status(loans.push(l), status) == if l.status == status {
            loans_with_status(loans, status).push(l)
        } else {
            loans_with_status(loans, status)
        },
        loan_ids_of(loans.push(l), l.borrower) == loan_ids_of(loans, l.borrower).push(l.id),
        forall|b: u64| b != l.borrower ==> loan_ids_of(loans.push(l), b) == loan_ids_of(loans, b),
{
    assert(loans.push(l).drop_last() =~= loans);
}

/// Replacing one loan by a record with the same borrower and id leaves every
/// borrower's id list unchanged.
pub proof fn lemma_loan_ids_update(loans: Seq<Loan>, i: int, l: Loan, borrower: u64)
    requires
        0 <= i < loans.len(),
        l.borrower == loans[i].borrower,
        l.id == loans[i].id,
    ensures
        loan_ids_of(loans.update(i, l), borrower) == loan_ids_of(loans, borrower),
    decreases loans.len(),
{
    let n = loans.len() as int;
    if i == n - 1 {
        assert(loans.update(i, l).drop_last() =~= loans.drop_last());
    } else {
        assert(loans.update(i, l).drop_last() =~= loans.drop_last().update(i, l));
        lemma_loan_ids_update(loans.drop_last(), i, l, borrower);
    }
}

/// Every status count is bounded by the number of loans.
pub proof fn lemma_count_le_len(loans: Seq<Loan>, status: LoanStatus)
    ensures
        0 <= count_with_status(loans, status) <= loans.len(),
    decreases loans.len(),
{
    if loans.len() > 0 {
        lemma_count_le_len(loans.drop_last(), status);
    }
}

/// The four status counts partition the loan book: every loan has exactly
/// one status, so the counts add up to the total number of loans.
pub proof fn lemma_status_counts_partition(loans: Seq<Loan>)
    ensures
        count_with_status(loans, LoanStatus::Pending) + count_with_status(
            loans,
            LoanStatus::Approved,
        ) + count_with_status(loans, LoanStatus::Repaid) + count_with_status(
            loans,
            LoanStatus::Defaulted,
        ) == loans.len(),
    decreases loans.len(),
{
    if loans.len() > 0 {
        lemma_status_counts_partition(loans.drop_last());
    }
}

/// The system-wide outstanding total lies between zero and the sum of all
/// principals.
pub proof fn lemma_outstanding_le_total(loans: Seq<Loan>)
    requires
        forall|i: int| 0 <= i < loans.len() ==> loan_valid(#[trigger] loans[i]),
    ensures
        0 <= total_outstanding_of(loans) <= total_amount_of(loans),
    decreases loans.len(),
{
    if loans.len() > 0 {
        lemma_outstanding_le_total(loans.drop_last());
    }
}

/// The sum of principals of valid loans is non-negative.
proof fn lemma_total_amount_nonneg(loans: Seq<Loan>)
    requires
        forall|j: int| 0 <= j < loans.len() ==> loan_valid(#[trigger] loans[j]),
    ensures
        total_amount_of(loans) >= 0,
    decreases loans.len(),
{
    if loans.len() > 0 {
        lemma_total_amount_nonneg(loans.drop_last());
    }
}

/// Prefix sums of principals never exceed the full sum.
proof fn lemma_prefix_totals(loans: Seq<Loan>, i: int)
    requires
        forall|j: int| 0 <= j < loans.len() ==> loan_valid(#[trigger] loans[j]),
        0 <= i <= loans.len(),
    ensures
        0 <= total_amount_of(loans.take(i)) <= total_amount_of(loans),
    decreases loans.len() - i,
{
    assert(forall|j: int| 0 <= j < i ==> loan_valid(#[trigger] loans.take(i)[j]));
    lemma_total_amount_nonneg(loans.take(i));
    if i == loans.len() {
        assert(loans.take(i) =~= loans);
    } else {
        lemma_prefix_totals(loans, i + 1);
        assert(loan_valid(loans[i]));
        assert(loans.take(i + 1).drop_last() =~= loans.take(i));
        assert(loans.take(i + 1).last() == loans[i]);
        assert(total_amount_of(loans.take(i + 1)) == total_amount_of(loans.take(i))
            + loans[i].amount);
    }
}

/// The lending ledger: counter-assigned loan records, an append-only audit
/// trail, a borrower index and the risk tier table. Every mutating operation
/// is all-or-nothing: on an error the state is unchanged.
pub struct LendingContract {
    pub loans: Vec<Loan>,
    pub transactions: Vec<Transaction>,
    pub borrower_index: IdIndex<u32>,
    pub tier_rates: Vec<u32>,
}

impl LendingContract {
    /// Internal consistency of the ledger:
    /// - loan and transaction ids are dense, assigned by the counter from 1;
    /// - every loan record is valid (`loan_valid`);
    /// - a borrower has at most one approved loan at a time;
    /// - the borrower index lists exactly each borrower's loan ids, in
    ///   creation order;
    /// - the tier table is empty (before `initialize`) or has its five rows.
    pub open spec fn wf(self) -> bool {
        &&& self.loans@.len() <= u32::MAX
        &&& self.transactions@.len() <= u32::MAX
        &&& forall|i: int| 0 <= i < self.loans@.len() ==> (#[trigger] self.loans@[i]).id == i + 1
        &&& forall|i: int| 0 <= i < self.loans@.len() ==> loan_valid(#[trigger] self.loans@[i])
        &&& forall|i: int, j: int|
            0 <= i < self.loans@.len() && 0 <= j < self.loans@.len() && i != j && (
            #[trigger] self.loans@[i]).status is Approved && (
            #[trigger] self.loans@[j]).status is Approved ==> self.loans@[i].borrower
                != self.loans@[j].borrower
        &&& forall|i: int|
            0 <= i < self.transactions@.len() ==> (#[trigger] self.transactions@[i]).id == i + 1
        &&& self.borrower_index.wf()
        &&& forall|b: u64|
            #[trigger] self.borrower_index.ids_of(b) == loan_ids_of(self.loans@, b)
        &&& self.tier_rates@.len() == 0 || self.tier_rates@.len() == 5
    }

    /// A fresh ledger: no loans, no transactions, no tier table yet.
    pub fn new() -> (s: Self)
        ensures
            s.wf(),
            s.loans@.len() == 0,
            s.transactions@.len() == 0,
            s.tier_rates@.len() == 0,
    {
        let s = LendingContract {
            loans: Vec::new(),
            transactions: Vec::new(),
            borrower_index: IdIndex::new(),
            tier_rates: Vec::new(),
        };
        proof {
            assert(forall|b: u64|
                #[trigger] s.borrower_index.ids_of(b) == loan_ids_of(s.loans@, b));
        }
        s
    }

    /// Writes the five risk tier rows: 400, 450, 500, 550 and 600 basis
    /// points for tiers 1 through 5. Loans and transactions are untouched,
    /// so a repeated call only rewrites the same constants.
    pub fn initialize(&mut self)
        requires
            old(self).wf(),
        ensures
            final(self).wf(),
            final(self).tier_rates@ == seq![400u32, 450u32, 500u32, 550u32, 600u32],
            final(self).loans == old(self).loans,
            final(self).transactions == old(self).transactions,
            final(self).borrower_index == old(self).borrower_index,
    {
        let mut rates: Vec<u32> = Vec::new();
        rates.push(400);
        rates.push(450);
        rates.push(500);
        rates.push(550);
        rates.push(600);
        proof {
            assert(rates@ =~= seq![400u32, 450u32, 500u32, 550u32, 600u32]);
        }
        self.tier_rates = rates;
    }

    /// The interest rate the current tier table assigns to `risk_tier`.
    fn lookup_rate(&self, risk_tier: u32) -> (rate: u32)
        ensures
            rate == rate_for_tier(self.tier_rates@, risk_tier),
    {
        if 1 <= risk_tier && risk_tier <= 5 && self.tier_rates.len() == 5 {
            self.tier_rates[(risk_tier - 1) as usize]
        } else {
            600
        }
    }

    /// Returns the loan with the given id, or `NotFound`.
    pub fn get_loan(&self, loan_id: u32) -> (r: Result<Loan, Error>)
        requires
            self.wf(),
        ensures
            1 <= loan_id <= self.loans@.len() ==> r == Ok::<Loan, Error>(
                self.loans@[loan_id - 1],
            ),
            !(1 <= loan_id <= self.loans@.len()) ==> r == Err::<Loan, Error>(Error::NotFound),
    {
        if loan_id >= 1 && (loan_id as usize) <= self.loans.len() {
            Ok(self.loans[(loan_id - 1) as usize])
        } else {
            Err(Error::NotFound)
        }
    }

    /// The ids of `borrower`'s loans, in creation order.
    pub fn get_borrower_loans(&self, borrower: u64) -> (r: Vec<u32>)
        requires
            self.wf(),
        ensures
            r@ == loan_ids_of(self.loans@, borrower),
    {
        self.borrower_index.get_ids(borrower)
    }

    /// Every loan in the system, in creation order.
    pub fn get_all_loans(&self) -> (r: Vec<Loan>)
        requires
            self.wf(),
        ensures
            r@ == self.loans@,
    {
        copy_list(&self.loans)
    }

    /// Every transaction in the system, in order of recording.
    pub fn get_all_transactions(&self) -> (r: Vec<Transaction>)
        requires
            self.wf(),
        ensures
            r@ == self.transactions@,
    {
        copy_list(&self.transactions)
    }

    /// The borrower's net outstanding balance: the unpaid remainder summed
    /// over the borrower's approved loans.
    pub fn get_outstanding_loans(&self, borrower: u64) -> (r: i128)
        requires
            self.wf(),
        ensures
            r == outstanding_of(self.loans@, borrower),
            r >= 0,
    {
        let n = self.loans.len();
        let mut total: i128 = 0;
        let mut i: usize = 0;
        #[verifier::loop_isolation(false)]
        while i < n
            invariant
                i <= n,
                total == outstanding_of(self.loans@.take(i as int), borrower),
                total >= 0,
            decreases n - i,
        {
            let loan = self.loans[i];
            if loan.borrower == borrower && matches!(loan.status, LoanStatus::Approved) {
                proof {
                    // At most one approved loan per borrower: every earlier
                    // contribution is zero, so the running total is zero and
                    // the addition cannot overflow.
                    assert forall|j: int| 0 <= j < i implies outstanding_contrib(
                        #[trigger] self.loans@.take(i as int)[j],
                        borrower,
                    ) == 0 by {
                        assert(self.loans@[j] == self.loans@.take(i as int)[j]);
                    }
                    lemma_outstanding_all_zero(self.loans@.take(i as int), borrower);
                }
                total = total + (loan.amount - loan.repaid_amount);
            }
            proof {
                assert(self.loans@.take(i + 1).drop_last() =~= self.loans@.take(i as int));
                assert(self.loans@.take(i + 1).last() == self.loans@[i as int]);
            }
            i += 1;
        }
        proof {
            assert(self.loans@.take(n as int) =~= self.loans@);
        }
        total
    }

    /// Appends one audit record under the next transaction id. Only the
    /// transaction log changes.
    fn record_transaction(
        &mut self,
        loan_id: u32,
        transaction_type: TransactionType,
        amount: i128,
        timestamp: u64,
        borrower: u64,
    )
        requires
            old(self).transactions@.len() < u32::MAX,
        ensures
            final(self).transactions@ == old(self).transactions@.push(
                Transaction {
                    id: (old(self).transactions@.len() + 1) as u32,
                    loan_id,
                    transaction_type,
                    amount,
                    timestamp,
                    borrower,
                },
            ),
            final(self).loans == old(self).loans,
            final(self).borrower_index == old(self).borrower_index,
            final(self).tier_rates == old(self).tier_rates,
    {
        let tx_id = (self.transactions.len() + 1) as u32;
        let transaction = Transaction {
            id: tx_id,
            loan_id,
            transaction_type,
            amount,
            timestamp,
            borrower,
        };
        self.transactions.push(transaction);
    }

    /// Requests a loan with a salary stream as advisory collateral. The
    /// caller must have authorized as `borrower`; `now` is the host clock.
    ///
    /// Fails with `InvalidArgument` for a tier outside 1..=5 or a
    /// non-positive amount, and with `BusinessRuleViolation` while the
    /// borrower's outstanding balance is positive: a borrower has at most
    /// one concurrent approved loan. Otherwise the loan is stored `Pending`
    /// under the next id with its interest rate frozen from the tier table,
    /// the borrower index grows by the new id, a `LoanRequest` transaction
    /// is recorded, and the new id is returned.
    pub fn request_loan(
        &mut self,
        borrower: u64,
        amount: i128,
        risk_tier: u32,
        collateral_stream_id: u32,
        now: u64,
    ) -> (r: Result<u32, Error>)
        requires
            old(self).wf(),
            old(self).loans@.len() < u32::MAX,
            old(self).transactions@.len() < u32::MAX,
        ensures
            final(self).wf(),
            r is Err ==> *final(self) == *old(self),
            (risk_tier < 1 || risk_tier > 5) ==> r == Err::<u32, Error>(Error::InvalidArgument),
            1 <= risk_tier <= 5 && amount <= 0 ==> r == Err::<u32, Error>(Error::InvalidArgument),
            1 <= risk_tier <= 5 && amount > 0 && outstanding_of(old(self).loans@, borrower) > 0
                ==> r == Err::<u32, Error>(Error::BusinessRuleViolation),
            1 <= risk_tier <= 5 && amount > 0 && outstanding_of(old(self).loans@, borrower) <= 0
                ==> ({
                let id = (old(self).loans@.len() + 1) as u32;
                &&& r == Ok::<u32, Error>(id)
                &&& final(self).loans@ == old(self).loans@.push(
                    Loan {
                        id,
                        borrower,
                        amount,
                        status: LoanStatus::Pending,
                        risk_tier,
                        interest_rate: rate_for_tier(old(self).tier_rates@, risk_tier),
                        created_at: now,
                        repaid_amount: 0,
                        collateral_stream_id,
                    },
                )
                &&& final(self).transactions@ == old(self).transactions@.push(
                    Transaction {
                        id: (old(self).transactions@.len() + 1) as u32,
                        loan_id: id,
                        transaction_type: TransactionType::LoanRequest,
                        amount,
                        timestamp: now,
                        borrower,
                    },
                )
                &&& final(self).tier_rates == old(self).tier_rates
            }),
    {
        if risk_tier < 1 || risk_tier > 5 {
            return Err(Error::InvalidArgument);
        }
        if amount <= 0 {
            return Err(Error::InvalidArgument);
        }
        let outstanding = self.get_outstanding_loans(borrower);
        if outstanding > 0 {
            return Err(Error::BusinessRuleViolation);
        }
        let interest_rate = self.lookup_rate(risk_tier);
        let id = (self.loans.len() + 1) as u32;
        let loan = Loan {
            id,
            borrower,
            amount,
            status: LoanStatus::Pending,
            risk_tier,
            interest_rate,
            created_at: now,
            repaid_amount: 0,
            collateral_stream_id,
        };
        self.loans.push(loan);
        self.borrower_index.push_id(borrower, id);
        self.record_transaction(id, TransactionType::LoanRequest, amount, now, borrower);
        proof {
            let ol = old(self).loans@;
            lemma_totals_push(ol, loan, LoanStatus::Pending);
            assert forall|b: u64| #[trigger] self.borrower_index.ids_of(b) == loan_ids_of(
                self.loans@,
                b,
            ) by {
                if b != borrower {
                    assert(loan_ids_of(ol.push(loan), b) == loan_ids_of(ol, b));
                }
            }
        }
        Ok(id)
    }

    /// Approves a pending loan. Any principal that authorizes may act as the
    /// admin; role enforcement is outside this core.
    ///
    /// Fails with `NotFound` for an unknown id, `InvalidState` unless the
    /// loan is pending, and `BusinessRuleViolation` while the borrower's
    /// outstanding balance is positive (re-validated defensively). Otherwise
    /// the loan becomes `Approved` and a `LoanApproval` transaction over the
    /// full amount is recorded.
    pub fn approve_loan(&mut self, admin: u64, loan_id: u32, now: u64) -> (r: Result<(), Error>)
        requires
            old(self).wf(),
            old(self).transactions@.len() < u32::MAX,
        ensures
            final(self).wf(),
            r is Err ==> *final(self) == *old(self),
            !(1 <= loan_id <= old(self).loans@.len()) ==> r == Err::<(), Error>(Error::NotFound),
            1 <= loan_id <= old(self).loans@.len() ==> ({
                let l = old(self).loans@[loan_id - 1];
                &&& !(l.status is Pending) ==> r == Err::<(), Error>(Error::InvalidState)
                &&& (l.status is Pending && outstanding_of(old(self).loans@, l.borrower) > 0)
                    ==> r == Err::<(), Error>(Error::BusinessRuleViolation)
                &&& (l.status is Pending && outstanding_of(old(self).loans@, l.borrower) <= 0)
                    ==> {
                    &&& r == Ok::<(), Error>(())
                    &&& final(self).loans@ == old(self).loans@.update(
                        loan_id - 1,
                        Loan { status: LoanStatus::Approved, ..l },
                    )
                    &&& final(self).transactions@ == old(self).transactions@.push(
                        Transaction {
                            id: (old(self).transactions@.len() + 1) as u32,
                            loan_id,
                            transaction_type: TransactionType::LoanApproval,
                            amount: l.amount,
                            timestamp: now,
                            borrower: l.borrower,
                        },
                    )
                    &&& final(self).tier_rates == old(self).tier_rates
                }
            }),
    {
        let loan = match self.get_loan(loan_id) {
            Ok(l) => l,
            Err(e) => {
                return Err(e);
            },
        };
        if !matches!(loan.status, LoanStatus::Pending) {
            return Err(Error::InvalidState);
        }
        let outstanding = self.get_outstanding_loans(loan.borrower);
        if outstanding > 0 {
            return Err(Error::BusinessRuleViolation);
        }
        let idx = (loan_id - 1) as usize;
        self.loans[idx].status = LoanStatus::Approved;
        self.record_transaction(
            loan_id,
            TransactionType::LoanApproval,
            loan.amount,
            now,
            loan.borrower,
        );
        proof {
            self.lemma_after_update(old(self).loans@, idx as int);
            lemma_outstanding_zero_iff_no_approved(old(self).loans@, loan.borrower);
        }
        Ok(())
    }

    /// Rejects a pending loan: it becomes `Defaulted` (rejection and default
    /// share the terminal status) and a `Default` transaction with amount 0
    /// is recorded. Any principal that authorizes may act as the admin.
    pub fn reject_loan(&mut self, admin: u64, loan_id: u32, now: u64) -> (r: Result<(), Error>)
        requires
            old(self).wf(),
            old(self).transactions@.len() < u32::MAX,
        ensures
            final(self).wf(),
            r is Err ==> *final(self) == *old(self),
            !(1 <= loan_id <= old(self).loans@.len()) ==> r == Err::<(), Error>(Error::NotFound),
            1 <= loan_id <= old(self).loans@.len() ==> ({
                let l = old(self).loans@[loan_id - 1];
                &&& !(l.status is Pending) ==> r == Err::<(), Error>(Error::InvalidState)
                &&& l.status is Pending ==> {
                    &&& r == Ok::<(), Error>(())
                    &&& final(self).loans@ == old(self).loans@.update(
                        loan_id - 1,
                        Loan { status: LoanStatus::Defaulted, ..l },
                    )
                    &&& final(self).transactions@ == old(self).transactions@.push(
                        Transaction {
                            id: (old(self).transactions@.len() + 1) as u32,
                            loan_id,
                            transaction_type: TransactionType::Default,
                            amount: 0,
                            timestamp: now,
                            borrower: l.borrower,
                        },
                    )
                    &&& final(self).tier_rates == old(self).tier_rates
                }
            }),
    {
        let loan = match self.get_loan(loan_id) {
            Ok(l) => l,
            Err(e) => {
                return Err(e);
            },
        };
        if !matches!(loan.status, LoanStatus::Pending) {
            return Err(Error::InvalidState);
        }
        let idx = (loan_id - 1) as usize;
        self.loans[idx].status = LoanStatus::Defaulted;
        self.record_transaction(loan_id, TransactionType::Default, 0, now, loan.borrower);
        proof {
            self.lemma_after_update(old(self).loans@, idx as int);
        }
        Ok(())
    }

    /// Marks an approved loan as defaulted and records a `Default`
    /// transaction with amount 0. Any principal that authorizes may act as
    /// the admin.
    pub fn mark_default(&mut self, admin: u64, loan_id: u32, now: u64) -> (r: Result<(), Error>)
        requires
            old(self).wf(),
            old(self).transactions@.len() < u32::MAX,
        ensures
            final(self).wf(),
            r is Err ==> *final(self) == *old(self),
            !(1 <= loan_id <= old(self).loans@.len()) ==> r == Err::<(), Error>(Error::NotFound),
            1 <= loan_id <= old(self).loans@.len() ==> ({
                let l = old(self).loans@[loan_id - 1];
                &&& !(l.status is Approved) ==> r == Err::<(), Error>(Error::InvalidState)
                &&& l.status is Approved ==> {
                    &&& r == Ok::<(), Error>(())
                    &&& final(self).loans@ == old(self).loans@.update(
                        loan_id - 1,
                        Loan { status: LoanStatus::Defaulted, ..l },
                    )
                    &&& final(self).transactions@ == old(self).transactions@.push(
                        Transaction {
                            id: (old(self).transactions@.len() + 1) as u32,
                            loan_id,
                            transaction_type: TransactionType::Default,
                            amount: 0,
                            timestamp: now,
                            borrower: l.borrower,
                        },
                    )
                    &&& final(self).tier_rates == old(self).tier_rates
                }
            }),
    {
        let loan = match self.get_loan(loan_id) {
            Ok(l) => l,
            Err(e) => {
                return Err(e);
            },
        };
        if !matches!(loan.status, LoanStatus::Approved) {
            return Err(Error::InvalidState);
        }
        let idx = (loan_id - 1) as usize;
        self.loans[idx].status = LoanStatus::Defaulted;
        self.record_transaction(loan_id, TransactionType::Default, 0, now, loan.borrower);
        proof {
            self.lemma_after_update(old(self).loans@, idx as int);
        }
        Ok(())
    }

    /// Repays part of an approved loan. The caller must have authorized as
    /// `borrower` and must be the loan's borrower.
    ///
    /// The collected payment is the requested amount capped at the unpaid
    /// remainder: overpayment is silently capped, never rejected, and the
    /// excess is simply not collected. A zero request collects nothing and
    /// still leaves its zero-amount mark in the audit trail; a negative one
    /// fails `InvalidArgument`, so the repaid amount never decreases and
    /// never exceeds the principal. When it reaches the principal the loan
    /// becomes `Repaid`, and repaying a repaid loan fails `InvalidState`. A
    /// `Repayment` transaction over the collected payment (not the requested
    /// amount) is recorded. Returns the collected payment.
    pub fn repay_loan(&mut self, borrower: u64, loan_id: u32, amount: i128, now: u64) -> (r:
        Result<i128, Error>)
        requires
            old(self).wf(),
            old(self).transactions@.len() < u32::MAX,
        ensures
            final(self).wf(),
            r is Err ==> *final(self) == *old(self),
            !(1 <= loan_id <= old(self).loans@.len()) ==> r == Err::<i128, Error>(
                Error::NotFound,
            ),
            1 <= loan_id <= old(self).loans@.len() ==> ({
                let l = old(self).loans@[loan_id - 1];
                &&& l.borrower != borrower ==> r == Err::<i128, Error>(Error::Unauthorized)
                &&& (l.borrower == borrower && !(l.status is Approved)) ==> r == Err::<
                    i128,
                    Error,
                >(Error::InvalidState)
                &&& (l.borrower == borrower && l.status is Approved && amount < 0) ==> r == Err::<
                    i128,
                    Error,
                >(Error::InvalidArgument)
                &&& (l.borrower == borrower && l.status is Approved && amount >= 0) ==> ({
                    let remaining = l.amount - l.repaid_amount;
                    let payment: int = if amount > remaining {
                        remaining
                    } else {
                        amount as int
                    };
                    let new_repaid = l.repaid_amount + payment;
                    let new_status = if new_repaid >= l.amount {
                        LoanStatus::Repaid
                    } else {
                        LoanStatus::Approved
                    };
                    &&& r == Ok::<i128, Error>(payment as i128)
                    &&& 0 <= payment <= amount
                    &&& l.repaid_amount <= new_repaid <= l.amount
                    &&& final(self).loans@ == old(self).loans@.update(
                        loan_id - 1,
                        Loan { repaid_amount: new_repaid as i128, status: new_status, ..l },
                    )
                    &&& final(self).transactions@ == old(self).transactions@.push(
                        Transaction {
                            id: (old(self).transactions@.len() + 1) as u32,
                            loan_id,
                            transaction_type: TransactionType::Repayment,
                            amount: payment as i128,
                            timestamp: now,
                            borrower,
                        },
                    )
                    &&& final(self).tier_rates == old(self).tier_rates
                })
            }),
    {
        let loan = match self.get_loan(loan_id) {
            Ok(l) => l,
            Err(e) => {
                return Err(e);
            },
        };
        if loan.borrower != borrower {
            return Err(Error::Unauthorized);
        }
        if !matches!(loan.status, LoanStatus::Approved) {
            return Err(Error::InvalidState);
        }
        if amount < 0 {
            return Err(Error::InvalidArgument);
        }
        let remaining = loan.amount - loan.repaid_amount;
        let payment = if amount > remaining {
            remaining
        } else {
            amount
        };
        let new_repaid = loan.repaid_amount + payment;
        let idx = (loan_id - 1) as usize;
        self.loans[idx].repaid_amount = new_repaid;
        if new_repaid >= loan.amount {
            self.loans[idx].status = LoanStatus::Repaid;
        }
        self.record_transaction(loan_id, TransactionType::Repayment, payment, now, borrower);
        proof {
            let ol = old(self).loans@;
            assert(self.loans@ =~= ol.update(idx as int, self.loans@[idx as int]));
            self.lemma_after_update(ol, idx as int);
        }
        Ok(payment)
    }

    /// The loans with the given status, in creation order.
    pub fn get_loans_by_status(&self, status: LoanStatus) -> (r: Vec<Loan>)
        requires
            self.wf(),
        ensures
            r@ == loans_with_status(self.loans@, status),
    {
        let n = self.loans.len();
        let mut r: Vec<Loan> = Vec::new();
        let mut i: usize = 0;
        #[verifier::loop_isolation(false)]
        while i < n
            invariant
                i <= n,
                r@ == loans_with_status(self.loans@.take(i as int), status),
            decreases n - i,
        {
            let loan = self.loans[i];
            if loan.status == status {
                r.push(loan);
            }
            proof {
                assert(self.loans@.take(i + 1).drop_last() =~= self.loans@.take(i as int));
                assert(self.loans@.take(i + 1).last() == self.loans@[i as int]);
            }
            i += 1;
        }
        proof {
            assert(self.loans@.take(n as int) =~= self.loans@);
        }
        r
    }

    /// The loans waiting for approval, in creation order.
    pub fn get_pending_loans(&self) -> (r: Vec<Loan>)
        requires
            self.wf(),
        ensures
            r@ == loans_with_status(self.loans@, LoanStatus::Pending),
    {
        self.get_loans_by_status(LoanStatus::Pending)
    }

    /// The transactions recorded for one loan, in order of recording.
    pub fn get_loan_transactions(&self, loan_id: u32) -> (r: Vec<Transaction>)
        requires
            self.wf(),
        ensures
            r@ == txs_of_loan(self.transactions@, loan_id),
    {
        let n = self.transactions.len();
        let mut r: Vec<Transaction> = Vec::new();
        let mut i: usize = 0;
        #[verifier::loop_isolation(false)]
        while i < n
            invariant
                i <= n,
                r@ == txs_of_loan(self.transactions@.take(i as int), loan_id),
            decreases n - i,
        {
            let tx = self.transactions[i];
            if tx.loan_id == loan_id {
                r.push(tx);
            }
            proof {
                assert(self.transactions@.take(i + 1).drop_last() =~= self.transactions@.take(
                    i as int,
                ));
                assert(self.transactions@.take(i + 1).last() == self.transactions@[i as int]);
            }
            i += 1;
        }
        proof {
            assert(self.transactions@.take(n as int) =~= self.transactions@);
        }
        r
    }

    /// The transactions recorded for one borrower, in order of recording.
    pub fn get_borrower_transactions(&self, borrower: u64) -> (r: Vec<Transaction>)
        requires
            self.wf(),
        ensures
            r@ == txs_of_borrower(self.transactions@, borrower),
    {
        let n = self.transactions.len();
        let mut r: Vec<Transaction> = Vec::new();
        let mut i: usize = 0;
        #[verifier::loop_isolation(false)]
        while i < n
            invariant
                i <= n,
                r@ == txs_of_borrower(self.transactions@.take(i as int), borrower),
            decreases n - i,
        {
            let tx = self.transactions[i];
            if tx.borrower == borrower {
                r.push(tx);
            }
            proof {
                assert(self.transactions@.take(i + 1).drop_last() =~= self.transactions@.take(
                    i as int,
                ));
                assert(self.transactions@.take(i + 1).last() == self.transactions@[i as int]);
            }
            i += 1;
        }
        proof {
            assert(self.transactions@.take(n as int) =~= self.transactions@);
        }
        r
    }

    /// Aggregates the whole loan book in one pass: the number of loans, the
    /// sum of principals, one count per status, and the outstanding total
    /// over approved loans. The counts partition the total: see
    /// `lemma_status_counts_partition`.
    pub fn get_loan_summary(&self) -> (s: LoanSummary)
        requires
            self.wf(),
            total_amount_of(self.loans@) <= i128::MAX,
        ensures
            s.total_loans == self.loans@.len(),
            s.total_amount == total_amount_of(self.loans@),
            s.pending_loans == count_with_status(self.loans@, LoanStatus::Pending),
            s.approved_loans == count_with_status(self.loans@, LoanStatus::Approved),
            s.repaid_loans == count_with_status(self.loans@, LoanStatus::Repaid),
            s.defaulted_loans == count_with_status(self.loans@, LoanStatus::Defaulted),
            s.total_outstanding == total_outstanding_of(self.loans@),
            s.total_loans == s.pending_loans + s.approved_loans + s.repaid_loans
                + s.defaulted_loans,
            0 <= s.total_outstanding <= s.total_amount,
    {
        let n = self.loans.len();
        let mut total_loans: u32 = 0;
        let mut total_amount: i128 = 0;
        let mut pending_loans: u32 = 0;
        let mut approved_loans: u32 = 0;
        let mut repaid_loans: u32 = 0;
        let mut defaulted_loans: u32 = 0;
        let mut total_outstanding: i128 = 0;
        let mut i: usize = 0;
        #[verifier::loop_isolation(false)]
        while i < n
            invariant
                i <= n,
                total_loans == i,
                total_amount == total_amount_of(self.loans@.take(i as int)),
                pending_loans == count_with_status(self.loans@.take(i as int), LoanStatus::Pending),
                approved_loans == count_with_status(
                    self.loans@.take(i as int),
                    LoanStatus::Approved,
                ),
                repaid_loans == count_with_status(self.loans@.take(i as int), LoanStatus::Repaid),
                defaulted_loans == count_with_status(
                    self.loans@.take(i as int),
                    LoanStatus::Defaulted,
                ),
                total_outstanding == total_outstanding_of(self.loans@.take(i as int)),
            decreases n - i,
        {
            proof {
                lemma_prefix_totals(self.loans@, i + 1);
                assert(forall|j: int|
                    0 <= j < i + 1 ==> loan_valid(#[trigger] self.loans@.take(i + 1)[j]));
                lemma_outstanding_le_total(self.loans@.take(i + 1));
                lemma_count_le_len(self.loans@.take(i + 1), LoanStatus::Pending);
                lemma_count_le_len(self.loans@.take(i + 1), LoanStatus::Approved);
                lemma_count_le_len(self.loans@.take(i + 1), LoanStatus::Repaid);
                lemma_count_le_len(self.loans@.take(i + 1), LoanStatus::Defaulted);
                assert(self.loans@.take(i + 1).drop_last() =~= self.loans@.take(i as int));
                assert(self.loans@.take(i + 1).last() == self.loans@[i as int]);
                lemma_outstanding_le_total(self.loans@.take(i as int));
            }
            let loan = self.loans[i];
            total_loans = total_loans + 1;
            total_amount = total_amount + loan.amount;
            match loan.status {
                LoanStatus::Pending => {
                    pending_loans = pending_loans + 1;
                },
                LoanStatus::Approved => {
                    approved_loans = approved_loans + 1;
                    total_outstanding = total_outstanding + (loan.amount - loan.repaid_amount);
                },
                LoanStatus::Repaid => {
                    repaid_loans = repaid_loans + 1;
                },
                LoanStatus::Defaulted => {
                    defaulted_loans = defaulted_loans + 1;
                },
            }
            i += 1;
        }
        proof {
            assert(self.loans@.take(n as int) =~= self.loans@);
            lemma_status_counts_partition(self.loans@);
            lemma_outstanding_le_total(self.loans@);
        }
        LoanSummary {
            total_loans,
            total_amount,
            pending_loans,
            approved_loans,
            repaid_loans,
            defaulted_loans,
            total_outstanding,
        }
    }

    /// The maximum percentage of a salary stream that may be advanced to a
    /// borrower of the given tier: 80, 65, 50, 35 and 25 for tiers 1 to 5.
    /// Fails with `InvalidArgument` for any other tier.
    pub fn get_max_loan_percentage(risk_tier: u32) -> (r: Result<u32, Error>)
        ensures
            1 <= risk_tier <= 5 ==> r == Ok::<u32, Error>(max_percentage_of_tier(risk_tier)),
            !(1 <= risk_tier <= 5) ==> r == Err::<u32, Error>(Error::InvalidArgument),
    {
        match risk_tier {
            1 => Ok(80),
            2 => Ok(65),
            3 => Ok(50),
            4 => Ok(35),
            5 => Ok(25),
            _ => Err(Error::InvalidArgument),
        }
    }

    /// The loan with the given id, the maximum advance percentage for its
    /// tier, and its transactions. Fails with `NotFound` for an unknown id.
    pub fn get_loan_details(&self, loan_id: u32) -> (r: Result<(Loan, u32, Vec<Transaction>), Error>)
        requires
            self.wf(),
        ensures
            !(1 <= loan_id <= self.loans@.len()) ==> r == Err::<(Loan, u32, Vec<Transaction>), Error>(
                Error::NotFound,
            ),
            1 <= loan_id <= self.loans@.len() ==> ({
                let l = self.loans@[loan_id - 1];
                &&& r is Ok
                &&& r matches Ok(t) ==> {
                    &&& t.0 == l
                    &&& t.1 == max_percentage_of_tier(l.risk_tier)
                    &&& t.2@ == txs_of_loan(self.transactions@, loan_id)
                }
            }),
    {
        let loan = match self.get_loan(loan_id) {
            Ok(l) => l,
            Err(e) => {
                return Err(e);
            },
        };
        let max_percentage = match Self::get_max_loan_percentage(loan.risk_tier) {
            Ok(p) => p,
            Err(e) => {
                return Err(e);
            },
        };
        let transactions = self.get_loan_transactions(loan_id);
        Ok((loan, max_percentage, transactions))
    }

    /// After replacing one loan by a record with the same id and borrower,
    /// the borrower index still matches the loan book.
    proof fn lemma_after_update(self, ol: Seq<Loan>, i: int)
        requires
            0 <= i < ol.len(),
            self.loans@ == ol.update(i, self.loans@[i]),
            self.loans@[i].borrower == ol[i].borrower,
            self.loans@[i].id == ol[i].id,
            forall|b: u64| #[trigger] self.borrower_index.ids_of(b) == loan_ids_of(ol, b),
        ensures
            forall|b: u64|
                #[trigger] self.borrower_index.ids_of(b) == loan_ids_of(self.loans@, b),
    {
        assert forall|b: u64| #[trigger] self.borrower_index.ids_of(b) == loan_ids_of(
            self.loans@,
            b,
        ) by {
            lemma_loan_ids_update(ol, i, self.loans@[i], b);
        }
    }
}

} // verus!
