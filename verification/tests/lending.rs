use stream_ledger::errors::Error;
use stream_ledger::lending::{LendingContract, LoanStatus, TransactionType};

const BORROWER: u64 = 101;
const ADMIN: u64 = 900;
const OTHER: u64 = 102;

fn fresh() -> LendingContract {
    let mut c = LendingContract::new();
    c.initialize();
    c
}

#[test]
fn test_request_loan() {
    let mut c = fresh();

    let amount = 1000i128;
    let risk_tier = 3u32;
    let stream_id = 1u32;

    let loan_id = c.request_loan(BORROWER, amount, risk_tier, stream_id, 0).unwrap();

    assert_eq!(loan_id, 1);

    let loan = c.get_loan(loan_id).unwrap();
    assert_eq!(loan.borrower, BORROWER);
    assert_eq!(loan.amount, amount);
    assert_eq!(loan.risk_tier, risk_tier);
    assert_eq!(loan.interest_rate, 500u32); // 5% for tier 3
    assert!(matches!(loan.status, LoanStatus::Pending));
}

#[test]
fn test_approve_and_repay_loan() {
    let mut c = fresh();

    let loan_id = c.request_loan(BORROWER, 1000i128, 2, 1, 0).unwrap();

    // Approve loan
    c.approve_loan(ADMIN, loan_id, 1).unwrap();
    let loan = c.get_loan(loan_id).unwrap();
    assert!(matches!(loan.status, LoanStatus::Approved));

    // Repay partial amount
    let payment = c.repay_loan(BORROWER, loan_id, 500i128, 2).unwrap();
    assert_eq!(payment, 500i128);

    let loan = c.get_loan(loan_id).unwrap();
    assert_eq!(loan.repaid_amount, 500i128);
    assert!(matches!(loan.status, LoanStatus::Approved)); // Still approved, not fully repaid

    // Repay remaining amount
    c.repay_loan(BORROWER, loan_id, 500i128, 3).unwrap();
    let loan = c.get_loan(loan_id).unwrap();
    assert!(matches!(loan.status, LoanStatus::Repaid));
}

#[test]
fn test_max_loan_percentage() {
    assert_eq!(LendingContract::get_max_loan_percentage(1).unwrap(), 80u32);
    assert_eq!(LendingContract::get_max_loan_percentage(3).unwrap(), 50u32);
    assert_eq!(LendingContract::get_max_loan_percentage(5).unwrap(), 25u32);
}

#[test]
fn test_max_loan_percentage_rejects_bad_tiers() {
    assert_eq!(LendingContract::get_max_loan_percentage(0), Err(Error::InvalidArgument));
    assert_eq!(LendingContract::get_max_loan_percentage(6), Err(Error::InvalidArgument));
    assert_eq!(LendingContract::get_max_loan_percentage(2).unwrap(), 65u32);
    assert_eq!(LendingContract::get_max_loan_percentage(4).unwrap(), 35u32);
}

#[test]
fn test_interest_rate_frozen_per_tier() {
    // Each tier's rate is taken from the table at request time.
    let expected = [(1u32, 400u32), (2, 450), (3, 500), (4, 550), (5, 600)];
    for (tier, rate) in expected {
        let mut c = fresh();
        let id = c.request_loan(BORROWER, 100, tier, 0, 0).unwrap();
        let loan = c.get_loan(id).unwrap();
        assert_eq!(loan.interest_rate, rate);
    }
}

#[test]
fn test_request_loan_validation() {
    let mut c = fresh();
    assert_eq!(c.request_loan(BORROWER, 1000, 0, 1, 0), Err(Error::InvalidArgument));
    assert_eq!(c.request_loan(BORROWER, 1000, 6, 1, 0), Err(Error::InvalidArgument));
    assert_eq!(c.request_loan(BORROWER, 0, 3, 1, 0), Err(Error::InvalidArgument));
    assert_eq!(c.request_loan(BORROWER, -5, 3, 1, 0), Err(Error::InvalidArgument));
    // A failed request leaves no trace
    assert_eq!(c.get_all_loans().len(), 0);
    assert_eq!(c.get_all_transactions().len(), 0);
}

#[test]
fn test_outstanding_loan_blocks_new_request() {
    let mut c = fresh();
    let id = c.request_loan(BORROWER, 1000, 3, 1, 0).unwrap();
    // A pending loan does not block: outstanding covers approved loans only.
    let second = c.request_loan(BORROWER, 500, 3, 1, 1).unwrap();
    assert_eq!(second, 2);
    c.approve_loan(ADMIN, id, 2).unwrap();
    assert_eq!(c.get_outstanding_loans(BORROWER), 1000);
    // Now both a new request and approving the second loan are blocked.
    assert_eq!(c.request_loan(BORROWER, 10, 1, 0, 3), Err(Error::BusinessRuleViolation));
    assert_eq!(c.approve_loan(ADMIN, second, 4), Err(Error::BusinessRuleViolation));
    // Another borrower is unaffected.
    assert!(c.request_loan(OTHER, 10, 1, 0, 5).is_ok());
    // Full repayment resolves the block.
    c.repay_loan(BORROWER, id, 1000, 6).unwrap();
    assert_eq!(c.get_outstanding_loans(BORROWER), 0);
    assert!(c.approve_loan(ADMIN, second, 7).is_ok());
}

#[test]
fn test_repay_overpayment_capped() {
    let mut c = fresh();
    let id = c.request_loan(BORROWER, 1000, 3, 1, 0).unwrap();
    assert_eq!(id, 1);
    let loan = c.get_loan(id).unwrap();
    assert_eq!(loan.interest_rate, 500);
    c.approve_loan(ADMIN, id, 1).unwrap();
    assert_eq!(c.repay_loan(BORROWER, id, 500, 2).unwrap(), 500);
    assert!(matches!(c.get_loan(id).unwrap().status, LoanStatus::Approved));
    // Overpayment is capped at the remainder, never rejected.
    assert_eq!(c.repay_loan(BORROWER, id, 700, 3).unwrap(), 500);
    let loan = c.get_loan(id).unwrap();
    assert!(matches!(loan.status, LoanStatus::Repaid));
    assert_eq!(loan.repaid_amount, loan.amount);
    // A repaid loan takes no further repayment.
    assert_eq!(c.repay_loan(BORROWER, id, 1, 4), Err(Error::InvalidState));
}

#[test]
fn test_repay_errors() {
    let mut c = fresh();
    let id = c.request_loan(BORROWER, 1000, 3, 1, 0).unwrap();
    assert_eq!(c.repay_loan(BORROWER, 99, 10, 1), Err(Error::NotFound));
    assert_eq!(c.repay_loan(OTHER, id, 10, 1), Err(Error::Unauthorized));
    // Not yet approved; the state check precedes the amount check.
    assert_eq!(c.repay_loan(BORROWER, id, 10, 1), Err(Error::InvalidState));
    assert_eq!(c.repay_loan(BORROWER, id, -10, 1), Err(Error::InvalidState));
    c.approve_loan(ADMIN, id, 2).unwrap();
    // A negative repayment would shrink the ledger and is refused.
    assert_eq!(c.repay_loan(BORROWER, id, -10, 3), Err(Error::InvalidArgument));
    let loan = c.get_loan(id).unwrap();
    assert_eq!(loan.repaid_amount, 0);
}

#[test]
fn test_repay_zero_collects_nothing_but_is_audited() {
    let mut c = fresh();
    let id = c.request_loan(BORROWER, 1000, 3, 1, 0).unwrap();
    c.approve_loan(ADMIN, id, 1).unwrap();
    // A zero request succeeds, collects nothing, and still leaves its
    // zero-amount mark in the audit trail.
    assert_eq!(c.repay_loan(BORROWER, id, 0, 2).unwrap(), 0);
    let loan = c.get_loan(id).unwrap();
    assert_eq!(loan.repaid_amount, 0);
    assert!(matches!(loan.status, LoanStatus::Approved));
    let txs = c.get_loan_transactions(id);
    assert_eq!(txs.len(), 3); // request + approval + zero repayment
    assert!(matches!(txs[2].transaction_type, TransactionType::Repayment));
    assert_eq!(txs[2].amount, 0);
}

#[test]
fn test_reject_loan() {
    let mut c = fresh();
    let id = c.request_loan(BORROWER, 1000, 3, 1, 0).unwrap();
    c.reject_loan(ADMIN, id, 1).unwrap();
    let loan = c.get_loan(id).unwrap();
    assert!(matches!(loan.status, LoanStatus::Defaulted));
    // Terminal: no approval, no second rejection.
    assert_eq!(c.approve_loan(ADMIN, id, 2), Err(Error::InvalidState));
    assert_eq!(c.reject_loan(ADMIN, id, 2), Err(Error::InvalidState));
    // The rejection was recorded with amount 0.
    let txs = c.get_loan_transactions(id);
    assert_eq!(txs.len(), 2);
    assert!(matches!(txs[1].transaction_type, TransactionType::Default));
    assert_eq!(txs[1].amount, 0);
}

#[test]
fn test_mark_default() {
    let mut c = fresh();
    let id = c.request_loan(BORROWER, 1000, 3, 1, 0).unwrap();
    // Only approved loans can default through this call.
    assert_eq!(c.mark_default(ADMIN, id, 1), Err(Error::InvalidState));
    c.approve_loan(ADMIN, id, 1).unwrap();
    c.repay_loan(BORROWER, id, 400, 2).unwrap();
    c.mark_default(ADMIN, id, 3).unwrap();
    let loan = c.get_loan(id).unwrap();
    assert!(matches!(loan.status, LoanStatus::Defaulted));
    assert_eq!(loan.repaid_amount, 400);
    assert_eq!(c.mark_default(ADMIN, 7, 4), Err(Error::NotFound));
}

#[test]
fn test_loan_queries() {
    let mut c = fresh();
    let a = c.request_loan(BORROWER, 1000, 3, 1, 0).unwrap();
    let b = c.request_loan(OTHER, 600, 1, 2, 1).unwrap();
    c.approve_loan(ADMIN, a, 2).unwrap();

    assert_eq!(c.get_borrower_loans(BORROWER), vec![a]);
    assert_eq!(c.get_borrower_loans(OTHER), vec![b]);
    assert_eq!(c.get_borrower_loans(555), Vec::<u32>::new());

    let all = c.get_all_loans();
    assert_eq!(all.len(), 2);
    assert_eq!(all[0].id, a);
    assert_eq!(all[1].id, b);

    let pending = c.get_pending_loans();
    assert_eq!(pending.len(), 1);
    assert_eq!(pending[0].id, b);

    let approved = c.get_loans_by_status(LoanStatus::Approved);
    assert_eq!(approved.len(), 1);
    assert_eq!(approved[0].id, a);

    assert_eq!(c.get_loan(99), Err(Error::NotFound));

    let (loan, pct, txs) = c.get_loan_details(a).unwrap();
    assert_eq!(loan.id, a);
    assert_eq!(pct, 50); // tier 3
    assert_eq!(txs.len(), 2); // request + approval
}

#[test]
fn test_transaction_audit_trail() {
    let mut c = fresh();
    let id = c.request_loan(BORROWER, 1000, 3, 1, 10).unwrap();
    c.approve_loan(ADMIN, id, 20).unwrap();
    c.repay_loan(BORROWER, id, 900, 30).unwrap();
    c.repay_loan(BORROWER, id, 500, 40).unwrap(); // capped to 100

    let txs = c.get_all_transactions();
    assert_eq!(txs.len(), 4);
    for (k, tx) in txs.iter().enumerate() {
        assert_eq!(tx.id, (k + 1) as u32);
        assert_eq!(tx.loan_id, id);
        assert_eq!(tx.borrower, BORROWER);
    }
    assert!(matches!(txs[0].transaction_type, TransactionType::LoanRequest));
    assert_eq!(txs[0].amount, 1000);
    assert_eq!(txs[0].timestamp, 10);
    assert!(matches!(txs[1].transaction_type, TransactionType::LoanApproval));
    assert_eq!(txs[1].amount, 1000);
    assert!(matches!(txs[2].transaction_type, TransactionType::Repayment));
    assert_eq!(txs[2].amount, 900);
    // The capped payment is recorded, not the requested amount.
    assert!(matches!(txs[3].transaction_type, TransactionType::Repayment));
    assert_eq!(txs[3].amount, 100);

    assert_eq!(c.get_borrower_transactions(BORROWER).len(), 4);
    assert_eq!(c.get_borrower_transactions(OTHER).len(), 0);
    assert_eq!(c.get_loan_transactions(id).len(), 4);
    assert_eq!(c.get_loan_transactions(99).len(), 0);
}

#[test]
fn test_loan_summary_invariant() {
    let mut c = fresh();
    let a = c.request_loan(BORROWER, 1000, 3, 1, 0).unwrap();
    let b = c.request_loan(OTHER, 600, 1, 2, 1).unwrap();
    let d = c.request_loan(303, 250, 5, 0, 2).unwrap();
    c.approve_loan(ADMIN, a, 3).unwrap();
    c.repay_loan(BORROWER, a, 300, 4).unwrap();
    c.approve_loan(ADMIN, b, 5).unwrap();
    c.repay_loan(OTHER, b, 600, 6).unwrap();
    c.reject_loan(ADMIN, d, 7).unwrap();

    let s = c.get_loan_summary();
    assert_eq!(s.total_loans, 3);
    assert_eq!(s.total_amount, 1000 + 600 + 250);
    assert_eq!(s.pending_loans, 0);
    assert_eq!(s.approved_loans, 1);
    assert_eq!(s.repaid_loans, 1);
    assert_eq!(s.defaulted_loans, 1);
    assert_eq!(
        s.total_loans,
        s.pending_loans + s.approved_loans + s.repaid_loans + s.defaulted_loans
    );
    // Outstanding counts approved loans only: 1000 - 300.
    assert_eq!(s.total_outstanding, 700);
}
