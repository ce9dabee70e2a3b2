use zudb_js::txn::{Ending, StartTask, Transaction, Word, ENDED};

fn open() -> Transaction {
    StartTask::new(false, None).started()
}

#[test]
fn a_transaction_starts_with_a_statement() {
    assert_eq!(StartTask::new(false, None).statement(), "START TRANSACTION");
    assert_eq!(StartTask::new(true, None).statement(), "START TRANSACTION READ ONLY");
    assert!(StartTask::new(true, None).started().read_only());
    assert_eq!(Word::Commit.statement(), "COMMIT");
    assert_eq!(Word::Dispose.statement(), "ROLLBACK");
}

#[test]
fn a_second_commit_is_refused() {
    let mut tx = open();
    assert!(matches!(tx.commit(true), Ending::Run("COMMIT")));
    tx.answered(true);
    assert!(tx.done());
    assert!(matches!(tx.commit(true), Ending::Refused(w) if w == ENDED));
    assert!(matches!(tx.rollback(true), Ending::Refused(w) if w == ENDED));
    assert!(matches!(tx.dispose(true), Ending::Silent));
}

#[test]
fn two_commits_together_run_once() {
    let mut tx = open();
    assert!(matches!(tx.commit(true), Ending::Run(_)));
    assert!(matches!(tx.commit(true), Ending::Refused(_)));
}

#[test]
fn a_commit_the_engine_refused_is_given_back() {
    let mut tx = open();
    assert!(matches!(tx.commit(true), Ending::Run(_)));
    tx.answered(false);
    assert!(!tx.done());
    assert!(matches!(tx.rollback(true), Ending::Run("ROLLBACK")));
}

#[test]
fn leaving_a_scope_undoes_and_says_nothing_of_a_closed_connection() {
    assert!(matches!(open().dispose(true), Ending::Run("ROLLBACK")));
    assert!(matches!(open().dispose(false), Ending::Silent));
    assert!(matches!(open().rollback(false), Ending::Run("ROLLBACK")));
}
