use rust_rdkafka::transaction::{Transaction, TransactionStateError, TxnOp, TxnState};

#[test]
fn happy_path() {
    let mut t = Transaction::new("bridge-1");
    assert_eq!(t.id(), "bridge-1");
    assert_eq!(t.state(), TxnState::Idle);
    assert!(!t.is_open());
    for (op, s) in [
        (TxnOp::Begin, TxnState::Began),
        (TxnOp::Enqueue, TxnState::RecordsEnqueued),
        (TxnOp::Enqueue, TxnState::RecordsEnqueued),
        (TxnOp::BindOffsets, TxnState::OffsetsBound),
        (TxnOp::Commit, TxnState::Committing),
        (TxnOp::CommitDone, TxnState::Committed),
        (TxnOp::Begin, TxnState::Began),
    ] {
        assert_eq!(t.apply(op), Ok(()));
        assert_eq!(t.state(), s);
    }
    assert!(t.is_open());
}

#[test]
fn enqueue_outside_a_transaction_is_refused() {
    let mut t = Transaction::new("bridge-1");
    assert_eq!(
        t.apply(TxnOp::Enqueue),
        Err(TransactionStateError { state: TxnState::Idle, op: TxnOp::Enqueue })
    );
    assert_eq!(t.state(), TxnState::Idle);
}

#[test]
fn second_begin_is_refused() {
    let mut t = Transaction::new("bridge-1");
    t.apply(TxnOp::Begin).unwrap();
    assert_eq!(
        t.apply(TxnOp::Begin),
        Err(TransactionStateError { state: TxnState::Began, op: TxnOp::Begin })
    );
}

#[test]
fn commit_needs_bound_offsets() {
    let mut t = Transaction::new("bridge-1");
    t.apply(TxnOp::Begin).unwrap();
    t.apply(TxnOp::Enqueue).unwrap();
    assert!(t.apply(TxnOp::Commit).is_err());
    assert_eq!(t.state(), TxnState::RecordsEnqueued);
}

#[test]
fn abort_path() {
    let mut t = Transaction::new("bridge-1");
    assert!(t.apply(TxnOp::Abort).is_err());
    t.apply(TxnOp::Begin).unwrap();
    t.apply(TxnOp::Abort).unwrap();
    assert_eq!(t.state(), TxnState::Aborting);
    assert!(t.apply(TxnOp::Abort).is_err());
    t.apply(TxnOp::AbortDone).unwrap();
    assert_eq!(t.state(), TxnState::Aborted);
    assert!(!t.is_open());
    t.apply(TxnOp::Begin).unwrap();
}
