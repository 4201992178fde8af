use vstd::prelude::*;

verus! {

/// Where a transaction of the destination writer stands.
#[derive(PartialEq, Eq, Structural, Clone, Copy, Debug)]
pub enum TxnState {
    Idle,
    Began,
    RecordsEnqueued,
    OffsetsBound,
    Committing,
    Committed,
    Aborting,
    Aborted,
}

/// A call of the transactional protocol, or its completion.
#[derive(PartialEq, Eq, Structural, Clone, Copy, Debug)]
pub enum TxnOp {
    Begin,
    Enqueue,
    BindOffsets,
    Commit,
    CommitDone,
    Abort,
    AbortDone,
}

/// A call made in a state where the protocol does not allow it.
#[derive(PartialEq, Eq, Structural, Clone, Copy, Debug)]
pub struct TransactionStateError {
    pub state: TxnState,
    pub op: TxnOp,
}

/// No transaction is open: a new one may begin.
pub open spec fn is_terminal(s: TxnState) -> bool {
    s == TxnState::Idle || s == TxnState::Committed || s == TxnState::Aborted
}

/// The state that `op` leads to from `s`, or `None` where it is not allowed.
pub open spec fn txn_next(s: TxnState, op: TxnOp) -> Option<TxnState> {
    match op {
        TxnOp::Begin => if is_terminal(s) {
            Some(TxnState::Began)
        } else {
            None
        },
        TxnOp::Enqueue => if s == TxnState::Began || s == TxnState::RecordsEnqueued {
            Some(TxnState::RecordsEnqueued)
        } else {
            None
        },
        TxnOp::BindOffsets => if s == TxnState::Began || s == TxnState::RecordsEnqueued {
            Some(TxnState::OffsetsBound)
        } else {
            None
        },
        TxnOp::Commit => if s == TxnState::OffsetsBound {
            Some(TxnState::Committing)
        } else {
            None
        },
        TxnOp::CommitDone => if s == TxnState::Committing {
            Some(TxnState::Committed)
        } else {
            None
        },
        TxnOp::Abort => if !is_terminal(s) && s != TxnState::Aborting {
            Some(TxnState::Aborting)
        } else {
            None
        },
        TxnOp::AbortDone => if s == TxnState::Aborting {
            Some(TxnState::Aborted)
        } else {
            None
        },
    }
}

/// The one transaction of a destination writer, under a transactional id
/// that stays the same across restarts.
pub struct Transaction {
    id: String,
    state: TxnState,
}

impl Transaction {
    pub closed spec fn spec_id(&self) -> Seq<char> {
        self.id@
    }

    pub closed spec fn spec_state(&self) -> TxnState {
        self.state
    }

    pub fn new(id: &str) -> (r: Transaction)
        ensures
            r.spec_id() == id@,
            r.spec_state() == TxnState::Idle,
    {
        Transaction { id: id.to_owned(), state: TxnState::Idle }
    }

    pub fn id(&self) -> (r: &str)
        ensures
            r@ == self.spec_id(),
    {
        self.id.as_str()
    }

    pub fn state(&self) -> (r: TxnState)
        ensures
            r == self.spec_state(),
    {
        self.state
    }

    /// Whether a transaction is open, so that no other may begin.
    pub fn is_open(&self) -> (r: bool)
        ensures
            r == !is_terminal(self.spec_state()),
    {
        !(self.state == TxnState::Idle || self.state == TxnState::Committed || self.state
            == TxnState::Aborted)
    }

    /// Moves by `op`, or refuses it and stays where it is.
    pub fn apply(&mut self, op: TxnOp) -> (r: Result<(), TransactionStateError>)
        ensures
            final(self).spec_id() == old(self).spec_id(),
            match txn_next(old(self).spec_state(), op) {
                Some(s) => r is Ok && final(self).spec_state() == s,
                None => r == Err::<(), _>(TransactionStateError { state: old(self).spec_state(), op })
                    && final(self).spec_state() == old(self).spec_state(),
            },
    {
        let s = self.state;
        let terminal = s == TxnState::Idle || s == TxnState::Committed || s == TxnState::Aborted;
        let open_txn = s == TxnState::Began || s == TxnState::RecordsEnqueued;
        let next = match op {
            TxnOp::Begin => if terminal {
                Some(TxnState::Began)
            } else {
                None
            },
            TxnOp::Enqueue => if open_txn {
                Some(TxnState::RecordsEnqueued)
            } else {
                None
            },
            TxnOp::BindOffsets => if open_txn {
                Some(TxnState::OffsetsBound)
            } else {
                None
            },
            TxnOp::Commit => if s == TxnState::OffsetsBound {
                Some(TxnState::Committing)
            } else {
                None
            },
            TxnOp::CommitDone => if s == TxnState::Committing {
                Some(TxnState::Committed)
            } else {
                None
            },
            TxnOp::Abort => if !terminal && s != TxnState::Aborting {
                Some(TxnState::Aborting)
            } else {
                None
            },
            TxnOp::AbortDone => if s == TxnState::Aborting {
                Some(TxnState::Aborted)
            } else {
                None
            },
        };
        match next {
            Some(n) => {
                self.state = n;
                Ok(())
            },
            None => Err(TransactionStateError { state: s, op }),
        }
    }
}

} // verus!
