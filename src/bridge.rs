use vstd::prelude::*;
use crate::offsets::{represents, OffsetTracker, PartitionKey, PartitionOffset};
use crate::record::{transform, transform_spec, MalformedPolicy, Record, RecordView, SourceRecord};
use crate::transaction::{is_terminal, Transaction, TxnOp, TxnState};

verus! {

/// How a call to the broker failed.
#[derive(PartialEq, Eq, Structural, Clone, Copy, Debug)]
pub enum BrokerError {
    /// The transactional id could not be registered.
    TransactionInit,
    /// Another producer holds the transactional id.
    Fenced,
    CoordinatorUnavailable,
    /// The consumer is not a member of its group, as during a rebalance.
    MembershipUnavailable,
    /// The producer's buffer is full.
    BufferFull,
    /// A call the protocol did not allow in the transaction's state.
    TransactionState,
    Timeout,
    Other,
}

/// Errors after which the process must not go on producing.
pub open spec fn is_fatal(e: BrokerError) -> bool {
    e == BrokerError::TransactionInit || e == BrokerError::Fenced
}

pub fn fatal(e: BrokerError) -> (r: bool)
    ensures
        r == is_fatal(e),
{
    e == BrokerError::TransactionInit || e == BrokerError::Fenced
}

/// What the broker answered to the last action, or an outside signal.
pub enum Event {
    /// The process has started and may begin.
    Start,
    BeginOk,
    BeginFailed(BrokerError),
    Received(SourceRecord),
    /// No record came within the receive timeout.
    ReceiveTimeout,
    ReceiveFailed(BrokerError),
    EnqueueOk,
    EnqueueFailed(BrokerError),
    CommitOk,
    CommitFailed(BrokerError),
    /// The transaction was aborted; the consumer was rewound to its committed
    /// offsets.
    AbortOk,
    AbortFailed(BrokerError),
    /// The operator asked the process to stop.
    Shutdown,
}

/// What the bridge asks to be done next.
#[derive(PartialEq, Eq, Structural, Clone, Copy, Debug)]
pub enum Action {
    /// Begin a transaction.
    Begin,
    /// Receive the next source record, within the receive timeout.
    Receive,
    /// Enqueue the pending record to the destination topic.
    Enqueue,
    /// Bind the offsets to the transaction, under the group token, and commit.
    Commit,
    /// Abort the transaction and rewind the consumer to its committed offsets.
    Abort,
    /// Nothing new: an answer is still outstanding.
    Wait,
    /// Stop for good and report the fenced transactional id.
    Halt,
    /// Stop normally.
    Exit,
}

/// Where the read-transform-write cycle stands.
#[derive(PartialEq, Eq, Structural, Clone, Copy, Debug)]
pub enum Phase {
    /// Between cycles: no transaction is open.
    Idle,
    /// A transaction is open and the bridge is receiving.
    Began,
    /// A transformed record waits to be enqueued.
    Transforming,
    Committing,
    Aborting,
    /// Fenced: nothing more is produced.
    Halted,
    /// Shut down.
    Stopped,
}

pub ghost struct BridgeView {
    pub phase: Phase,
    /// The next offset to read of each partition consumed in this transaction.
    pub offsets: Map<PartitionKey, i64>,
    /// The record to enqueue.
    pub pending: Option<RecordView>,
    /// Records consumed in this transaction, skipped ones included.
    pub consumed: nat,
    /// Records enqueued in this transaction.
    pub enqueued: nat,
    pub batch_size: nat,
    pub policy: MalformedPolicy,
    /// A shutdown was asked for and is honoured when the cycle ends.
    pub stopping: bool,
}

pub open spec fn with_phase(v: BridgeView, p: Phase) -> BridgeView {
    BridgeView { phase: p, ..v }
}

pub open spec fn halt(v: BridgeView) -> (BridgeView, Action) {
    (with_phase(v, Phase::Halted), Action::Halt)
}

pub open spec fn abort(v: BridgeView) -> (BridgeView, Action) {
    (BridgeView { phase: Phase::Aborting, pending: None, ..v }, Action::Abort)
}

pub open spec fn commit(v: BridgeView) -> (BridgeView, Action) {
    (with_phase(v, Phase::Committing), Action::Commit)
}

/// Ends the cycle: back to `Idle` with nothing tracked, or stopped.
pub open spec fn end_cycle(v: BridgeView) -> (BridgeView, Action) {
    let c = BridgeView {
        phase: if v.stopping {
            Phase::Stopped
        } else {
            Phase::Idle
        },
        offsets: Map::empty(),
        pending: None,
        consumed: 0,
        enqueued: 0,
        ..v
    };
    (c, if v.stopping {
        Action::Exit
    } else {
        Action::Begin
    })
}

/// After a record was dealt with: commit once the batch is full, else receive.
pub open spec fn after_record(v: BridgeView) -> (BridgeView, Action) {
    if v.consumed >= v.batch_size {
        commit(v)
    } else {
        (with_phase(v, Phase::Began), Action::Receive)
    }
}

pub open spec fn on_error(v: BridgeView, e: BrokerError) -> (BridgeView, Action) {
    if is_fatal(e) {
        halt(v)
    } else {
        abort(v)
    }
}

pub open spec fn note_stop(v: BridgeView) -> (BridgeView, Action) {
    (BridgeView { stopping: true, ..v }, Action::Wait)
}

/// The next state of the bridge and its next action, on event `e`.
pub open spec fn bridge_next(v: BridgeView, e: Event) -> (BridgeView, Action) {
    match v.phase {
        Phase::Halted => (v, Action::Halt),
        Phase::Stopped => (v, Action::Exit),
        Phase::Idle => match e {
            Event::Start => (v, Action::Begin),
            Event::BeginOk => (with_phase(v, Phase::Began), Action::Receive),
            Event::BeginFailed(err) => if is_fatal(err) {
                halt(v)
            } else {
                (v, Action::Begin)
            },
            Event::Shutdown => (with_phase(v, Phase::Stopped), Action::Exit),
            _ => (v, Action::Wait),
        },
        Phase::Began => match e {
            // a record at the last offset leaves no next offset to commit
            Event::Received(r) => if r.offset == i64::MAX {
                abort(v)
            } else {
                let v1 = BridgeView {
                    offsets: v.offsets.insert((r.topic@, r.partition), (r.offset + 1) as i64),
                    consumed: v.consumed + 1,
                    ..v
                };
                match transform_spec(r, v.policy) {
                    Some(o) => (
                        BridgeView { phase: Phase::Transforming, pending: Some(o), ..v1 },
                        Action::Enqueue,
                    ),
                    None => after_record(v1),
                }
            },
            Event::ReceiveTimeout => if v.enqueued > 0 {
                commit(v)
            } else {
                (v, Action::Receive)
            },
            Event::ReceiveFailed(err) => on_error(v, err),
            Event::Shutdown => abort(BridgeView { stopping: true, ..v }),
            _ => (v, Action::Wait),
        },
        Phase::Transforming => match e {
            Event::EnqueueOk => after_record(
                BridgeView { pending: None, enqueued: v.enqueued + 1, ..v },
            ),
            Event::EnqueueFailed(err) => if err == BrokerError::BufferFull {
                (v, Action::Enqueue)
            } else {
                on_error(v, err)
            },
            Event::Shutdown => note_stop(v),
            _ => (v, Action::Wait),
        },
        Phase::Committing => match e {
            Event::CommitOk => end_cycle(v),
            Event::CommitFailed(err) => on_error(v, err),
            Event::Shutdown => note_stop(v),
            _ => (v, Action::Wait),
        },
        Phase::Aborting => match e {
            Event::AbortOk => end_cycle(v),
            Event::AbortFailed(err) => if is_fatal(err) {
                halt(v)
            } else {
                (v, Action::Abort)
            },
            Event::Shutdown => note_stop(v),
            _ => (v, Action::Wait),
        },
    }
}

/// The state a bridge starts in.
pub open spec fn initial(batch_size: nat, policy: MalformedPolicy) -> BridgeView {
    BridgeView {
        phase: Phase::Idle,
        offsets: Map::empty(),
        pending: None,
        consumed: 0,
        enqueued: 0,
        batch_size,
        policy,
        stopping: false,
    }
}

/// The read-transform-write cycle: it decides, the caller talks to the broker.
pub struct Bridge {
    phase: Phase,
    txn: Transaction,
    tracker: OffsetTracker,
    pending: Option<Record>,
    consumed: usize,
    enqueued: usize,
    batch_size: usize,
    policy: MalformedPolicy,
    stopping: bool,
}

impl View for Bridge {
    type V = BridgeView;

    closed spec fn view(&self) -> BridgeView {
        BridgeView {
            phase: self.phase,
            offsets: self.tracker@,
            pending: match self.pending {
                Some(r) => Some(r@),
                None => None,
            },
            consumed: self.consumed as nat,
            enqueued: self.enqueued as nat,
            batch_size: self.batch_size as nat,
            policy: self.policy,
            stopping: self.stopping,
        }
    }
}

impl Bridge {
    pub closed spec fn spec_txn_id(&self) -> Seq<char> {
        self.txn.spec_id()
    }

    /// The transaction's state goes with the phase; the counts stay within
    /// the batch.
    pub closed spec fn wf(&self) -> bool {
        let t = self.txn.spec_state();
        &&& self.tracker.wf()
        &&& self.batch_size >= 1
        &&& self.enqueued <= self.consumed <= self.batch_size
        &&& match self.phase {
            Phase::Idle | Phase::Stopped => is_terminal(t) && self.consumed == 0
                && self.tracker@ == Map::<PartitionKey, i64>::empty() && self.pending is None,
            Phase::Began => (t == TxnState::Began || t == TxnState::RecordsEnqueued)
                && self.consumed < self.batch_size && self.pending is None,
            Phase::Transforming => (t == TxnState::Began || t == TxnState::RecordsEnqueued)
                && self.enqueued < self.consumed && self.pending is Some,
            Phase::Committing => t == TxnState::Committing,
            Phase::Aborting => t == TxnState::Aborting && self.pending is None,
            Phase::Halted => true,
        }
    }

    /// A bridge for the transactional id `id` that commits every
    /// `batch_size` records; `None` where `batch_size` is zero.
    pub fn new(id: &str, batch_size: usize, policy: MalformedPolicy) -> (r: Option<Bridge>)
        ensures
            batch_size == 0 ==> r is None,
            batch_size > 0 ==> (r matches Some(b) && b.wf() && b@ == initial(
                batch_size as nat,
                policy,
            ) && b.spec_txn_id() == id@),
    {
        if batch_size == 0 {
            return None;
        }
        let b = Bridge {
            phase: Phase::Idle,
            txn: Transaction::new(id),
            tracker: OffsetTracker::new(),
            pending: None,
            consumed: 0,
            enqueued: 0,
            batch_size,
            policy,
            stopping: false,
        };
        Some(b)
    }

    pub fn phase(&self) -> (r: Phase)
        ensures
            r == self@.phase,
    {
        self.phase
    }

    pub fn transactional_id(&self) -> (r: &str)
        ensures
            r@ == self.spec_txn_id(),
    {
        self.txn.id()
    }

    /// The record that `Action::Enqueue` is to send.
    pub fn pending_record(&self) -> (r: Option<&Record>)
        ensures
            match r {
                Some(x) => self@.pending == Some(x@),
                None => self@.pending is None,
            },
    {
        match &self.pending {
            Some(x) => Some(x),
            None => None,
        }
    }

    /// The offsets that `Action::Commit` is to bind to the transaction.
    pub fn offsets(&self) -> (r: Vec<PartitionOffset>)
        requires
            self.wf(),
        ensures
            represents(r@, self@.offsets),
    {
        self.tracker.snapshot()
    }

    fn halt(&mut self) -> (a: Action)
        requires
            old(self).wf(),
        ensures
            final(self).wf(),
            final(self).spec_txn_id() == old(self).spec_txn_id(),
            (final(self)@, a) == halt(old(self)@),
    {
        self.phase = Phase::Halted;
        Action::Halt
    }

    fn abort(&mut self) -> (a: Action)
        requires
            old(self).wf(),
            old(self).phase == Phase::Began || old(self).phase == Phase::Transforming
                || old(self).phase == Phase::Committing,
        ensures
            final(self).wf(),
            final(self).spec_txn_id() == old(self).spec_txn_id(),
            (final(self)@, a) == abort(old(self)@),
    {
        let r = self.txn.apply(TxnOp::Abort);
        assert(r is Ok);
        self.phase = Phase::Aborting;
        self.pending = None;
        Action::Abort
    }

    fn commit(&mut self) -> (a: Action)
        requires
            old(self).tracker.wf(),
            old(self).batch_size >= 1,
            old(self).enqueued <= old(self).consumed <= old(self).batch_size,
            old(self).txn.spec_state() == TxnState::Began || old(self).txn.spec_state()
                == TxnState::RecordsEnqueued,
            old(self).phase == Phase::Began || old(self).phase == Phase::Transforming,
            old(self).pending is None,
        ensures
            final(self).wf(),
            final(self).spec_txn_id() == old(self).spec_txn_id(),
            (final(self)@, a) == commit(old(self)@),
    {
        let r1 = self.txn.apply(TxnOp::BindOffsets);
        assert(r1 is Ok);
        let r2 = self.txn.apply(TxnOp::Commit);
        assert(r2 is Ok);
        self.phase = Phase::Committing;
        Action::Commit
    }

    fn end_cycle(&mut self) -> (a: Action)
        requires
            old(self).tracker.wf(),
            old(self).batch_size >= 1,
            is_terminal(old(self).txn.spec_state()),
        ensures
            final(self).wf(),
            final(self).spec_txn_id() == old(self).spec_txn_id(),
            (final(self)@, a) == end_cycle(old(self)@),
    {
        self.tracker.clear();
        self.pending = None;
        self.consumed = 0;
        self.enqueued = 0;
        if self.stopping {
            self.phase = Phase::Stopped;
            Action::Exit
        } else {
            self.phase = Phase::Idle;
            Action::Begin
        }
    }

    /// Takes the answer to the last action and decides the next one, as
    /// `bridge_next` says.
    pub fn step(&mut self, e: Event) -> (a: Action)
        requires
            old(self).wf(),
        ensures
            final(self).wf(),
            final(self).spec_txn_id() == old(self).spec_txn_id(),
            (final(self)@, a) == bridge_next(old(self)@, e),
    {
        match self.phase {
            Phase::Halted => Action::Halt,
            Phase::Stopped => Action::Exit,
            Phase::Idle => match e {
                Event::Start => Action::Begin,
                Event::BeginOk => {
                    let r = self.txn.apply(TxnOp::Begin);
                    assert(r is Ok);
                    self.phase = Phase::Began;
                    Action::Receive
                },
                Event::BeginFailed(err) => if fatal(err) {
                    self.halt()
                } else {
                    Action::Begin
                },
                Event::Shutdown => {
                    self.phase = Phase::Stopped;
                    Action::Exit
                },
                _ => Action::Wait,
            },
            Phase::Began => match e {
                Event::Received(r) => {
                    if r.offset == i64::MAX {
                        return self.abort();
                    }
                    self.tracker.record(r.topic.as_str(), r.partition, r.offset);
                    self.consumed = self.consumed + 1;
                    match transform(r, self.policy) {
                        Some(o) => {
                            self.pending = Some(o);
                            self.phase = Phase::Transforming;
                            Action::Enqueue
                        },
                        None => if self.consumed >= self.batch_size {
                            self.commit()
                        } else {
                            Action::Receive
                        },
                    }
                },
                Event::ReceiveTimeout => if self.enqueued > 0 {
                    self.commit()
                } else {
                    Action::Receive
                },
                Event::ReceiveFailed(err) => if fatal(err) {
                    self.halt()
                } else {
                    self.abort()
                },
                Event::Shutdown => {
                    self.stopping = true;
                    self.abort()
                },
                _ => Action::Wait,
            },
            Phase::Transforming => match e {
                Event::EnqueueOk => {
                    let r = self.txn.apply(TxnOp::Enqueue);
                    assert(r is Ok);
                    self.pending = None;
                    self.enqueued = self.enqueued + 1;
                    if self.consumed >= self.batch_size {
                        self.commit()
                    } else {
                        self.phase = Phase::Began;
                        Action::Receive
                    }
                },
                Event::EnqueueFailed(err) => if err == BrokerError::BufferFull {
                    Action::Enqueue
                } else if fatal(err) {
                    self.halt()
                } else {
                    self.abort()
                },
                Event::Shutdown => {
                    self.stopping = true;
                    Action::Wait
                },
                _ => Action::Wait,
            },
            Phase::Committing => match e {
                Event::CommitOk => {
                    let r = self.txn.apply(TxnOp::CommitDone);
                    assert(r is Ok);
                    self.end_cycle()
                },
                Event::CommitFailed(err) => if fatal(err) {
                    self.halt()
                } else {
                    self.abort()
                },
                Event::Shutdown => {
                    self.stopping = true;
                    Action::Wait
                },
                _ => Action::Wait,
            },
            Phase::Aborting => match e {
                Event::AbortOk => {
                    let r = self.txn.apply(TxnOp::AbortDone);
                    assert(r is Ok);
                    self.end_cycle()
                },
                Event::AbortFailed(err) => if fatal(err) {
                    self.halt()
                } else {
                    Action::Abort
                },
                Event::Shutdown => {
                    self.stopping = true;
                    Action::Wait
                },
                _ => Action::Wait,
            },
        }
    }
}

} // verus!
