use rust_rdkafka::bridge::{fatal, Action, Bridge, BrokerError, Event, Phase};
use rust_rdkafka::record::{MalformedPolicy, SourceRecord};

fn rec(offset: i64, key: &str, payload: &str) -> SourceRecord {
    SourceRecord {
        topic: "source".to_string(),
        partition: 0,
        offset,
        key: Some(key.as_bytes().to_vec()),
        payload: Some(payload.as_bytes().to_vec()),
        headers: Vec::new(),
    }
}

fn log() -> Vec<(i64, &'static str, &'static str)> {
    vec![(10, "k1", "a"), (11, "k2", "b"), (12, "k3", "c")]
}

/// A broker with one source partition, answering each action with success
/// unless told otherwise.
struct Broker {
    log: Vec<(i64, &'static str, &'static str)>,
    pos: usize,
    committed: i64,
    dest: Vec<Vec<u8>>,
    buffer: Vec<Vec<u8>>,
    commits: usize,
}

impl Broker {
    fn new(log: Vec<(i64, &'static str, &'static str)>) -> Broker {
        let committed = log[0].0;
        Broker { log, pos: 0, committed, dest: Vec::new(), buffer: Vec::new(), commits: 0 }
    }

    fn index_of(&self, offset: i64) -> usize {
        self.log.iter().position(|r| r.0 == offset).unwrap_or(self.log.len())
    }

    /// The answer to `action`; `fail_commit` makes the next commit fail.
    fn answer(&mut self, bridge: &Bridge, action: Action, fail_commit: &mut bool) -> Event {
        match action {
            Action::Begin => Event::BeginOk,
            Action::Receive => {
                if self.pos < self.log.len() {
                    let (o, k, p) = self.log[self.pos];
                    self.pos += 1;
                    Event::Received(rec(o, k, p))
                } else {
                    Event::ReceiveTimeout
                }
            }
            Action::Enqueue => {
                self.buffer.push(bridge.pending_record().unwrap().payload.clone());
                Event::EnqueueOk
            }
            Action::Commit => {
                if *fail_commit {
                    *fail_commit = false;
                    return Event::CommitFailed(BrokerError::CoordinatorUnavailable);
                }
                let offsets = bridge.offsets();
                assert_eq!(offsets.len(), 1);
                self.committed = offsets[0].offset;
                self.dest.append(&mut self.buffer);
                self.commits += 1;
                Event::CommitOk
            }
            Action::Abort => {
                self.buffer.clear();
                self.pos = self.index_of(self.committed);
                Event::AbortOk
            }
            _ => Event::Shutdown,
        }
    }

    /// Drives the bridge until the whole log is committed.
    fn drive(&mut self, bridge: &mut Bridge, mut fail_commit: bool) {
        let mut action = bridge.step(Event::Start);
        let mut turns = 0;
        while self.committed <= self.log[self.log.len() - 1].0 && turns < 1000 {
            let e = self.answer(bridge, action, &mut fail_commit);
            action = bridge.step(e);
            turns += 1;
        }
    }
}

fn payloads(v: &[&str]) -> Vec<Vec<u8>> {
    v.iter().map(|s| s.as_bytes().to_vec()).collect()
}

#[test]
fn full_cycle_batch_of_three() {
    let mut bridge = Bridge::new("bridge-1", 3, MalformedPolicy::Skip).unwrap();
    let mut broker = Broker::new(log());
    broker.drive(&mut bridge, false);
    assert_eq!(broker.dest, payloads(&["a", "b", "c"]));
    assert_eq!(broker.committed, 13);
    assert_eq!(broker.commits, 1);
    assert_eq!(bridge.phase(), Phase::Idle);
}

#[test]
fn failed_commit_is_retried_exactly_once() {
    let mut bridge = Bridge::new("bridge-1", 3, MalformedPolicy::Skip).unwrap();
    let mut broker = Broker::new(log());
    broker.drive(&mut bridge, true);
    assert_eq!(broker.dest, payloads(&["a", "b", "c"]));
    assert_eq!(broker.committed, 13);
    assert_eq!(broker.commits, 1);
}

#[test]
fn one_record_per_transaction() {
    let mut bridge = Bridge::new("bridge-1", 1, MalformedPolicy::Skip).unwrap();
    let mut broker = Broker::new(log());
    broker.drive(&mut bridge, true);
    assert_eq!(broker.dest, payloads(&["a", "b", "c"]));
    assert_eq!(broker.committed, 13);
    assert_eq!(broker.commits, 3);
}

#[test]
fn restart_gives_the_same_destination() {
    let mut broker = Broker::new(log());
    let mut first = Bridge::new("bridge-1", 3, MalformedPolicy::Skip).unwrap();
    let mut action = first.step(Event::Start);
    let mut no_fail = false;
    // killed after two records were enqueued
    for _ in 0..5 {
        let e = broker.answer(&first, action, &mut no_fail);
        action = first.step(e);
    }
    assert_eq!(action, Action::Receive);
    assert_eq!(broker.buffer.len(), 2);
    broker.buffer.clear();
    broker.pos = broker.index_of(broker.committed);
    let mut second = Bridge::new("bridge-1", 3, MalformedPolicy::Skip).unwrap();
    broker.drive(&mut second, false);
    assert_eq!(broker.dest, payloads(&["a", "b", "c"]));
    assert_eq!(broker.committed, 13);
}

#[test]
fn timeout_without_records_commits_nothing() {
    let mut bridge = Bridge::new("bridge-1", 3, MalformedPolicy::Skip).unwrap();
    assert_eq!(bridge.step(Event::Start), Action::Begin);
    assert_eq!(bridge.step(Event::BeginOk), Action::Receive);
    for _ in 0..5 {
        assert_eq!(bridge.step(Event::ReceiveTimeout), Action::Receive);
        assert_eq!(bridge.phase(), Phase::Began);
    }
    assert!(bridge.offsets().is_empty());
}

#[test]
fn timeout_with_records_commits_early() {
    let mut bridge = Bridge::new("bridge-1", 3, MalformedPolicy::Skip).unwrap();
    bridge.step(Event::Start);
    bridge.step(Event::BeginOk);
    assert_eq!(bridge.step(Event::Received(rec(10, "k1", "a"))), Action::Enqueue);
    assert_eq!(bridge.step(Event::EnqueueOk), Action::Receive);
    assert_eq!(bridge.step(Event::ReceiveTimeout), Action::Commit);
    let offsets = bridge.offsets();
    assert_eq!(offsets.len(), 1);
    assert_eq!(offsets[0].topic, "source");
    assert_eq!(offsets[0].partition, 0);
    assert_eq!(offsets[0].offset, 11);
}

#[test]
fn fencing_on_begin_halts_for_good() {
    let mut bridge = Bridge::new("bridge-1", 3, MalformedPolicy::Skip).unwrap();
    assert_eq!(bridge.step(Event::BeginFailed(BrokerError::TransactionInit)), Action::Halt);
    assert_eq!(bridge.phase(), Phase::Halted);
    assert_eq!(bridge.step(Event::BeginOk), Action::Halt);
    assert_eq!(bridge.step(Event::Received(rec(10, "k1", "a"))), Action::Halt);
    assert_eq!(bridge.step(Event::Start), Action::Halt);
}

#[test]
fn fencing_on_commit_halts() {
    let mut bridge = Bridge::new("bridge-1", 1, MalformedPolicy::Skip).unwrap();
    bridge.step(Event::Start);
    bridge.step(Event::BeginOk);
    bridge.step(Event::Received(rec(10, "k1", "a")));
    assert_eq!(bridge.step(Event::EnqueueOk), Action::Commit);
    assert_eq!(bridge.step(Event::CommitFailed(BrokerError::Fenced)), Action::Halt);
    assert_eq!(bridge.step(Event::Start), Action::Halt);
}

#[test]
fn transient_errors_abort() {
    let mut bridge = Bridge::new("bridge-1", 2, MalformedPolicy::Skip).unwrap();
    bridge.step(Event::Start);
    bridge.step(Event::BeginOk);
    assert_eq!(
        bridge.step(Event::ReceiveFailed(BrokerError::MembershipUnavailable)),
        Action::Abort
    );
    assert_eq!(bridge.step(Event::AbortFailed(BrokerError::Timeout)), Action::Abort);
    assert_eq!(bridge.step(Event::AbortOk), Action::Begin);
    assert_eq!(bridge.phase(), Phase::Idle);
    bridge.step(Event::BeginOk);
    bridge.step(Event::Received(rec(10, "k1", "a")));
    assert_eq!(bridge.step(Event::EnqueueFailed(BrokerError::Other)), Action::Abort);
    assert!(bridge.pending_record().is_none());
}

#[test]
fn full_buffer_retries_the_same_record() {
    let mut bridge = Bridge::new("bridge-1", 2, MalformedPolicy::Skip).unwrap();
    bridge.step(Event::Start);
    bridge.step(Event::BeginOk);
    bridge.step(Event::Received(rec(10, "k1", "a")));
    assert_eq!(bridge.step(Event::EnqueueFailed(BrokerError::BufferFull)), Action::Enqueue);
    assert_eq!(bridge.pending_record().unwrap().payload, b"a".to_vec());
    assert_eq!(bridge.step(Event::EnqueueOk), Action::Receive);
}

#[test]
fn malformed_record_is_skipped_but_counted() {
    let mut bridge = Bridge::new("bridge-1", 1, MalformedPolicy::Skip).unwrap();
    bridge.step(Event::Start);
    bridge.step(Event::BeginOk);
    let mut r = rec(10, "k1", "");
    r.payload = Some(vec![0xff, 0xfe]);
    assert_eq!(bridge.step(Event::Received(r)), Action::Commit);
    assert_eq!(bridge.offsets()[0].offset, 11);
}

#[test]
fn last_offset_aborts() {
    let mut bridge = Bridge::new("bridge-1", 1, MalformedPolicy::Skip).unwrap();
    bridge.step(Event::Start);
    bridge.step(Event::BeginOk);
    assert_eq!(bridge.step(Event::Received(rec(i64::MAX, "k", "x"))), Action::Abort);
}

#[test]
fn shutdown_between_cycles_exits() {
    let mut bridge = Bridge::new("bridge-1", 1, MalformedPolicy::Skip).unwrap();
    assert_eq!(bridge.step(Event::Shutdown), Action::Exit);
    assert_eq!(bridge.phase(), Phase::Stopped);
}

#[test]
fn shutdown_mid_transaction_aborts_then_exits() {
    let mut bridge = Bridge::new("bridge-1", 3, MalformedPolicy::Skip).unwrap();
    bridge.step(Event::Start);
    bridge.step(Event::BeginOk);
    bridge.step(Event::Received(rec(10, "k1", "a")));
    assert_eq!(bridge.step(Event::Shutdown), Action::Wait);
    assert_eq!(bridge.step(Event::EnqueueOk), Action::Receive);
    assert_eq!(bridge.step(Event::Shutdown), Action::Abort);
    assert_eq!(bridge.step(Event::AbortOk), Action::Exit);
}

#[test]
fn zero_batch_is_refused() {
    assert!(Bridge::new("bridge-1", 0, MalformedPolicy::Skip).is_none());
    let b = Bridge::new("bridge-1", 1, MalformedPolicy::Skip).unwrap();
    assert_eq!(b.transactional_id(), "bridge-1");
    assert_eq!(b.phase(), Phase::Idle);
}

#[test]
fn fatal_errors() {
    assert!(fatal(BrokerError::Fenced));
    assert!(fatal(BrokerError::TransactionInit));
    assert!(!fatal(BrokerError::CoordinatorUnavailable));
    assert!(!fatal(BrokerError::BufferFull));
}

#[test]
fn two_partitions_in_one_transaction() {
    let mut bridge = Bridge::new("bridge-1", 3, MalformedPolicy::Skip).unwrap();
    bridge.step(Event::Start);
    bridge.step(Event::BeginOk);
    let mut r1 = rec(4, "k1", "x");
    r1.partition = 1;
    assert_eq!(bridge.step(Event::Received(rec(10, "k1", "a"))), Action::Enqueue);
    assert_eq!(bridge.step(Event::EnqueueOk), Action::Receive);
    assert_eq!(bridge.step(Event::Received(r1)), Action::Enqueue);
    assert_eq!(bridge.pending_record().unwrap().payload, b"x".to_vec());
    assert_eq!(bridge.step(Event::EnqueueOk), Action::Receive);
    assert_eq!(bridge.step(Event::Received(rec(11, "k2", "b"))), Action::Enqueue);
    assert_eq!(bridge.step(Event::EnqueueOk), Action::Commit);
    let mut offsets: Vec<(i32, i64)> =
        bridge.offsets().iter().map(|o| (o.partition, o.offset)).collect();
    offsets.sort();
    assert_eq!(offsets, vec![(0, 12), (1, 5)]);
    assert_eq!(bridge.step(Event::CommitOk), Action::Begin);
    assert!(bridge.offsets().is_empty());
}
