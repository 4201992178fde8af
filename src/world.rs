//! A model of the broker around the bridge: the partitions of the source
//! topic, what the consumer delivers, what is committed, and what a
//! read-committed observer of the destination sees. The laws of the bridge
//! are stated over it.
use vstd::prelude::*;
use crate::bridge::{
    bridge_next, halt, initial, is_fatal, Action, BridgeView, BrokerError, Event, Phase,
};
use crate::offsets::PartitionKey;
use crate::record::{transform_spec, MalformedPolicy, RecordView, SourceRecord};

verus! {

/// The record written for `r`, as a sequence of none or one.
pub open spec fn output_of(r: SourceRecord, policy: MalformedPolicy) -> Seq<RecordView> {
    match transform_spec(r, policy) {
        Some(o) => seq![o],
        None => Seq::empty(),
    }
}

/// The records written for `s`, in order, skipped ones left out.
pub open spec fn outputs(s: Seq<SourceRecord>, policy: MalformedPolicy) -> Seq<RecordView>
    decreases s.len(),
{
    if s.len() == 0 {
        Seq::empty()
    } else {
        outputs(s.drop_last(), policy) + output_of(s.last(), policy)
    }
}

/// A destination record, with the source partition it came from.
pub type Tagged = (i32, RecordView);

/// The records of `s` that came from partition `p`, in order.
pub open spec fn project(s: Seq<Tagged>, p: i32) -> Seq<RecordView>
    decreases s.len(),
{
    if s.len() == 0 {
        Seq::empty()
    } else {
        project(s.drop_last(), p) + if s.last().0 == p {
            seq![s.last().1]
        } else {
            Seq::empty()
        }
    }
}

pub proof fn lemma_outputs_concat(a: Seq<SourceRecord>, b: Seq<SourceRecord>, policy: MalformedPolicy)
    ensures
        outputs(a + b, policy) == outputs(a, policy) + outputs(b, policy),
    decreases b.len(),
{
    if b.len() == 0 {
        assert(a + b =~= a);
        assert(outputs(a, policy) + outputs(b, policy) =~= outputs(a, policy));
    } else {
        lemma_outputs_concat(a, b.drop_last(), policy);
        assert((a + b).drop_last() =~= a + b.drop_last());
        assert((a + b).last() == b.last());
        let t = output_of(b.last(), policy);
        assert(outputs(a, policy) + outputs(b.drop_last(), policy) + t =~= outputs(a, policy) + (
        outputs(b.drop_last(), policy) + t));
    }
}

pub proof fn lemma_project_concat(a: Seq<Tagged>, b: Seq<Tagged>, p: i32)
    ensures
        project(a + b, p) == project(a, p) + project(b, p),
    decreases b.len(),
{
    if b.len() == 0 {
        assert(a + b =~= a);
        assert(project(a, p) + project(b, p) =~= project(a, p));
    } else {
        lemma_project_concat(a, b.drop_last(), p);
        assert((a + b).drop_last() =~= a + b.drop_last());
        assert((a + b).last() == b.last());
        let t = if b.last().0 == p {
            seq![b.last().1]
        } else {
            Seq::<RecordView>::empty()
        };
        assert(project(a, p) + project(b.drop_last(), p) + t =~= project(a, p) + (project(
            b.drop_last(),
            p,
        ) + t));
    }
}

/// A sequence with nothing from any partition is empty.
proof fn lemma_project_none(s: Seq<Tagged>)
    requires
        forall|p: i32| #[trigger] project(s, p).len() == 0,
    ensures
        s.len() == 0,
{
    if s.len() > 0 {
        assert(project(s, s.last().0).len() > 0);
    }
}

/// The broker and the bridge together.
pub ghost struct World {
    /// The log of each partition of the source topic.
    pub src: spec_fn(i32) -> Seq<SourceRecord>,
    pub topic: Seq<char>,
    /// The position of the next record the consumer delivers, by partition.
    pub pos: spec_fn(i32) -> nat,
    /// The committed consumer offset, by partition.
    pub committed: spec_fn(i32) -> nat,
    /// The partition of the record received last.
    pub current: i32,
    /// What a read-committed observer sees in the destination, each record
    /// with the partition it came from.
    pub dest: Seq<Tagged>,
    /// The records of the open transaction, invisible until it commits.
    pub buffered: Seq<Tagged>,
    pub bridge: BridgeView,
}

pub open spec fn key(w: World, p: i32) -> PartitionKey {
    (w.topic, p)
}

/// Every record of a log sits at its own position, in its partition.
pub open spec fn source_wf(src: spec_fn(i32) -> Seq<SourceRecord>, topic: Seq<char>) -> bool {
    forall|p: i32|
        #![trigger src(p)]
        src(p).len() < i64::MAX && forall|i: int|
            0 <= i < src(p).len() ==> (#[trigger] src(p)[i]).offset == i && src(p)[i].topic@
                == topic && src(p)[i].partition == p
}

pub open spec fn start(
    src: spec_fn(i32) -> Seq<SourceRecord>,
    topic: Seq<char>,
    batch_size: nat,
    policy: MalformedPolicy,
) -> World {
    World {
        src,
        topic,
        pos: |p: i32| 0nat,
        committed: |p: i32| 0nat,
        current: 0,
        dest: Seq::empty(),
        buffered: Seq::empty(),
        bridge: initial(batch_size, policy),
    }
}

/// The answers the broker can give: a record only while the bridge
/// receives, and the next one of its partition's log; a success only to the
/// call made.
pub open spec fn possible(w: World, e: Event) -> bool {
    match e {
        Event::Received(r) => w.bridge.phase == Phase::Began && (w.pos)(r.partition) < (w.src)(
            r.partition,
        ).len() && r == (w.src)(r.partition)[(w.pos)(r.partition) as int],
        Event::BeginOk => w.bridge.phase == Phase::Idle,
        Event::EnqueueOk => w.bridge.phase == Phase::Transforming,
        Event::CommitOk => w.bridge.phase == Phase::Committing,
        Event::AbortOk => w.bridge.phase == Phase::Aborting,
        _ => true,
    }
}

/// The committed offsets after the broker commits the bridge's offsets.
pub open spec fn committed_after(w: World) -> spec_fn(i32) -> nat {
    |p: i32|
        if w.bridge.offsets.contains_key(key(w, p)) {
            w.bridge.offsets[key(w, p)] as nat
        } else {
            (w.committed)(p)
        }
}

/// The broker's side of event `e`, and the bridge's.
pub open spec fn world_step(w: World, e: Event) -> World {
    let b = bridge_next(w.bridge, e).0;
    match e {
        Event::Received(r) => World {
            pos: |p: i32|
                if p == r.partition {
                    (w.pos)(p) + 1
                } else {
                    (w.pos)(p)
                },
            current: r.partition,
            bridge: b,
            ..w
        },
        Event::EnqueueOk => World {
            buffered: match w.bridge.pending {
                Some(r) => w.buffered.push((w.current, r)),
                None => w.buffered,
            },
            bridge: b,
            ..w
        },
        Event::CommitOk => World {
            dest: w.dest + w.buffered,
            buffered: Seq::empty(),
            committed: committed_after(w),
            bridge: b,
            ..w
        },
        Event::AbortOk => World { buffered: Seq::empty(), pos: w.committed, bridge: b, ..w },
        _ => World { bridge: b, ..w },
    }
}

/// The process is killed and started again under the same transactional
/// id: the broker aborts the transaction left open, and the consumer starts
/// from the committed offsets.
pub open spec fn restart(w: World) -> World {
    World {
        pos: w.committed,
        buffered: Seq::empty(),
        bridge: initial(w.bridge.batch_size, w.bridge.policy),
        ..w
    }
}

pub ghost enum Step {
    Deliver(Event),
    Restart,
}

pub open spec fn apply(w: World, s: Step) -> World {
    match s {
        Step::Deliver(e) => world_step(w, e),
        Step::Restart => restart(w),
    }
}

pub open spec fn allowed(w: World, s: Step) -> bool {
    match s {
        Step::Deliver(e) => possible(w, e),
        Step::Restart => true,
    }
}

pub open spec fn run(w: World, steps: Seq<Step>) -> World
    decreases steps.len(),
{
    if steps.len() == 0 {
        w
    } else {
        run(apply(w, steps[0]), steps.drop_first())
    }
}

pub open spec fn run_allowed(w: World, steps: Seq<Step>) -> bool
    decreases steps.len(),
{
    steps.len() == 0 || (allowed(w, steps[0]) && run_allowed(apply(w, steps[0]), steps.drop_first()))
}

/// The open transaction tracks each partition it read up to `pos`, and no
/// other.
pub open spec fn offsets_track(w: World) -> bool {
    &&& forall|k: PartitionKey| #[trigger] w.bridge.offsets.contains_key(k) ==> k.0 == w.topic
    &&& forall|p: i32|
        #[trigger] (w.pos)(p) == (w.committed)(p) ==> !w.bridge.offsets.contains_key(key(w, p))
    &&& forall|p: i32|
        #[trigger] (w.pos)(p) != (w.committed)(p) ==> w.bridge.offsets.contains_key(key(w, p))
            && w.bridge.offsets[key(w, p)] == (w.pos)(p)
}

/// The records of the open transaction from partition `p`, up to `upto`.
pub open spec fn open_part(w: World, p: i32, upto: nat) -> Seq<RecordView> {
    outputs((w.src)(p).subrange((w.committed)(p) as int, upto as int), w.bridge.policy)
}

/// What a reachable world satisfies.
pub open spec fn inv(w: World) -> bool {
    let pol = w.bridge.policy;
    &&& source_wf(w.src, w.topic)
    &&& forall|p: i32|
        #![trigger (w.pos)(p)]
        (w.committed)(p) <= (w.pos)(p) <= (w.src)(p).len()
    &&& forall|p: i32|
        #[trigger] project(w.dest, p) == outputs((w.src)(p).take((w.committed)(p) as int), pol)
    &&& w.bridge.batch_size >= 1
    &&& match w.bridge.phase {
        Phase::Idle | Phase::Stopped => (forall|p: i32| #[trigger] (w.pos)(p) == (w.committed)(p))
            && w.buffered.len() == 0 && w.bridge.consumed == 0 && w.bridge.enqueued == 0
            && w.bridge.offsets == Map::<PartitionKey, i64>::empty() && w.bridge.pending is None,
        Phase::Began => (forall|p: i32|
            #[trigger] project(w.buffered, p) == open_part(w, p, (w.pos)(p)))
            && w.bridge.enqueued == w.buffered.len() && offsets_track(w) && w.bridge.pending is None
            && w.bridge.consumed < w.bridge.batch_size,
        Phase::Transforming => (w.pos)(w.current) > (w.committed)(w.current)
            && w.bridge.pending is Some && w.bridge.pending == transform_spec(
            (w.src)(w.current)[(w.pos)(w.current) - 1],
            pol,
        ) && (forall|p: i32|
            #[trigger] project(w.buffered, p) == open_part(
                w,
                p,
                if p == w.current {
                    ((w.pos)(p) - 1) as nat
                } else {
                    (w.pos)(p)
                },
            )) && w.bridge.enqueued == w.buffered.len() && offsets_track(w),
        Phase::Committing => (forall|p: i32|
            #[trigger] project(w.buffered, p) == open_part(w, p, (w.pos)(p))) && offsets_track(w),
        Phase::Aborting | Phase::Halted => true,
    }
}

/// The log, the topic and the bridge's configuration stay as they are.
pub open spec fn same_setting(w: World, w2: World) -> bool {
    &&& w2.src == w.src
    &&& w2.topic == w.topic
    &&& w2.bridge.policy == w.bridge.policy
    &&& w2.bridge.batch_size == w.bridge.batch_size
}

proof fn lemma_outputs_extend(s: Seq<SourceRecord>, a: int, b: int, policy: MalformedPolicy)
    requires
        0 <= a < b <= s.len(),
    ensures
        outputs(s.subrange(a, b), policy) == outputs(s.subrange(a, b - 1), policy) + output_of(
            s[b - 1],
            policy,
        ),
{
    assert(s.subrange(a, b).drop_last() =~= s.subrange(a, b - 1));
}

proof fn lemma_take_split(s: Seq<SourceRecord>, a: int, b: int, policy: MalformedPolicy)
    requires
        0 <= a <= b <= s.len(),
    ensures
        outputs(s.take(b), policy) == outputs(s.take(a), policy) + outputs(s.subrange(a, b), policy),
{
    assert(s.take(b) =~= s.take(a) + s.subrange(a, b));
    lemma_outputs_concat(s.take(a), s.subrange(a, b), policy);
}

proof fn lemma_outputs_empty(s: Seq<SourceRecord>, a: int, policy: MalformedPolicy)
    requires
        0 <= a <= s.len(),
    ensures
        outputs(s.subrange(a, a), policy) == Seq::<RecordView>::empty(),
{
    assert(s.subrange(a, a) =~= Seq::<SourceRecord>::empty());
}

pub proof fn lemma_start_inv(
    src: spec_fn(i32) -> Seq<SourceRecord>,
    topic: Seq<char>,
    batch_size: nat,
    policy: MalformedPolicy,
)
    requires
        source_wf(src, topic),
        batch_size >= 1,
    ensures
        inv(start(src, topic, batch_size, policy)),
{
    let w = start(src, topic, batch_size, policy);
    assert forall|p: i32| #[trigger]
        project(w.dest, p) == outputs((w.src)(p).take((w.committed)(p) as int), policy) by {
        assert((w.src)(p).take(0) =~= Seq::<SourceRecord>::empty());
    }
}

proof fn lemma_project_push(s: Seq<Tagged>, x: Tagged, p: i32)
    ensures
        project(s.push(x), p) == project(s, p) + if x.0 == p {
            seq![x.1]
        } else {
            Seq::<RecordView>::empty()
        },
{
    assert(s.push(x).drop_last() =~= s);
}

proof fn lemma_received_inv(w: World, r: SourceRecord)
    requires
        inv(w),
        possible(w, Event::Received(r)),
    ensures
        inv(world_step(w, Event::Received(r))),
{
    let pol = w.bridge.policy;
    let q = r.partition;
    let w2 = world_step(w, Event::Received(r));
    let pq: int = (w.pos)(q) as int;
    assert((w.src)(q).len() < i64::MAX);
    assert((w.src)(q)[pq].offset == pq);
    assert(r.topic@ == w.topic);
    assert(r.offset != i64::MAX);
    assert((w2.pos)(q) == pq + 1);
    assert forall|p: i32| #![trigger (w2.pos)(p)]
        (w2.committed)(p) <= (w2.pos)(p) <= (w2.src)(p).len() by {
        assert((w.committed)(p) <= (w.pos)(p) <= (w.src)(p).len());
    }
    assert(offsets_track(w2)) by {
        assert forall|p: i32| #[trigger] (w2.pos)(p) == (w2.committed)(p) implies !w2.bridge.offsets.contains_key(key(w2, p)) by {
            assert((w.pos)(p) == (w.committed)(p));
        }
        assert forall|p: i32| #[trigger] (w2.pos)(p) != (w2.committed)(p) implies w2.bridge.offsets.contains_key(key(w2, p))
            && w2.bridge.offsets[key(w2, p)] == (w2.pos)(p) by {
            if p != q {
                assert((w.pos)(p) != (w.committed)(p));
            }
        }
    }
    match transform_spec(r, pol) {
        Some(o) => {
            assert forall|p: i32| #[trigger] project(w2.buffered, p) == open_part(
                w2,
                p,
                if p == w2.current {
                    ((w2.pos)(p) - 1) as nat
                } else {
                    (w2.pos)(p)
                },
            ) by {
                assert(project(w.buffered, p) == open_part(w, p, (w.pos)(p)));
            }
        },
        None => {
            assert forall|p: i32| #[trigger] project(w2.buffered, p) == open_part(
                w2,
                p,
                (w2.pos)(p),
            ) by {
                assert(project(w.buffered, p) == open_part(w, p, (w.pos)(p)));
                if p == q {
                    lemma_outputs_extend((w.src)(q), (w.committed)(q) as int, pq + 1 as int, pol);
                    assert((w.src)(q).subrange((w.committed)(q) as int, pq + 1 - 1) =~= (w.src)(
                        q,
                    ).subrange((w.committed)(q) as int, pq));
                    assert(output_of(r, pol) =~= Seq::<RecordView>::empty());
                    assert(open_part(w, q, pq as nat) + Seq::<RecordView>::empty() =~= open_part(w, q, pq as nat));
                }
            }
        },
    }
}

proof fn lemma_enqueued_inv(w: World)
    requires
        inv(w),
        possible(w, Event::EnqueueOk),
    ensures
        inv(world_step(w, Event::EnqueueOk)),
{
    let pol = w.bridge.policy;
    let q = w.current;
    let o = w.bridge.pending.unwrap();
    let w2 = world_step(w, Event::EnqueueOk);
    assert(w2.buffered == w.buffered.push((q, o)));
    assert forall|p: i32| #[trigger] project(w2.buffered, p) == open_part(w2, p, (w2.pos)(p)) by {
        lemma_project_push(w.buffered, (q, o), p);
        if p == q {
            lemma_outputs_extend((w.src)(q), (w.committed)(q) as int, (w.pos)(q) as int, pol);
            assert(output_of((w.src)(q)[(w.pos)(q) - 1], pol) == seq![o]);
        } else {
            assert(project(w.buffered, p) + Seq::<RecordView>::empty() =~= project(w.buffered, p));
        }
    }
}

proof fn lemma_committed_inv(w: World)
    requires
        inv(w),
        possible(w, Event::CommitOk),
    ensures
        inv(world_step(w, Event::CommitOk)),
        forall|p: i32| #[trigger] (world_step(w, Event::CommitOk).committed)(p) == (w.pos)(p),
{
    let pol = w.bridge.policy;
    let w2 = world_step(w, Event::CommitOk);
    assert forall|p: i32| #[trigger] (w2.committed)(p) == (w.pos)(p) by {
        if (w.pos)(p) == (w.committed)(p) {
            assert(!w.bridge.offsets.contains_key(key(w, p)));
        } else {
            assert(w.bridge.offsets.contains_key(key(w, p)));
        }
    }
    assert forall|p: i32| #![trigger (w2.pos)(p)]
        (w2.committed)(p) <= (w2.pos)(p) <= (w2.src)(p).len() by {
        assert((w.committed)(p) <= (w.pos)(p) <= (w.src)(p).len());
    }
    assert forall|p: i32| #[trigger]
        project(w2.dest, p) == outputs((w2.src)(p).take((w2.committed)(p) as int), pol) by {
        assert((w.committed)(p) <= (w.pos)(p) <= (w.src)(p).len());
        lemma_project_concat(w.dest, w.buffered, p);
        lemma_take_split((w.src)(p), (w.committed)(p) as int, (w.pos)(p) as int, pol);
    }
    assert(w2.buffered.len() == 0);
}

proof fn lemma_begin_inv(w: World)
    requires
        inv(w),
        possible(w, Event::BeginOk),
    ensures
        inv(world_step(w, Event::BeginOk)),
{
    let w2 = world_step(w, Event::BeginOk);
    assert(w.buffered =~= Seq::<Tagged>::empty());
    assert forall|p: i32| #[trigger] project(w2.buffered, p) == open_part(w2, p, (w2.pos)(p)) by {
        assert((w.pos)(p) == (w.committed)(p));
        assert((w.committed)(p) <= (w.pos)(p) <= (w.src)(p).len());
        lemma_outputs_empty((w.src)(p), (w.committed)(p) as int, w.bridge.policy);
    }
    assert(offsets_track(w2)) by {
        assert forall|p: i32| #[trigger] (w2.pos)(p) != (w2.committed)(p) implies w2.bridge.offsets.contains_key(key(w2, p))
            && w2.bridge.offsets[key(w2, p)] == (w2.pos)(p) by {
            assert((w.pos)(p) == (w.committed)(p));
        }
    }
}

pub proof fn lemma_step_inv(w: World, s: Step)
    requires
        inv(w),
        allowed(w, s),
    ensures
        inv(apply(w, s)),
        same_setting(w, apply(w, s)),
        forall|p: i32| #[trigger] (apply(w, s).committed)(p) >= (w.committed)(p),
{
    match s {
        Step::Restart => {
            let w2 = restart(w);
            assert forall|p: i32| #![trigger (w2.pos)(p)]
                (w2.committed)(p) <= (w2.pos)(p) <= (w2.src)(p).len() by {
                assert((w.committed)(p) <= (w.pos)(p) <= (w.src)(p).len());
            }
        },
        Step::Deliver(e) => {
            match e {
                Event::Received(r) => lemma_received_inv(w, r),
                Event::EnqueueOk => lemma_enqueued_inv(w),
                Event::CommitOk => {
                    lemma_committed_inv(w);
                    assert forall|p: i32| #[trigger] (apply(w, s).committed)(p) >= (w.committed)(p) by {
                        assert((w.committed)(p) <= (w.pos)(p));
                    }
                },
                Event::BeginOk => lemma_begin_inv(w),
                Event::AbortOk => {
                    let w2 = world_step(w, e);
                    assert forall|p: i32| #![trigger (w2.pos)(p)]
                        (w2.committed)(p) <= (w2.pos)(p) <= (w2.src)(p).len() by {
                        assert((w.committed)(p) <= (w.pos)(p) <= (w.src)(p).len());
                    }
                },
                _ => {},
            }
        },
    }
}

pub proof fn lemma_run_inv(w: World, steps: Seq<Step>)
    requires
        inv(w),
        run_allowed(w, steps),
    ensures
        inv(run(w, steps)),
        same_setting(w, run(w, steps)),
        forall|p: i32| #[trigger] (run(w, steps).committed)(p) >= (w.committed)(p),
    decreases steps.len(),
{
    if steps.len() > 0 {
        lemma_step_inv(w, steps[0]);
        lemma_run_inv(apply(w, steps[0]), steps.drop_first());
        assert forall|p: i32| #[trigger] (run(w, steps).committed)(p) >= (w.committed)(p) by {
            assert((apply(w, steps[0]).committed)(p) >= (w.committed)(p));
        }
    }
}

/// Whatever the broker answers, transient failures and restarts included,
/// the destination holds, of each source partition, the transformed records
/// of its committed part, each exactly once and in the partition's order.
pub proof fn exactly_once(
    src: spec_fn(i32) -> Seq<SourceRecord>,
    topic: Seq<char>,
    batch_size: nat,
    policy: MalformedPolicy,
    steps: Seq<Step>,
)
    requires
        source_wf(src, topic),
        batch_size >= 1,
        run_allowed(start(src, topic, batch_size, policy), steps),
    ensures
        forall|p: i32|
            #![trigger (run(start(src, topic, batch_size, policy), steps).committed)(p)]
            ({
                let w = run(start(src, topic, batch_size, policy), steps);
                &&& (w.committed)(p) <= src(p).len()
                &&& project(w.dest, p) == outputs(src(p).take((w.committed)(p) as int), policy)
            }),
{
    let w0 = start(src, topic, batch_size, policy);
    lemma_start_inv(src, topic, batch_size, policy);
    lemma_run_inv(w0, steps);
    let w = run(w0, steps);
    assert forall|p: i32| #![trigger (w.committed)(p)]
        (w.committed)(p) <= src(p).len() && project(w.dest, p) == outputs(
            src(p).take((w.committed)(p) as int),
            policy,
        ) by {
        assert((w.committed)(p) <= (w.pos)(p) <= (w.src)(p).len());
        assert(project(w.dest, p) == outputs((w.src)(p).take((w.committed)(p) as int), policy));
    }
}

/// What a read-committed observer sees changes only together with the
/// committed offsets: a step adds to the destination, of each partition,
/// exactly the records between its old and its new committed offset, and
/// adds nothing where no offset moves.
pub proof fn atomic_commit(
    src: spec_fn(i32) -> Seq<SourceRecord>,
    topic: Seq<char>,
    batch_size: nat,
    policy: MalformedPolicy,
    steps: Seq<Step>,
    s: Step,
)
    requires
        source_wf(src, topic),
        batch_size >= 1,
        run_allowed(start(src, topic, batch_size, policy), steps),
        allowed(run(start(src, topic, batch_size, policy), steps), s),
    ensures
        forall|p: i32|
            #![trigger (apply(run(start(src, topic, batch_size, policy), steps), s).committed)(p)]
            ({
                let w = run(start(src, topic, batch_size, policy), steps);
                let w2 = apply(w, s);
                &&& (w.committed)(p) <= (w2.committed)(p)
                &&& project(w2.dest, p) == project(w.dest, p) + outputs(
                    src(p).subrange((w.committed)(p) as int, (w2.committed)(p) as int),
                    policy,
                )
            }),
        ({
            let w = run(start(src, topic, batch_size, policy), steps);
            let w2 = apply(w, s);
            (forall|p: i32| #[trigger] (w2.committed)(p) == (w.committed)(p)) ==> w2.dest == w.dest
        }),
{
    let w0 = start(src, topic, batch_size, policy);
    lemma_start_inv(src, topic, batch_size, policy);
    lemma_run_inv(w0, steps);
    let w = run(w0, steps);
    lemma_step_inv(w, s);
    let w2 = apply(w, s);
    let commits = s == Step::Deliver(Event::CommitOk);
    if commits {
        lemma_committed_inv(w);
    } else {
        assert(w2.dest == w.dest);
    }
    assert forall|p: i32| #![trigger (w2.committed)(p)]
        (w.committed)(p) <= (w2.committed)(p) && project(w2.dest, p) == project(w.dest, p) + outputs(
            src(p).subrange((w.committed)(p) as int, (w2.committed)(p) as int),
            policy,
        ) by {
        assert((w.committed)(p) <= (w.pos)(p) <= (w.src)(p).len());
        assert((w2.committed)(p) <= (w2.pos)(p) <= (w2.src)(p).len());
        assert(project(w.dest, p) == outputs(src(p).take((w.committed)(p) as int), policy));
        assert(project(w2.dest, p) == outputs(src(p).take((w2.committed)(p) as int), policy));
        lemma_take_split(src(p), (w.committed)(p) as int, (w2.committed)(p) as int, policy);
    }
    if forall|p: i32| #[trigger] (w2.committed)(p) == (w.committed)(p) {
        if commits {
            assert forall|p: i32| #[trigger] project(w.buffered, p).len() == 0 by {
                assert((w2.committed)(p) == (w.committed)(p));
                assert((w.committed)(p) <= (w.pos)(p) <= (w.src)(p).len());
                lemma_outputs_empty(src(p), (w.committed)(p) as int, policy);
                lemma_project_concat(w.dest, w.buffered, p);
                assert(project(w2.dest, p) == project(w.dest, p) + outputs(
                    src(p).subrange((w.committed)(p) as int, (w2.committed)(p) as int),
                    policy,
                ));
                assert(project(w2.dest, p).len() == project(w.dest, p).len());
            }
            lemma_project_none(w.buffered);
            assert(w.dest + w.buffered =~= w.dest);
        }
    }
}

/// Killing and restarting the process under the same transactional id does
/// not change the outcome: two runs over the same logs, with restarts or
/// without, that have committed up to the same offsets show, of each
/// partition, the same records in the destination.
pub proof fn idempotent_restart(
    src: spec_fn(i32) -> Seq<SourceRecord>,
    topic: Seq<char>,
    batch_size: nat,
    policy: MalformedPolicy,
    steps1: Seq<Step>,
    steps2: Seq<Step>,
)
    requires
        source_wf(src, topic),
        batch_size >= 1,
        run_allowed(start(src, topic, batch_size, policy), steps1),
        run_allowed(start(src, topic, batch_size, policy), steps2),
        forall|p: i32|
            #[trigger] (run(start(src, topic, batch_size, policy), steps1).committed)(p) == (run(
                start(src, topic, batch_size, policy),
                steps2,
            ).committed)(p),
    ensures
        forall|p: i32|
            #[trigger] project(run(start(src, topic, batch_size, policy), steps1).dest, p)
                == project(run(start(src, topic, batch_size, policy), steps2).dest, p),
{
    exactly_once(src, topic, batch_size, policy, steps1);
    exactly_once(src, topic, batch_size, policy, steps2);
    let w1 = run(start(src, topic, batch_size, policy), steps1);
    let w2 = run(start(src, topic, batch_size, policy), steps2);
    assert forall|p: i32| #[trigger] project(w1.dest, p) == project(w2.dest, p) by {
        assert((w1.committed)(p) == (w2.committed)(p));
    }
}

/// `n` receive timeouts in a row, with no record.
pub open spec fn timeouts(n: nat) -> Seq<Step> {
    Seq::new(n, |i: int| Step::Deliver(Event::ReceiveTimeout))
}

proof fn lemma_timeouts_keep(w: World, n: nat)
    requires
        w.bridge.phase == Phase::Began,
        w.bridge.enqueued == 0,
    ensures
        run_allowed(w, timeouts(n)),
        run(w, timeouts(n)) == w,
    decreases n,
{
    if n > 0 {
        assert(timeouts(n).drop_first() =~= timeouts((n - 1) as nat));
        assert(world_step(w, Event::ReceiveTimeout) == w);
        lemma_timeouts_keep(w, (n - 1) as nat);
    }
}

/// With a transaction open and nothing enqueued in it, receive timeouts
/// without records commit nothing: the destination, the committed offsets
/// and the bridge stay as they are.
pub proof fn empty_batch_suppression(
    src: spec_fn(i32) -> Seq<SourceRecord>,
    topic: Seq<char>,
    batch_size: nat,
    policy: MalformedPolicy,
    steps: Seq<Step>,
    n: nat,
)
    requires
        source_wf(src, topic),
        batch_size >= 1,
        run_allowed(start(src, topic, batch_size, policy), steps),
        run(start(src, topic, batch_size, policy), steps).bridge.phase == Phase::Began,
        run(start(src, topic, batch_size, policy), steps).bridge.enqueued == 0,
    ensures
        run_allowed(run(start(src, topic, batch_size, policy), steps), timeouts(n)),
        run(run(start(src, topic, batch_size, policy), steps), timeouts(n)) == run(
            start(src, topic, batch_size, policy),
            steps,
        ),
{
    lemma_timeouts_keep(run(start(src, topic, batch_size, policy), steps), n);
}

/// A fencing error, or a transactional id that cannot be registered,
/// answered to the call the bridge made, halts it.
pub proof fn fatal_error_halts(v: BridgeView, err: BrokerError)
    requires
        is_fatal(err),
    ensures
        v.phase == Phase::Idle ==> bridge_next(v, Event::BeginFailed(err)) == halt(v),
        v.phase == Phase::Began ==> bridge_next(v, Event::ReceiveFailed(err)) == halt(v),
        v.phase == Phase::Transforming ==> bridge_next(v, Event::EnqueueFailed(err)) == halt(v),
        v.phase == Phase::Committing ==> bridge_next(v, Event::CommitFailed(err)) == halt(v),
        v.phase == Phase::Aborting ==> bridge_next(v, Event::AbortFailed(err)) == halt(v),
        halt(v).0.phase == Phase::Halted,
        halt(v).1 == Action::Halt,
{
}

/// Once halted, the bridge produces nothing more: whatever the broker
/// answers, the world stays as it is and the bridge asks only to halt.
pub proof fn fencing_halts(w: World, steps: Seq<Step>)
    requires
        w.bridge.phase == Phase::Halted,
        forall|i: int| 0 <= i < steps.len() ==> #[trigger] steps[i] is Deliver,
        run_allowed(w, steps),
    ensures
        run(w, steps) == w,
        forall|e: Event| #[trigger] bridge_next(w.bridge, e) == (w.bridge, Action::Halt),
    decreases steps.len(),
{
    if steps.len() > 0 {
        assert(steps[0] is Deliver);
        assert(apply(w, steps[0]) == w);
        assert forall|i: int| 0 <= i < steps.drop_first().len() implies #[trigger] steps.drop_first()[i] is Deliver by {
            assert(steps.drop_first()[i] == steps[i + 1]);
        }
        fencing_halts(w, steps.drop_first());
    }
}

} // verus!
