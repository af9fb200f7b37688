//! A broker-agnostic task-queue abstraction for a webhook-delivery pipeline.
//!
//! Producers enqueue delivery-attempt work items, optionally delayed;
//! consumers dequeue them in bounded batches and finalize each exactly once
//! with an ack or a requeueing nack. Transient transport failures are
//! masked by a short bounded backoff schedule; decode and protocol failures
//! surface immediately. Producer, consumer and acker are closed tagged
//! variants, one per transport family: the in-process store-and-sweep queue
//! is realized here, while store and broker transports are built by their
//! adapters outside this layer, against the same decision logic.
//!
//! The in-process transport state sits behind a lock shared by producer,
//! consumer and ackers, so a lifecycle call's effect cannot be phrased
//! over the handle alone: concurrent calls interleave. Each lifecycle
//! function therefore returns, beside its result, a ghost witness of the
//! transport states around its locked section, and its contract pins the
//! exact relation — `send_rel`, `finalize_rel`, `receive_rel` — between
//! those states, the arguments and the result. The same relations are the
//! contracts of the underlying [`MemState`] methods, which are the fully
//! contracted sequential surface.
use vstd::prelude::*;

use std::sync::Arc;
use vstd::rwlock::RwLock;

pub mod codec;
pub mod errors;
pub mod hexnum;
pub mod ids;
pub mod mem;
pub mod retry;
pub mod tasks;

pub use codec::{decode_task, encode_task, spec_decode, spec_encode};
pub use errors::Error;
pub use mem::{
    finalize_rel, send_rel, FaultScript, FinalizeOp, ItemV, MemState, MemV, QueueOp, BATCH_CAP,
};
pub use retry::{retry_schedule_ms, RETRY_ATTEMPTS};
pub use tasks::{MessageAttemptTriggerType, MessageTask, MessageTaskBatch, QueueTask, TaskV};

use codec::spec_decode as decode_view;
use hexnum::hex_seq;
use mem::{
    dec_fault, f_kind, fires, handles_wf, lemma_handles_wf_fin, lemma_handles_wf_push,
    lemma_handles_wf_sweep, pay_of, raw_matches, sat_add, sweep, ItemPhase, RawDelivery,
};

verus! {

/// Classifies an error as worth a fast retry: only queue-transport failures
/// are; decode and protocol failures surface immediately.
pub fn should_retry(err: &Error) -> (r: bool)
    ensures
        r == (err is Queue),
{
    matches!(err, Error::Queue)
}

/// Which transport a queue pair is bound to.
#[derive(Clone, Debug)]
pub enum QueueBackend {
    Memory,
    Redis(String),
    RedisCluster(String),
    RabbitMq(String),
}

/// The configuration the backend selector consumes at process start.
#[derive(Clone, Debug)]
pub struct Configuration {
    pub queue_backend: QueueBackend,
    pub rabbit_consumer_prefetch_size: Option<u16>,
}

/// The lock predicate of an in-process queue: handles are unique and lie
/// below the next one, so one delivery's finalize can never touch another.
pub struct MemInv;

impl vstd::rwlock::RwLockPredicate<MemState> for MemInv {
    open spec fn inv(self, v: MemState) -> bool {
        handles_wf(v@.items, v@.next_handle)
    }
}

/// The shared state of one in-process queue.
pub type MemQueue = Arc<RwLock<MemState, MemInv>>;

/// Relies on Arc::clone: the clone shares the same underlying lock.
#[verifier::external_body]
fn share_queue(q: &MemQueue) -> (r: MemQueue)
    ensures
        r == *q,
{
    q.clone()
}

/// A cheaply shareable handle that enqueues tasks on one bound transport.
#[derive(Clone)]
pub enum TaskQueueProducer {
    Mem(MemProducer),
}

#[derive(Clone)]
pub struct MemProducer {
    queue: MemQueue,
}

/// A handle that batch-receives deliveries from one bound transport.
pub enum TaskQueueConsumer {
    Mem(MemConsumer),
}

pub struct MemConsumer {
    queue: MemQueue,
}

/// The capability a delivery uses to finalize itself against its
/// originating transport, exactly once.
enum Acker {
    Mem { queue: MemQueue, handle: u64 },
}

/// A received, not-yet-finalized task: a sortable identifier, the decoded
/// task, and the one acker that can finalize it.
pub struct TaskQueueDelivery {
    pub id: String,
    pub task: QueueTask,
    acker: Acker,
}

impl TaskQueueProducer {
    /// The queue this producer enqueues on.
    pub closed spec fn spec_queue(&self) -> MemQueue {
        match self {
            TaskQueueProducer::Mem(p) => p.queue,
        }
    }
}

impl TaskQueueConsumer {
    /// The queue this consumer receives from.
    pub closed spec fn spec_queue(&self) -> MemQueue {
        match self {
            TaskQueueConsumer::Mem(c) => c.queue,
        }
    }
}

impl TaskQueueDelivery {
    /// The queue this delivery's acker finalizes against.
    pub closed spec fn acker_queue(&self) -> MemQueue {
        match self.acker {
            Acker::Mem { queue, handle } => queue,
        }
    }

    /// The transport-native handle this delivery's acker consumes.
    pub closed spec fn acker_handle(&self) -> u64 {
        match self.acker {
            Acker::Mem { queue, handle } => handle,
        }
    }

    /// The received task, as its mathematical view.
    pub closed spec fn spec_task(&self) -> TaskV {
        self.task@
    }

    /// The delivery identifier, as its character sequence.
    pub closed spec fn spec_id(&self) -> Seq<char> {
        self.id@
    }
}

/// An absent delay enqueues for immediate visibility.
pub open spec fn delay_value(d: Option<u64>) -> u64 {
    match d {
        Some(ms) => ms,
        None => 0,
    }
}

/// How one element of a received batch corresponds to the item the sweep
/// handed out: an absent payload surfaces as `EmptyDelivery`, an
/// undecodable one as `Decode`, and anything else becomes a delivery
/// carrying the decoded task, a sortable identifier derived from the
/// item's visibility time, and an acker bound to the item's handle on the
/// receiving queue.
pub open spec fn delivery_matches(
    e: Result<TaskQueueDelivery, Error>,
    it: ItemV,
    q: MemQueue,
) -> bool {
    match it.payload {
        None => e matches Err(err) && err is EmptyDelivery,
        Some(p) => match decode_view(p) {
            None => e matches Err(err) && err is Decode,
            Some(v) => e matches Ok(d) && d.spec_task() == v && d.spec_id().len() == 48
                && d.spec_id().subrange(0, 16) == hex_seq(it.visible_at as int, 16)
                && d.acker_queue() == q && d.acker_handle() == it.handle,
        },
    }
}

/// The full effect of one batch receive on queue `q`, as a relation
/// between the transport states around the locked section and the result:
/// unless a scripted fault strikes, the batch is exactly the sweep of the
/// due pending items, in queue order, capped at [`BATCH_CAP`], each
/// element as [`delivery_matches`] fixes it, and the swept items are in
/// flight afterwards.
pub open spec fn receive_rel(
    pre: MemV,
    post: MemV,
    q: MemQueue,
    r: Result<Vec<Result<TaskQueueDelivery, Error>>, Error>,
) -> bool {
    &&& post.now_ms == pre.now_ms
    &&& post.next_handle == pre.next_handle
    &&& post.fault == dec_fault(pre.fault, QueueOp::Receive)
    &&& (fires(pre.fault, QueueOp::Receive) ==> (r matches Err(e) && e == f_kind(pre.fault)
        && post.items == pre.items))
    &&& (!fires(pre.fault, QueueOp::Receive) ==> (r matches Ok(batch) && ({
        let sw = sweep(pre.items, pre.now_ms, BATCH_CAP as nat);
        &&& post.items == sw.1
        &&& batch@.len() == sw.0.len()
        &&& forall|j: int|
            0 <= j < batch@.len() ==> delivery_matches(#[trigger] batch@[j], sw.0[j], q)
    })))
}

impl TaskQueueProducer {
    /// Enqueues one task under the retry policy. With a delay, the task
    /// becomes visible to consumers only once the delay has elapsed. The
    /// ghost witness reports the transport states around the locked
    /// section; [`send_rel`] fixes the result and the enqueued encoding
    /// for every fault script.
    pub fn send(&self, task: QueueTask, delay_ms: Option<u64>) -> (r: (
        Result<(), Error>,
        Ghost<(MemV, MemV)>,
    ))
        ensures
            send_rel(r.1@.0, r.1@.1, Some(spec_encode(task@)), delay_value(delay_ms), r.0),
    {
        let payload: Option<String> = Some(encode_task(&task));
        self.send_raw(payload, delay_ms)
    }

    /// Enqueues a raw payload, or none at all; the in-process transport is
    /// built for tests, which use this to plant foreign or empty payloads.
    pub fn send_raw(&self, payload: Option<String>, delay_ms: Option<u64>) -> (r: (
        Result<(), Error>,
        Ghost<(MemV, MemV)>,
    ))
        ensures
            send_rel(r.1@.0, r.1@.1, pay_of(payload), delay_value(delay_ms), r.0),
    {
        let d: u64 = match delay_ms {
            Some(d) => d,
            None => 0,
        };
        match self {
            TaskQueueProducer::Mem(p) => {
                let (mut st, wh) = p.queue.acquire_write();
                let ghost pre = st@;
                let r = st.send_with_retries(&payload, d);
                let ghost post = st@;
                proof {
                    assert(handles_wf(st@.items, st@.next_handle)) by {
                        if pre.next_handle != u64::MAX && r is Ok {
                            assert(sat_add(pre.next_handle, 1) == pre.next_handle + 1);
                            lemma_handles_wf_push(
                                pre.items,
                                pre.next_handle,
                                ItemV {
                                    handle: pre.next_handle,
                                    visible_at: sat_add(pre.now_ms, d),
                                    payload: pay_of(payload),
                                    phase: ItemPhase::Pending,
                                },
                            );
                        }
                    }
                }
                wh.release_write(st);
                (r, Ghost((pre, post)))
            },
        }
    }

    /// Moves the transport's logical clock forward; the witness shows the
    /// states around the locked section, changed in nothing but the clock.
    pub fn advance_clock(&self, ms: u64) -> (r: Ghost<(MemV, MemV)>)
        ensures
            r@.1 == (MemV { now_ms: sat_add(r@.0.now_ms, ms), ..r@.0 }),
    {
        match self {
            TaskQueueProducer::Mem(p) => {
                let (mut st, wh) = p.queue.acquire_write();
                let ghost pre = st@;
                st.advance_clock(ms);
                let ghost post = st@;
                wh.release_write(st);
                Ghost((pre, post))
            },
        }
    }

    /// Scripts the transport's next failures, to exercise the retry
    /// policy; the witness shows the states around the locked section,
    /// changed in nothing but the fault script.
    pub fn inject_fault(&self, fault: Option<FaultScript>) -> (r: Ghost<(MemV, MemV)>)
        ensures
            r@.1 == (MemV { fault, ..r@.0 }),
    {
        match self {
            TaskQueueProducer::Mem(p) => {
                let (mut st, wh) = p.queue.acquire_write();
                let ghost pre = st@;
                st.set_fault(fault);
                let ghost post = st@;
                wh.release_write(st);
                Ghost((pre, post))
            },
        }
    }
}

/// Builds one delivery out of what a sweep handed back for one item: an
/// absent payload and an undecodable payload surface as per-item errors,
/// and a good one yields a delivery whose acker is bound to this item's
/// handle on `queue`.
fn delivery_from_raw(raw: &RawDelivery, queue: &MemQueue) -> (r: Result<TaskQueueDelivery, Error>)
    ensures
        match pay_of(raw.payload) {
            None => r matches Err(e) && e is EmptyDelivery,
            Some(p) => match decode_view(p) {
                None => r matches Err(e) && e is Decode,
                Some(v) => r matches Ok(d) && d.spec_task() == v && d.spec_id().len() == 48
                    && d.spec_id().subrange(0, 16) == hex_seq(raw.visible_at as int, 16)
                    && d.acker_queue() == *queue && d.acker_handle() == raw.handle,
            },
        },
{
    match &raw.payload {
        None => Err(Error::EmptyDelivery),
        Some(s) => match decode_task(s.as_str()) {
            Err(e) => Err(e),
            Ok(task) => {
                let id = ids::delivery_id(raw.visible_at);
                Ok(
                    TaskQueueDelivery {
                        id,
                        task,
                        acker: Acker::Mem { queue: share_queue(queue), handle: raw.handle },
                    },
                )
            },
        },
    }
}

impl TaskQueueConsumer {
    /// Pulls up to [`BATCH_CAP`] due tasks from the bound transport. Each
    /// element is a fully formed delivery, or the per-item error for a
    /// payload that was empty or undecodable — one bad item never aborts
    /// the rest of the batch. The ghost witness reports the transport
    /// states around the locked section; [`receive_rel`] fixes the batch
    /// as the sweep of the due pending items.
    pub fn receive_all(&mut self) -> (r: (
        Result<Vec<Result<TaskQueueDelivery, Error>>, Error>,
        Ghost<(MemV, MemV)>,
    ))
        ensures
            receive_rel(r.1@.0, r.1@.1, old(self).spec_queue(), r.0),
            r.0 matches Ok(batch) ==> batch@.len() <= BATCH_CAP,
    {
        match self {
            TaskQueueConsumer::Mem(c) => {
                let ghost cq = c.queue;
                let (mut st, wh) = c.queue.acquire_write();
                let ghost pre = st@;
                let raw = st.receive_visible();
                let ghost post = st@;
                proof {
                    assert(handles_wf(st@.items, st@.next_handle)) by {
                        if !fires(pre.fault, QueueOp::Receive) {
                            lemma_handles_wf_sweep(
                                pre.items,
                                pre.next_handle,
                                pre.now_ms,
                                BATCH_CAP as nat,
                            );
                        }
                    }
                }
                wh.release_write(st);
                match raw {
                    Err(e) => (Err(e), Ghost((pre, post))),
                    Ok(items) => {
                        let ghost sw = sweep(pre.items, pre.now_ms, BATCH_CAP as nat);
                        let n: usize = items.len();
                        let mut out: Vec<Result<TaskQueueDelivery, Error>> = Vec::new();
                        let mut i: usize = 0;
                        while i < n
                            invariant
                                i <= n,
                                n == items@.len(),
                                out@.len() == i,
                                cq == c.queue,
                                items@.len() == sw.0.len() <= BATCH_CAP,
                                sw == sweep(pre.items, pre.now_ms, BATCH_CAP as nat),
                                forall|j: int|
                                    0 <= j < items@.len() ==> raw_matches(
                                        #[trigger] items@[j],
                                        sw.0[j],
                                    ),
                                forall|j: int|
                                    0 <= j < i ==> delivery_matches(
                                        #[trigger] out@[j],
                                        sw.0[j],
                                        cq,
                                    ),
                            decreases n - i,
                        {
                            let d = delivery_from_raw(&items[i], &c.queue);
                            proof {
                                assert(raw_matches(items@[i as int], sw.0[i as int]));
                            }
                            out.push(d);
                            i = i + 1;
                        }
                        (Ok(out), Ghost((pre, post)))
                    },
                }
            },
        }
    }
}

impl TaskQueueDelivery {
    /// Signals successful processing: the item leaves the transport's
    /// in-flight tracking for good. Consumes the delivery, so a second
    /// finalize attempt cannot be written. Runs under the retry policy;
    /// [`finalize_rel`] over the witnessed states fixes the result and the
    /// retired item for every fault script; after a failure the item must
    /// be treated as still in flight.
    pub fn ack(self) -> (r: (Result<(), Error>, Ghost<(MemV, MemV)>))
        ensures
            finalize_rel(r.1@.0, r.1@.1, self.acker_handle(), FinalizeOp::Ack, r.0),
    {
        match self.acker {
            Acker::Mem { queue, handle } => {
                let (mut st, wh) = queue.acquire_write();
                let ghost pre = st@;
                let r = st.finalize_with_retries(handle, FinalizeOp::Ack);
                let ghost post = st@;
                proof {
                    assert(handles_wf(st@.items, st@.next_handle)) by {
                        if r is Ok {
                            lemma_handles_wf_fin(
                                pre.items,
                                pre.next_handle,
                                handle,
                                FinalizeOp::Ack,
                                pre.now_ms,
                            );
                        }
                    }
                }
                wh.release_write(st);
                (r, Ghost((pre, post)))
            },
        }
    }

    /// Signals failed processing and requests redelivery: the item becomes
    /// pending again, immediately visible. Consumes the delivery, so a
    /// second finalize attempt cannot be written. Runs under the retry
    /// policy; [`finalize_rel`] over the witnessed states fixes the result
    /// and the requeued item for every fault script.
    pub fn nack(self) -> (r: (Result<(), Error>, Ghost<(MemV, MemV)>))
        ensures
            finalize_rel(r.1@.0, r.1@.1, self.acker_handle(), FinalizeOp::Nack, r.0),
    {
        match self.acker {
            Acker::Mem { queue, handle } => {
                let (mut st, wh) = queue.acquire_write();
                let ghost pre = st@;
                let r = st.finalize_with_retries(handle, FinalizeOp::Nack);
                let ghost post = st@;
                proof {
                    assert(handles_wf(st@.items, st@.next_handle)) by {
                        if r is Ok {
                            lemma_handles_wf_fin(
                                pre.items,
                                pre.next_handle,
                                handle,
                                FinalizeOp::Nack,
                                pre.now_ms,
                            );
                        }
                    }
                }
                wh.release_write(st);
                (r, Ghost((pre, post)))
            },
        }
    }
}

/// Delay ordering at the API: a batch received while an item's visibility
/// time still lies in the future contains no delivery of that item — its
/// handle appears on no acker in the batch.
pub proof fn lemma_receive_respects_delay(
    pre: MemV,
    post: MemV,
    q: MemQueue,
    r: Result<Vec<Result<TaskQueueDelivery, Error>>, Error>,
    j: int,
)
    requires
        receive_rel(pre, post, q, r),
        !fires(pre.fault, QueueOp::Receive),
        handles_wf(pre.items, pre.next_handle),
        0 <= j < pre.items.len(),
        pre.now_ms < pre.items[j].visible_at,
    ensures
        r matches Ok(batch) && forall|k: int|
            0 <= k < batch@.len() ==> ((#[trigger] batch@[k]) matches Ok(d) ==> d.acker_handle()
                != pre.items[j].handle),
{
    let sw = sweep(pre.items, pre.now_ms, BATCH_CAP as nat);
    mem::lemma_sweep_only_ready(pre.items, pre.now_ms, BATCH_CAP as nat);
    mem::lemma_sweep_taken_from(pre.items, pre.now_ms, BATCH_CAP as nat);
    let batch = r->Ok_0;
    assert forall|k: int| 0 <= k < batch@.len() implies ((#[trigger] batch@[k]) matches Ok(d)
        ==> d.acker_handle() != pre.items[j].handle) by {
        assert(delivery_matches(batch@[k], sw.0[k], q));
        if batch@[k] matches Ok(d) {
            assert(pre.items.contains(sw.0[k]));
            let m = choose|m: int| 0 <= m < pre.items.len() && pre.items[m] == sw.0[k];
            assert(mem::item_ready(sw.0[k], pre.now_ms));
            assert(m != j);
            if m < j {
                assert(pre.items[m].handle != pre.items[j].handle);
            } else {
                assert(pre.items[j].handle != pre.items[m].handle);
            }
        }
    }
}

/// Eventual delivery at the API: when an item is pending and due and the
/// ready backlog fits the cap, the received batch holds an element for
/// exactly that item — after a nack made it pending again, this is the
/// redelivery.
pub proof fn lemma_receive_delivers_ready(
    pre: MemV,
    post: MemV,
    q: MemQueue,
    r: Result<Vec<Result<TaskQueueDelivery, Error>>, Error>,
    j: int,
)
    requires
        receive_rel(pre, post, q, r),
        !fires(pre.fault, QueueOp::Receive),
        mem::count_ready(pre.items, pre.now_ms) <= BATCH_CAP,
        0 <= j < pre.items.len(),
        mem::item_ready(pre.items[j], pre.now_ms),
    ensures
        r matches Ok(batch) && exists|k: int|
            0 <= k < batch@.len() && delivery_matches(#[trigger] batch@[k], pre.items[j], q),
{
    let sw = sweep(pre.items, pre.now_ms, BATCH_CAP as nat);
    mem::lemma_sweep_complete(pre.items, pre.now_ms, BATCH_CAP as nat, j);
    let batch = r->Ok_0;
    let k = choose|k: int| 0 <= k < sw.0.len() && sw.0[k] == pre.items[j];
    assert(delivery_matches(batch@[k], sw.0[k], q));
}

/// The queue name a broker transport consumes under a given prefix.
pub fn rabbit_queue_name(prefix: Option<&str>) -> (r: String)
    ensures
        ({
            let p = match prefix {
                Some(p) => p@,
                None => Seq::<char>::empty(),
            };
            r@ == p + "-message-queue"@
        }),
{
    let mut r: String = match prefix {
        Some(p) => p.to_owned(),
        None => String::new(),
    };
    r.append("-message-queue");
    proof {
        assert(r@ =~= (match prefix {
            Some(p) => p@,
            None => Seq::<char>::empty(),
        }) + "-message-queue"@);
    }
    r
}

/// The broker consumer's prefetch count: the configured override, or one —
/// the safest default, least likely to let one slow consumer starve others
/// by holding a large batch of unacknowledged messages.
pub fn effective_prefetch_size(configured: Option<u16>) -> (r: u16)
    ensures
        r == (match configured {
            Some(n) => n,
            None => 1u16,
        }),
{
    match configured {
        Some(n) => n,
        None => 1,
    }
}

/// How a broker acknowledgment must be issued.
pub struct BrokerAckOptions {
    pub multiple: bool,
}

/// How a broker negative-acknowledgment must be issued.
pub struct BrokerNackOptions {
    pub requeue: bool,
    pub multiple: bool,
}

/// An ack acknowledges this message only, never a cumulative batch, so
/// unrelated in-flight messages on the same channel stay unacknowledged.
pub fn broker_ack_options() -> (r: BrokerAckOptions)
    ensures
        !r.multiple,
{
    BrokerAckOptions { multiple: false }
}

/// A nack requeues the message for redelivery and touches this message
/// only, never a cumulative batch.
pub fn broker_nack_options() -> (r: BrokerNackOptions)
    ensures
        r.requeue,
        !r.multiple,
{
    BrokerNackOptions { requeue: true, multiple: false }
}

/// Builds one matched producer/consumer pair bound to the configured
/// transport: on success the two handles share one queue, so a task sent
/// via the producer is receivable by the paired consumer. The in-process
/// queue is built here; the store and broker transports are built by their
/// adapters outside this layer, so within it their construction is a fatal
/// startup failure.
pub fn new_pair(cfg: &Configuration, prefix: Option<&str>) -> (r: Result<
    (TaskQueueProducer, TaskQueueConsumer),
    Error,
>)
    ensures
        cfg.queue_backend is Memory <==> r is Ok,
        r matches Ok(pair) ==> pair.0.spec_queue() == pair.1.spec_queue(),
        !(cfg.queue_backend is Memory) ==> (r matches Err(e) && e is Startup),
{
    // The prefix separates named queues on the store and broker
    // transports (see `rabbit_queue_name`); the single in-process queue
    // has no use for it.
    let _ = prefix;
    match &cfg.queue_backend {
        QueueBackend::Memory => {
            let st = MemState::new();
            proof {
                assert(handles_wf(st@.items, st@.next_handle));
            }
            let lock = RwLock::<MemState, MemInv>::new(st, Ghost(MemInv));
            let q: MemQueue = Arc::new(lock);
            let producer = TaskQueueProducer::Mem(MemProducer { queue: share_queue(&q) });
            let consumer = TaskQueueConsumer::Mem(MemConsumer { queue: q });
            Ok((producer, consumer))
        },
        QueueBackend::Redis(_) => Err(Error::Startup),
        QueueBackend::RedisCluster(_) => Err(Error::Startup),
        QueueBackend::RabbitMq(_) => Err(Error::Startup),
    }
}

} // verus!
