//! The in-process transport: a store-and-sweep queue for tests and
//! development, with no persistence and no cross-process visibility.
//!
//! The queue keeps every item with a visibility timestamp against a logical
//! clock, so delayed delivery is deterministic and testable. A sweep hands
//! out at most [`BATCH_CAP`] pending items whose visibility time has come,
//! marking them in flight; an ack retires an in-flight item for good and a
//! nack restores it to the pending set, immediately visible. A scripted
//! fault lets callers exercise the retry policy: the next failures of one
//! operation kind, with a chosen error kind, as a real transport would
//! produce them.
use vstd::prelude::*;

use crate::errors::Error;
use crate::retry::RETRY_ATTEMPTS;
use crate::should_retry;
use vstd::pervasive::VecAdditionalExecFns;

verus! {

/// The most items one sweep returns.
pub const BATCH_CAP: usize = 128;

#[derive(Clone, Copy, Debug, PartialEq, Eq, Structural)]
pub enum ItemPhase {
    Pending,
    InFlight,
    Done,
}

/// Which transport operation a scripted fault strikes.
#[derive(Clone, Copy, Debug, PartialEq, Eq, Structural)]
pub enum QueueOp {
    Send,
    Receive,
    Ack,
    Nack,
}

/// A scripted failure: the next `remaining` calls of operation `op` fail
/// with error `kind`.
#[derive(Clone, Copy, Debug, PartialEq, Eq, Structural)]
pub struct FaultScript {
    pub op: QueueOp,
    pub kind: Error,
    pub remaining: u32,
}

/// One stored work item.
#[derive(Debug)]
pub struct QueueItem {
    pub handle: u64,
    pub visible_at: u64,
    pub payload: Option<String>,
    pub phase: ItemPhase,
}

#[verifier::ext_equal]
pub struct ItemV {
    pub handle: u64,
    pub visible_at: u64,
    pub payload: Option<Seq<char>>,
    pub phase: ItemPhase,
}

pub open spec fn pay_of(p: Option<String>) -> Option<Seq<char>> {
    match p {
        Some(s) => Some(s@),
        None => None,
    }
}

impl View for QueueItem {
    type V = ItemV;

    open spec fn view(&self) -> ItemV {
        ItemV {
            handle: self.handle,
            visible_at: self.visible_at,
            payload: pay_of(self.payload),
            phase: self.phase,
        }
    }
}

/// The whole state of the in-process transport.
#[derive(Debug)]
pub struct MemState {
    pub now_ms: u64,
    pub next_handle: u64,
    pub items: Vec<QueueItem>,
    pub fault: Option<FaultScript>,
}

#[verifier::ext_equal]
pub struct MemV {
    pub now_ms: u64,
    pub next_handle: u64,
    pub items: Seq<ItemV>,
    pub fault: Option<FaultScript>,
}

impl View for MemState {
    type V = MemV;

    open spec fn view(&self) -> MemV {
        MemV {
            now_ms: self.now_ms,
            next_handle: self.next_handle,
            items: self.items@.map_values(|it: QueueItem| it@),
            fault: self.fault,
        }
    }
}

pub open spec fn sat_add(a: u64, b: u64) -> u64 {
    if a + b > u64::MAX {
        u64::MAX
    } else {
        (a + b) as u64
    }
}

pub open spec fn fires(f: Option<FaultScript>, op: QueueOp) -> bool {
    f matches Some(fs) && fs.op == op && fs.remaining > 0
}

pub open spec fn f_kind(f: Option<FaultScript>) -> Error {
    match f {
        Some(fs) => fs.kind,
        None => Error::Queue,
    }
}

pub open spec fn dec_fault(f: Option<FaultScript>, op: QueueOp) -> Option<FaultScript> {
    match f {
        None => None,
        Some(fs) => if fs.op == op && fs.remaining > 0 {
            Some(FaultScript { op: fs.op, kind: fs.kind, remaining: (fs.remaining - 1) as u32 })
        } else {
            Some(fs)
        },
    }
}

pub open spec fn fault_n(f: Option<FaultScript>, op: QueueOp) -> nat {
    match f {
        Some(fs) => if fs.op == op {
            fs.remaining as nat
        } else {
            0
        },
        None => 0,
    }
}

/// Pending and due at `now`: exactly the items one sweep may hand out.
pub open spec fn item_ready(it: ItemV, now: u64) -> bool {
    it.phase is Pending && it.visible_at <= now
}

pub open spec fn flip_in_flight(it: ItemV) -> ItemV {
    ItemV { handle: it.handle, visible_at: it.visible_at, payload: it.payload, phase: ItemPhase::InFlight }
}

/// One sweep over the store: takes up to `cap` ready items in queue order,
/// marking each in flight; everything else stays put.
pub open spec fn sweep(items: Seq<ItemV>, now: u64, cap: nat) -> (Seq<ItemV>, Seq<ItemV>)
    decreases items.len(),
{
    if items.len() == 0 {
        (Seq::empty(), Seq::empty())
    } else {
        let hd = items[0];
        if item_ready(hd, now) && cap > 0 {
            let r = sweep(items.skip(1), now, (cap - 1) as nat);
            (seq![hd] + r.0, seq![flip_in_flight(hd)] + r.1)
        } else {
            let r = sweep(items.skip(1), now, cap);
            (r.0, seq![hd] + r.1)
        }
    }
}

pub open spec fn count_ready(items: Seq<ItemV>, now: u64) -> nat
    decreases items.len(),
{
    if items.len() == 0 {
        0
    } else {
        (if item_ready(items[0], now) {
            1nat
        } else {
            0nat
        }) + count_ready(items.skip(1), now)
    }
}

/// A sweep never hands out more than its cap.
pub proof fn lemma_sweep_cap(items: Seq<ItemV>, now: u64, cap: nat)
    ensures
        sweep(items, now, cap).0.len() <= cap,
    decreases items.len(),
{
    if items.len() > 0 {
        if item_ready(items[0], now) && cap > 0 {
            lemma_sweep_cap(items.skip(1), now, (cap - 1) as nat);
        } else {
            lemma_sweep_cap(items.skip(1), now, cap);
        }
    }
}

/// Everything a sweep hands out was pending and due: an item sent with a
/// delay is never returned before its visibility time.
pub proof fn lemma_sweep_only_ready(items: Seq<ItemV>, now: u64, cap: nat)
    ensures
        forall|j: int|
            0 <= j < sweep(items, now, cap).0.len() ==> item_ready(
                #[trigger] sweep(items, now, cap).0[j],
                now,
            ),
    decreases items.len(),
{
    if items.len() > 0 {
        if item_ready(items[0], now) && cap > 0 {
            lemma_sweep_only_ready(items.skip(1), now, (cap - 1) as nat);
            let r = sweep(items.skip(1), now, (cap - 1) as nat);
            assert forall|j: int| 0 <= j < sweep(items, now, cap).0.len() implies item_ready(
                #[trigger] sweep(items, now, cap).0[j],
                now,
            ) by {
                if j > 0 {
                    assert(sweep(items, now, cap).0[j] == r.0[j - 1]);
                }
            }
        } else {
            lemma_sweep_only_ready(items.skip(1), now, cap);
            let r = sweep(items.skip(1), now, cap);
            assert forall|j: int| 0 <= j < sweep(items, now, cap).0.len() implies item_ready(
                #[trigger] sweep(items, now, cap).0[j],
                now,
            ) by {
                assert(sweep(items, now, cap).0[j] == r.0[j]);
            }
        }
    }
}

/// Everything a sweep hands out is one of the stored items.
pub proof fn lemma_sweep_taken_from(items: Seq<ItemV>, now: u64, cap: nat)
    ensures
        forall|k: int|
            0 <= k < sweep(items, now, cap).0.len() ==> items.contains(
                #[trigger] sweep(items, now, cap).0[k],
            ),
    decreases items.len(),
{
    if items.len() > 0 {
        if item_ready(items[0], now) && cap > 0 {
            lemma_sweep_taken_from(items.skip(1), now, (cap - 1) as nat);
            let r = sweep(items.skip(1), now, (cap - 1) as nat);
            assert forall|k: int| 0 <= k < sweep(items, now, cap).0.len() implies items.contains(
                #[trigger] sweep(items, now, cap).0[k],
            ) by {
                if k == 0 {
                    assert(sweep(items, now, cap).0[0] == items[0]);
                } else {
                    assert(sweep(items, now, cap).0[k] == r.0[k - 1]);
                    let m = choose|m: int|
                        0 <= m < items.skip(1).len() && items.skip(1)[m] == r.0[k - 1];
                    assert(items[m + 1] == r.0[k - 1]);
                }
            }
        } else {
            lemma_sweep_taken_from(items.skip(1), now, cap);
            let r = sweep(items.skip(1), now, cap);
            assert forall|k: int| 0 <= k < sweep(items, now, cap).0.len() implies items.contains(
                #[trigger] sweep(items, now, cap).0[k],
            ) by {
                assert(sweep(items, now, cap).0[k] == r.0[k]);
                let m = choose|m: int| 0 <= m < items.skip(1).len() && items.skip(1)[m] == r.0[k];
                assert(items[m + 1] == r.0[k]);
            }
        }
    }
}

/// When no more than `cap` items are ready, a sweep hands out every one of
/// them: a nacked item is returned again by the next due sweep.
pub proof fn lemma_sweep_complete(items: Seq<ItemV>, now: u64, cap: nat, j: int)
    requires
        count_ready(items, now) <= cap,
        0 <= j < items.len(),
        item_ready(items[j], now),
    ensures
        sweep(items, now, cap).0.contains(items[j]),
    decreases items.len(),
{
    let hd = items[0];
    if item_ready(hd, now) && cap > 0 {
        let r = sweep(items.skip(1), now, (cap - 1) as nat);
        if j == 0 {
            assert(sweep(items, now, cap).0[0] == hd);
        } else {
            lemma_sweep_complete(items.skip(1), now, (cap - 1) as nat, j - 1);
            let k = choose|k: int| 0 <= k < r.0.len() && r.0[k] == items.skip(1)[j - 1];
            assert(sweep(items, now, cap).0[k + 1] == items[j]);
        }
    } else {
        assert(!(item_ready(hd, now) && cap > 0));
        if item_ready(hd, now) {
            assert(count_ready(items, now) >= 1);
            assert(cap == 0);
            assert(false);
        }
        assert(j != 0);
        lemma_sweep_complete(items.skip(1), now, cap, j - 1);
        let r = sweep(items.skip(1), now, cap);
        let k = choose|k: int| 0 <= k < r.0.len() && r.0[k] == items.skip(1)[j - 1];
        assert(sweep(items, now, cap).0 == r.0);
        assert(r.0[k] == items[j]);
    }
}

/// A task sent with a delay is not handed out by any sweep that runs
/// before its visibility time: the item's delivery never appears early.
pub proof fn lemma_delay_ordering(items: Seq<ItemV>, it: ItemV, now: u64, cap: nat)
    requires
        now < it.visible_at,
    ensures
        !sweep(items, now, cap).0.contains(it),
{
    lemma_sweep_only_ready(items, now, cap);
    if sweep(items, now, cap).0.contains(it) {
        let j = choose|j: int|
            0 <= j < sweep(items, now, cap).0.len() && sweep(items, now, cap).0[j] == it;
        assert(item_ready(sweep(items, now, cap).0[j], now));
    }
}

/// After a nack, the same logical task is handed out again by the next
/// sweep that runs at or after the nack, as long as the ready backlog fits
/// the cap.
pub proof fn lemma_nack_redelivers(items: Seq<ItemV>, h: u64, now: u64, j: int, cap: nat)
    requires
        0 <= j < items.len(),
        items[j].handle == h,
        items[j].phase is InFlight,
        count_ready(nack_items(items, h, now), now) <= cap,
    ensures
        sweep(nack_items(items, h, now), now, cap).0.contains(
            ItemV { handle: h, visible_at: now, payload: items[j].payload, phase: ItemPhase::Pending },
        ),
{
    let after = nack_items(items, h, now);
    assert(after[j] == ItemV {
        handle: h,
        visible_at: now,
        payload: items[j].payload,
        phase: ItemPhase::Pending,
    });
    assert(item_ready(after[j], now));
    lemma_sweep_complete(after, now, cap, j);
}

/// Retiring one in-flight item: the acked handle becomes done, everything
/// else is untouched.
pub open spec fn ack_items(items: Seq<ItemV>, h: u64) -> Seq<ItemV> {
    Seq::new(
        items.len(),
        |j: int|
            if items[j].handle == h && items[j].phase is InFlight {
                ItemV {
                    handle: items[j].handle,
                    visible_at: items[j].visible_at,
                    payload: items[j].payload,
                    phase: ItemPhase::Done,
                }
            } else {
                items[j]
            },
    )
}

/// Requeueing one in-flight item: the nacked handle becomes pending again,
/// immediately visible at `now`.
pub open spec fn nack_items(items: Seq<ItemV>, h: u64, now: u64) -> Seq<ItemV> {
    Seq::new(
        items.len(),
        |j: int|
            if items[j].handle == h && items[j].phase is InFlight {
                ItemV {
                    handle: items[j].handle,
                    visible_at: now,
                    payload: items[j].payload,
                    phase: ItemPhase::Pending,
                }
            } else {
                items[j]
            },
    )
}

/// Finalizing touches in-flight items only: an item already retired by an
/// ack, or returned to pending by a nack, is never changed by another
/// finalize call — one delivery is finalized at most once. (The delivery
/// value itself is consumed by its finalize call, so a second call cannot
/// even be written.)
pub proof fn lemma_finalize_touches_only_in_flight(items: Seq<ItemV>, h: u64, now: u64, j: int)
    requires
        0 <= j < items.len(),
        !(items[j].phase is InFlight),
    ensures
        ack_items(items, h)[j] == items[j],
        nack_items(items, h, now)[j] == items[j],
{
}

/// What one sweep hands out for one item.
#[derive(Debug)]
pub struct RawDelivery {
    pub handle: u64,
    pub visible_at: u64,
    pub payload: Option<String>,
}

pub open spec fn raw_matches(r: RawDelivery, it: ItemV) -> bool {
    r.handle == it.handle && r.visible_at == it.visible_at && pay_of(r.payload) == it.payload
}

fn clone_payload(p: &Option<String>) -> (r: Option<String>)
    ensures
        pay_of(r) == pay_of(*p),
{
    match p {
        Some(s) => Some(s.clone()),
        None => None,
    }
}

fn clone_item(it: &QueueItem) -> (r: QueueItem)
    ensures
        r@ == it@,
{
    QueueItem {
        handle: it.handle,
        visible_at: it.visible_at,
        payload: clone_payload(&it.payload),
        phase: it.phase,
    }
}

impl MemState {
    /// An empty queue at logical time zero.
    pub fn new() -> (r: MemState)
        ensures
            r@.now_ms == 0,
            r@.next_handle == 0,
            r@.items =~= Seq::<ItemV>::empty(),
            r@.fault is None,
    {
        MemState { now_ms: 0, next_handle: 0, items: Vec::new(), fault: None }
    }

    /// Moves the logical clock forward.
    pub fn advance_clock(&mut self, ms: u64)
        ensures
            final(self)@ == (MemV { now_ms: sat_add(old(self)@.now_ms, ms), ..old(self)@ }),
    {
        if ms > u64::MAX - self.now_ms {
            self.now_ms = u64::MAX;
        } else {
            self.now_ms = self.now_ms + ms;
        }
        proof {
            assert(self@ =~= (MemV { now_ms: sat_add(old(self)@.now_ms, ms), ..old(self)@ }));
        }
    }

    /// Scripts the next failures of one operation kind.
    pub fn set_fault(&mut self, fault: Option<FaultScript>)
        ensures
            final(self)@ == (MemV { fault, ..old(self)@ }),
    {
        self.fault = fault;
        proof {
            assert(self@ =~= (MemV { fault, ..old(self)@ }));
        }
    }

    /// Consumes one scripted failure of `op`, if one is due.
    fn take_fault(&mut self, op: QueueOp) -> (r: Option<Error>)
        ensures
            r == (if fires(old(self)@.fault, op) {
                Some(f_kind(old(self)@.fault))
            } else {
                None::<Error>
            }),
            final(self)@ == (MemV { fault: dec_fault(old(self)@.fault, op), ..old(self)@ }),
    {
        let cur: Option<FaultScript> = self.fault;
        let r: Option<Error> = match cur {
            None => None,
            Some(fs) => {
                if fs.op == op && fs.remaining > 0 {
                    self.fault = Some(
                        FaultScript { op: fs.op, kind: fs.kind, remaining: fs.remaining - 1 },
                    );
                    Some(fs.kind)
                } else {
                    None
                }
            },
        };
        proof {
            assert(self@ =~= (MemV { fault: dec_fault(old(self)@.fault, op), ..old(self)@ }));
        }
        r
    }

    /// One enqueue attempt: the item becomes visible at `now + delay_ms`,
    /// unless a scripted fault strikes first.
    pub fn try_send(&mut self, payload: &Option<String>, delay_ms: u64) -> (r: Result<(), Error>)
        ensures
            final(self)@.now_ms == old(self)@.now_ms,
            final(self)@.fault == dec_fault(old(self)@.fault, QueueOp::Send),
            fires(old(self)@.fault, QueueOp::Send) ==> (r matches Err(e) && e == f_kind(
                old(self)@.fault,
            ) && final(self)@.items == old(self)@.items && final(self)@.next_handle == old(
                self,
            )@.next_handle),
            !fires(old(self)@.fault, QueueOp::Send) ==> (r is Ok && final(self)@.items == old(
                self,
            )@.items.push(
                ItemV {
                    handle: old(self)@.next_handle,
                    visible_at: sat_add(old(self)@.now_ms, delay_ms),
                    payload: pay_of(*payload),
                    phase: ItemPhase::Pending,
                },
            ) && final(self)@.next_handle == sat_add(old(self)@.next_handle, 1)),
    {
        if let Some(e) = self.take_fault(QueueOp::Send) {
            return Err(e);
        }
        let vis: u64 = if delay_ms > u64::MAX - self.now_ms {
            u64::MAX
        } else {
            self.now_ms + delay_ms
        };
        let item = QueueItem {
            handle: self.next_handle,
            visible_at: vis,
            payload: clone_payload(payload),
            phase: ItemPhase::Pending,
        };
        self.items.push(item);
        self.next_handle = if self.next_handle < u64::MAX {
            self.next_handle + 1
        } else {
            u64::MAX
        };
        proof {
            assert(self@.items =~= old(self)@.items.push(
                ItemV {
                    handle: old(self)@.next_handle,
                    visible_at: sat_add(old(self)@.now_ms, delay_ms),
                    payload: pay_of(*payload),
                    phase: ItemPhase::Pending,
                },
            ));
        }
        Ok(())
    }

    /// One sweep: up to [`BATCH_CAP`] pending items whose visibility time
    /// has come, in queue order, each marked in flight.
    pub fn receive_visible(&mut self) -> (r: Result<Vec<RawDelivery>, Error>)
        ensures
            final(self)@.now_ms == old(self)@.now_ms,
            final(self)@.next_handle == old(self)@.next_handle,
            final(self)@.fault == dec_fault(old(self)@.fault, QueueOp::Receive),
            fires(old(self)@.fault, QueueOp::Receive) ==> (r matches Err(e) && e == f_kind(
                old(self)@.fault,
            ) && final(self)@.items == old(self)@.items),
            !fires(old(self)@.fault, QueueOp::Receive) ==> (r matches Ok(out) && ({
                let sw = sweep(old(self)@.items, old(self)@.now_ms, BATCH_CAP as nat);
                &&& final(self)@.items == sw.1
                &&& out@.len() == sw.0.len()
                &&& out@.len() <= BATCH_CAP
                &&& forall|j: int| 0 <= j < out@.len() ==> raw_matches(#[trigger] out@[j], sw.0[j])
            })),
    {
        if let Some(e) = self.take_fault(QueueOp::Receive) {
            return Err(e);
        }
        let ghost items0 = self@.items;
        let ghost now0 = self@.now_ms;
        let ghost sw = sweep(items0, now0, BATCH_CAP as nat);
        let n: usize = self.items.len();
        let mut out: Vec<RawDelivery> = Vec::new();
        let mut kept: Vec<QueueItem> = Vec::new();
        let mut i: usize = 0;
        proof {
            assert(items0.skip(0) =~= items0);
            assert(sw.0.skip(0) =~= sw.0);
            assert(sw.1.skip(0) =~= sw.1);
        }
        while i < n
            invariant
                i <= n,
                n == self.items.len(),
                self@.items == items0,
                self@.now_ms == now0,
                out@.len() <= BATCH_CAP as nat,
                out@.len() <= sw.0.len(),
                kept@.len() == i,
                sweep(items0.skip(i as int), now0, (BATCH_CAP as nat - out@.len()) as nat) == (
                    sw.0.skip(out@.len() as int),
                    sw.1.skip(i as int),
                ),
                forall|j: int| 0 <= j < out@.len() ==> raw_matches(#[trigger] out@[j], sw.0[j]),
                forall|j: int| 0 <= j < i ==> #[trigger] kept@[j]@ == sw.1[j],
                i <= sw.1.len(),
            decreases n - i,
        {
            let ghost k = out@.len() as int;
            let ghost suf = items0.skip(i as int);
            proof {
                assert(suf.len() == n - i);
                assert(suf[0] == items0[i as int]);
                assert(suf.skip(1) =~= items0.skip(i as int + 1));
                assert(self@.items[i as int] == self.items@[i as int]@);
                assert(items0[i as int] == self.items@[i as int]@);
            }
            let ready: bool = self.items[i].phase == ItemPhase::Pending && self.items[i].visible_at
                <= self.now_ms;
            if ready && out.len() < BATCH_CAP {
                let payload = clone_payload(&self.items[i].payload);
                let handle: u64 = self.items[i].handle;
                let visible_at: u64 = self.items[i].visible_at;
                out.push(RawDelivery { handle, visible_at, payload: clone_payload(&self.items[i].payload) });
                kept.push(QueueItem { handle, visible_at, payload, phase: ItemPhase::InFlight });
                proof {
                    let capr = (BATCH_CAP as nat - k as nat) as nat;
                    assert(item_ready(suf[0], now0) && capr > 0);
                    let rr = sweep(suf.skip(1), now0, (capr - 1) as nat);
                    assert(sweep(suf, now0, capr) == (seq![suf[0]] + rr.0, seq![flip_in_flight(suf[0])] + rr.1));
                    assert(sweep(suf, now0, capr).0 == sw.0.skip(k));
                    assert(sw.0.skip(k) == seq![suf[0]] + rr.0);
                    assert(k < sw.0.len());
                    assert(sweep(suf, now0, capr).1 == sw.1.skip(i as int));
                    assert(sw.1.skip(i as int) == seq![flip_in_flight(suf[0])] + rr.1);
                    assert(i < sw.1.len());
                    assert(sw.0.skip(k)[0] == sw.0[k]);
                    assert(sw.0[k] == suf[0]);
                    assert(sw.1.skip(i as int)[0] == sw.1[i as int]);
                    assert(sw.1[i as int] == flip_in_flight(suf[0]));
                    assert(kept@[i as int]@ =~= flip_in_flight(suf[0]));
                    assert((seq![suf[0]] + rr.0).skip(1) =~= rr.0);
                    assert((seq![flip_in_flight(suf[0])] + rr.1).skip(1) =~= rr.1);
                    assert(sw.0.skip(k).skip(1) =~= sw.0.skip(k + 1));
                    assert(sw.1.skip(i as int).skip(1) =~= sw.1.skip(i as int + 1));
                    assert(rr.0 == sw.0.skip(k + 1));
                    assert(rr.1 == sw.1.skip(i as int + 1));
                    assert(k + 1 <= sw.0.len());
                }
            } else {
                kept.push(clone_item(&self.items[i]));
                proof {
                    let capr = (BATCH_CAP as nat - k as nat) as nat;
                    assert(!(item_ready(suf[0], now0) && capr > 0));
                    let rr = sweep(suf.skip(1), now0, capr);
                    assert(sweep(suf, now0, capr) == (rr.0, seq![suf[0]] + rr.1));
                    assert(sweep(suf, now0, capr).1 == sw.1.skip(i as int));
                    assert(sw.1.skip(i as int) == seq![suf[0]] + rr.1);
                    assert(sw.1.skip(i as int).len() >= 1);
                    assert(i < sw.1.len());
                    assert(sw.1.skip(i as int)[0] == sw.1[i as int]);
                    assert(sw.1[i as int] == suf[0]);
                    assert(kept@[i as int]@ == suf[0]);
                    assert((seq![suf[0]] + rr.1).skip(1) =~= rr.1);
                    assert(sw.1.skip(i as int).skip(1) =~= sw.1.skip(i as int + 1));
                    assert(rr.1 == sw.1.skip(i as int + 1));
                }
            }
            i = i + 1;
        }
        proof {
            assert(items0.skip(n as int) =~= Seq::<ItemV>::empty());
            let k = out@.len() as int;
            assert(sw.0.skip(k) =~= Seq::<ItemV>::empty());
            assert(sw.1.skip(n as int) =~= Seq::<ItemV>::empty());
            assert(out@.len() == sw.0.len());
            assert(kept@.len() == sw.1.len());
        }
        self.items = kept;
        proof {
            assert(self@.items =~= sw.1);
        }
        Ok(out)
    }

    /// One ack attempt: hands the handle back on failure so a retry can use
    /// it again.
    pub fn try_ack(&mut self, handle: u64) -> (r: Result<(), (Error, u64)>)
        ensures
            final(self)@.now_ms == old(self)@.now_ms,
            final(self)@.next_handle == old(self)@.next_handle,
            final(self)@.fault == dec_fault(old(self)@.fault, QueueOp::Ack),
            fires(old(self)@.fault, QueueOp::Ack) ==> (r matches Err(p) && p.0 == f_kind(
                old(self)@.fault,
            ) && p.1 == handle && final(self)@.items == old(self)@.items),
            !fires(old(self)@.fault, QueueOp::Ack) ==> (r is Ok && final(self)@.items == ack_items(
                old(self)@.items,
                handle,
            )),
    {
        if let Some(e) = self.take_fault(QueueOp::Ack) {
            return Err((e, handle));
        }
        let ghost items0 = self@.items;
        let n: usize = self.items.len();
        let mut i: usize = 0;
        while i < n
            invariant
                i <= n,
                n == self.items.len(),
                self@.items.len() == items0.len(),
                self@.now_ms == old(self)@.now_ms,
                self@.next_handle == old(self)@.next_handle,
                self@.fault == dec_fault(old(self)@.fault, QueueOp::Ack),
                forall|j: int| i <= j < n ==> #[trigger] self@.items[j] == items0[j],
                forall|j: int| 0 <= j < i ==> #[trigger] self@.items[j] == ack_items(items0, handle)[j],
            decreases n - i,
        {
            let ghost prev = self@.items;
            proof {
                assert(self@.items[i as int] == self.items@[i as int]@);
                assert(self.items@[i as int]@ == items0[i as int]);
            }
            if self.items[i].handle == handle && self.items[i].phase == ItemPhase::InFlight {
                let updated = QueueItem {
                    handle: self.items[i].handle,
                    visible_at: self.items[i].visible_at,
                    payload: clone_payload(&self.items[i].payload),
                    phase: ItemPhase::Done,
                };
                proof {
                    assert(updated@ == ack_items(items0, handle)[i as int]);
                }
                self.items.set(i, updated);
                proof {
                    assert(self@.items =~= prev.update(i as int, updated@));
                }
            } else {
                proof {
                    assert(self@.items[i as int] == ack_items(items0, handle)[i as int]);
                }
            }
            i = i + 1;
        }
        proof {
            assert(self@.items =~= ack_items(items0, handle));
        }
        Ok(())
    }

    /// One nack attempt: on success the item is pending again, visible now;
    /// on failure the handle comes back for the next attempt.
    pub fn try_nack(&mut self, handle: u64) -> (r: Result<(), (Error, u64)>)
        ensures
            final(self)@.now_ms == old(self)@.now_ms,
            final(self)@.next_handle == old(self)@.next_handle,
            final(self)@.fault == dec_fault(old(self)@.fault, QueueOp::Nack),
            fires(old(self)@.fault, QueueOp::Nack) ==> (r matches Err(p) && p.0 == f_kind(
                old(self)@.fault,
            ) && p.1 == handle && final(self)@.items == old(self)@.items),
            !fires(old(self)@.fault, QueueOp::Nack) ==> (r is Ok && final(self)@.items == nack_items(
                old(self)@.items,
                handle,
                old(self)@.now_ms,
            )),
    {
        if let Some(e) = self.take_fault(QueueOp::Nack) {
            return Err((e, handle));
        }
        let ghost items0 = self@.items;
        let n: usize = self.items.len();
        let mut i: usize = 0;
        while i < n
            invariant
                i <= n,
                n == self.items.len(),
                self@.items.len() == items0.len(),
                self@.now_ms == old(self)@.now_ms,
                self@.next_handle == old(self)@.next_handle,
                self@.fault == dec_fault(old(self)@.fault, QueueOp::Nack),
                forall|j: int| i <= j < n ==> #[trigger] self@.items[j] == items0[j],
                forall|j: int|
                    0 <= j < i ==> #[trigger] self@.items[j] == nack_items(
                        items0,
                        handle,
                        old(self)@.now_ms,
                    )[j],
            decreases n - i,
        {
            let ghost prev = self@.items;
            proof {
                assert(self@.items[i as int] == self.items@[i as int]@);
                assert(self.items@[i as int]@ == items0[i as int]);
            }
            if self.items[i].handle == handle && self.items[i].phase == ItemPhase::InFlight {
                let updated = QueueItem {
                    handle: self.items[i].handle,
                    visible_at: self.now_ms,
                    payload: clone_payload(&self.items[i].payload),
                    phase: ItemPhase::Pending,
                };
                proof {
                    assert(updated@ == nack_items(items0, handle, old(self)@.now_ms)[i as int]);
                }
                self.items.set(i, updated);
                proof {
                    assert(self@.items =~= prev.update(i as int, updated@));
                }
            } else {
                proof {
                    assert(self@.items[i as int] == nack_items(items0, handle, old(self)@.now_ms)[i as int]);
                }
            }
            i = i + 1;
        }
        proof {
            assert(self@.items =~= nack_items(items0, handle, old(self)@.now_ms));
        }
        Ok(())
    }
}

/// Ack or nack, as one finalize operation.
#[derive(Clone, Copy, Debug, PartialEq, Eq, Structural)]
pub enum FinalizeOp {
    Ack,
    Nack,
}

pub open spec fn qop(op: FinalizeOp) -> QueueOp {
    match op {
        FinalizeOp::Ack => QueueOp::Ack,
        FinalizeOp::Nack => QueueOp::Nack,
    }
}

pub open spec fn fin_items(items: Seq<ItemV>, h: u64, op: FinalizeOp, now: u64) -> Seq<ItemV> {
    match op {
        FinalizeOp::Ack => ack_items(items, h),
        FinalizeOp::Nack => nack_items(items, h, now),
    }
}

/// Well-formed handle bookkeeping: every issued handle lies below the
/// next one, so handles are never reused and finalizing one delivery can
/// never touch another.
pub open spec fn handles_wf(items: Seq<ItemV>, next_handle: u64) -> bool {
    &&& forall|i: int| 0 <= i < items.len() ==> (#[trigger] items[i]).handle < next_handle
    &&& forall|i: int, j: int|
        0 <= i < j < items.len() ==> (#[trigger] items[i]).handle != (#[trigger] items[j]).handle
}

/// The full effect of one finalize call under the retry policy, as a
/// relation between the transport states around the call, the handle, the
/// operation and the result.
pub open spec fn finalize_rel(
    pre: MemV,
    post: MemV,
    handle: u64,
    op: FinalizeOp,
    r: Result<(), Error>,
) -> bool {
    let n = fault_n(pre.fault, qop(op));
    let k = f_kind(pre.fault);
    &&& post.now_ms == pre.now_ms
    &&& post.next_handle == pre.next_handle
    &&& (r is Ok <==> (n == 0 || (k is Queue && n < RETRY_ATTEMPTS as nat)))
    &&& (r is Ok ==> post.items == fin_items(pre.items, handle, op, pre.now_ms))
    &&& (r is Err ==> post.items == pre.items)
    &&& (n == 0 ==> post.fault == pre.fault)
    &&& (n > 0 && k is Queue && n < RETRY_ATTEMPTS as nat ==> fault_n(post.fault, qop(op)) == 0)
    &&& (n >= RETRY_ATTEMPTS as nat && k is Queue ==> (r matches Err(e) && e == k && fault_n(
        post.fault,
        qop(op),
    ) == n - RETRY_ATTEMPTS as nat))
    &&& (n > 0 && !(k is Queue) ==> (r matches Err(e) && e == k && fault_n(post.fault, qop(op))
        == n - 1))
}

/// The full effect of one enqueue under the retry policy: on success
/// exactly one item carrying the payload is appended, visible once the
/// delay has elapsed; on failure nothing is enqueued; success comes
/// exactly when the scripted transport failures number fewer than the
/// retry slots, and a non-transport failure surfaces with zero retries.
pub open spec fn send_rel(
    pre: MemV,
    post: MemV,
    payload: Option<Seq<char>>,
    delay_ms: u64,
    r: Result<(), Error>,
) -> bool {
    let n = fault_n(pre.fault, QueueOp::Send);
    let k = f_kind(pre.fault);
    if pre.next_handle == u64::MAX {
        &&& post == pre
        &&& (r matches Err(e) && e is Queue)
    } else {
        &&& post.now_ms == pre.now_ms
        &&& (r is Ok <==> (n == 0 || (k is Queue && n < RETRY_ATTEMPTS as nat)))
        &&& (r is Ok ==> post.items == pre.items.push(
            ItemV {
                handle: pre.next_handle,
                visible_at: sat_add(pre.now_ms, delay_ms),
                payload,
                phase: ItemPhase::Pending,
            },
        ) && post.next_handle == sat_add(pre.next_handle, 1))
        &&& (r is Err ==> post.items == pre.items && post.next_handle == pre.next_handle)
        &&& (n == 0 ==> post.fault == pre.fault)
        &&& (n > 0 && k is Queue && n < RETRY_ATTEMPTS as nat ==> fault_n(
            post.fault,
            QueueOp::Send,
        ) == 0)
        &&& (n >= RETRY_ATTEMPTS as nat && k is Queue ==> (r matches Err(e) && e == k && fault_n(
            post.fault,
            QueueOp::Send,
        ) == n - RETRY_ATTEMPTS as nat))
        &&& (n > 0 && !(k is Queue) ==> (r matches Err(e) && e == k && fault_n(
            post.fault,
            QueueOp::Send,
        ) == n - 1))
    }
}

/// A sweep keeps every item's handle in place: only phases flip.
pub proof fn lemma_sweep_same_handles(items: Seq<ItemV>, now: u64, cap: nat)
    ensures
        sweep(items, now, cap).1.len() == items.len(),
        forall|j: int|
            0 <= j < items.len() ==> (#[trigger] sweep(items, now, cap).1[j]).handle
                == items[j].handle,
    decreases items.len(),
{
    if items.len() > 0 {
        if item_ready(items[0], now) && cap > 0 {
            lemma_sweep_same_handles(items.skip(1), now, (cap - 1) as nat);
            let r = sweep(items.skip(1), now, (cap - 1) as nat);
            assert forall|j: int| 0 <= j < items.len() implies (#[trigger] sweep(
                items,
                now,
                cap,
            ).1[j]).handle == items[j].handle by {
                if j > 0 {
                    assert(sweep(items, now, cap).1[j] == r.1[j - 1]);
                    assert(items.skip(1)[j - 1] == items[j]);
                }
            }
        } else {
            lemma_sweep_same_handles(items.skip(1), now, cap);
            let r = sweep(items.skip(1), now, cap);
            assert forall|j: int| 0 <= j < items.len() implies (#[trigger] sweep(
                items,
                now,
                cap,
            ).1[j]).handle == items[j].handle by {
                if j > 0 {
                    assert(sweep(items, now, cap).1[j] == r.1[j - 1]);
                    assert(items.skip(1)[j - 1] == items[j]);
                }
            }
        }
    }
}

/// A sweep preserves well-formed handle bookkeeping.
pub proof fn lemma_handles_wf_sweep(items: Seq<ItemV>, next_handle: u64, now: u64, cap: nat)
    requires
        handles_wf(items, next_handle),
    ensures
        handles_wf(sweep(items, now, cap).1, next_handle),
{
    lemma_sweep_same_handles(items, now, cap);
}

/// Finalizing preserves well-formed handle bookkeeping.
pub proof fn lemma_handles_wf_fin(
    items: Seq<ItemV>,
    next_handle: u64,
    h: u64,
    op: FinalizeOp,
    now: u64,
)
    requires
        handles_wf(items, next_handle),
    ensures
        handles_wf(fin_items(items, h, op, now), next_handle),
{
    let after = fin_items(items, h, op, now);
    assert forall|j: int| 0 <= j < after.len() implies (#[trigger] after[j]).handle
        == items[j].handle by {}
}

/// Appending one item carrying the next handle preserves well-formed
/// handle bookkeeping.
pub proof fn lemma_handles_wf_push(items: Seq<ItemV>, next_handle: u64, it: ItemV)
    requires
        handles_wf(items, next_handle),
        it.handle == next_handle,
        next_handle < u64::MAX,
    ensures
        handles_wf(items.push(it), (next_handle + 1) as u64),
{
    let after = items.push(it);
    assert forall|i: int| 0 <= i < after.len() implies (#[trigger] after[i]).handle < next_handle
        + 1 by {
        if i < items.len() {
            assert(after[i] == items[i]);
        }
    }
    assert forall|i: int, j: int| 0 <= i < j < after.len() implies (#[trigger] after[i]).handle
        != (#[trigger] after[j]).handle by {
        if j < items.len() {
            assert(after[i] == items[i]);
            assert(after[j] == items[j]);
        } else {
            assert(after[i] == items[i]);
            assert(after[j] == it);
        }
    }
}

impl MemState {
    /// One finalize call under the bounded retry policy.
    ///
    /// The native handle sits in a slot: each attempt takes it out, and a
    /// failed attempt hands it back so the next attempt has it again, while
    /// a successful attempt consumes it for good. Scripted transport
    /// failures are retried up to the schedule's length; any other failure
    /// kind surfaces at once, with zero retries.
    pub fn finalize_with_retries(&mut self, handle: u64, op: FinalizeOp) -> (r: Result<(), Error>)
        ensures
            finalize_rel(old(self)@, final(self)@, handle, op, r),
    {
        let ghost n0 = fault_n(old(self)@.fault, qop(op));
        let ghost kk = f_kind(old(self)@.fault);
        let mut slot: Option<u64> = Some(handle);
        let mut last: Error = Error::Queue;
        let mut i: usize = 0;
        while i < RETRY_ATTEMPTS
            invariant
                i <= RETRY_ATTEMPTS,
                slot == Some(handle),
                self@.now_ms == old(self)@.now_ms,
                self@.next_handle == old(self)@.next_handle,
                self@.items == old(self)@.items,
                n0 == fault_n(old(self)@.fault, qop(op)),
                kk == f_kind(old(self)@.fault),
                i as nat <= n0,
                i > 0 ==> kk is Queue && last == kk,
                fault_n(self@.fault, qop(op)) == n0 - i,
                n0 - i > 0 ==> fires(self@.fault, qop(op)) && f_kind(self@.fault) == kk,
                i == 0 ==> self@.fault == old(self)@.fault,
            decreases RETRY_ATTEMPTS - i,
        {
            let h: u64 = match slot {
                Some(h) => h,
                None => {
                    proof {
                        assert(false);
                    }
                    0
                },
            };
            slot = None;
            let attempt = match op {
                FinalizeOp::Ack => self.try_ack(h),
                FinalizeOp::Nack => self.try_nack(h),
            };
            match attempt {
                Ok(()) => {
                    return Ok(());
                },
                Err(p) => {
                    let e: Error = p.0;
                    slot = Some(p.1);
                    last = e;
                    if !should_retry(&e) {
                        return Err(e);
                    }
                    i = i + 1;
                },
            }
        }
        Err(last)
    }

    /// One enqueue under the bounded retry policy: a task sent with a delay
    /// becomes visible only once the delay has elapsed.
    pub fn send_with_retries(&mut self, payload: &Option<String>, delay_ms: u64) -> (r: Result<
        (),
        Error,
    >)
        ensures
            send_rel(old(self)@, final(self)@, pay_of(*payload), delay_ms, r),
    {
        if self.next_handle == u64::MAX {
            // Handle space exhausted: refusing the enqueue (as a transport
            // failure) keeps every issued handle unique.
            proof {
                assert(self@ =~= old(self)@);
            }
            return Err(Error::Queue);
        }
        let ghost n0 = fault_n(old(self)@.fault, QueueOp::Send);
        let ghost kk = f_kind(old(self)@.fault);
        let mut last: Error = Error::Queue;
        let mut i: usize = 0;
        while i < RETRY_ATTEMPTS
            invariant
                i <= RETRY_ATTEMPTS,
                old(self)@.next_handle < u64::MAX,
                self@.now_ms == old(self)@.now_ms,
                self@.next_handle == old(self)@.next_handle,
                self@.items == old(self)@.items,
                n0 == fault_n(old(self)@.fault, QueueOp::Send),
                kk == f_kind(old(self)@.fault),
                i as nat <= n0,
                i > 0 ==> kk is Queue && last == kk,
                fault_n(self@.fault, QueueOp::Send) == n0 - i,
                n0 - i > 0 ==> fires(self@.fault, QueueOp::Send) && f_kind(self@.fault) == kk,
                i == 0 ==> self@.fault == old(self)@.fault,
            decreases RETRY_ATTEMPTS - i,
        {
            match self.try_send(payload, delay_ms) {
                Ok(()) => {
                    return Ok(());
                },
                Err(e) => {
                    last = e;
                    if !should_retry(&e) {
                        return Err(e);
                    }
                    i = i + 1;
                },
            }
        }
        Err(last)
    }
}

} // verus!
