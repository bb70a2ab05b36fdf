//! The producer handle: what a real-time thread holds to submit records.
//!
//! A handle stamps each envelope with its producer id and with the next
//! number of its own sequence, and hands it to the queue. The sequence
//! advances on every submission, accepted or dropped, so that the gaps
//! between the sequence numbers that the consumer observes count the drops.
//! It also keeps the timestamps of its producer from going down. Nothing
//! here waits or allocates, and the one loop behind it is bounded by the
//! payload budget.

use crate::envelope::{EncodeError, Envelope, EnvelopeView, Payload, PayloadView, RecordCodec};
use crate::queue::{
    all_ready, counted_up, ready_prefix, QueueCore, QueueOp, QueueView, Slot, SubmitResult,
};
use crate::severity::Severity;
use vstd::prelude::*;

verus! {

/// How an attempt to log a record ended.
#[derive(Clone, Copy, Debug, PartialEq, Eq, Structural)]
pub enum LogOutcome {
    /// The record was copied into a free slot of the queue.
    Accepted,
    /// The queue was saturated; the record was dropped and counted there.
    Dropped,
    /// The encoded fields exceed the payload budget; no record was built,
    /// and the handle counted the rejection.
    Oversize,
}

/// The sequence number that follows `s`; after 65535 comes 0.
pub open spec fn next_stamp(s: u16) -> u16 {
    if s == u16::MAX {
        0
    } else {
        (s + 1) as u16
    }
}

/// The sequence number of the call that comes `calls` submissions after the
/// one stamped `start`.
pub open spec fn stamp_after(start: u16, calls: nat) -> u16 {
    ((start + calls) % 0x1_0000) as u16
}

/// How many sequence numbers lie strictly between two stamps, going up from
/// `earlier` to `later` and wrapping behind 65535.
pub open spec fn sequence_gap(earlier: u16, later: u16) -> int {
    (later - earlier - 1) % 0x1_0000
}

/// How many of the submissions strictly between call `i` and call `j` were
/// dropped.
pub open spec fn drops_between(results: Seq<SubmitResult>, i: int, j: int) -> nat
    decreases j - i,
{
    if j <= i + 1 {
        0
    } else {
        drops_between(results, i, j - 1) + if results[j - 1] is Dropped {
            1nat
        } else {
            0nat
        }
    }
}

/// The later of two clock readings.
pub open spec fn later(a: u64, b: u64) -> u64 {
    if a >= b {
        a
    } else {
        b
    }
}

/// What a producer handle holds.
pub struct ProducerView {
    /// The id that the handle stamps on its records.
    pub producer_id: u16,
    /// The sequence number of the next submission.
    pub next_sequence: u16,
    /// The timestamp of the last submission; zero before the first.
    pub last_timestamp: u64,
    /// Records rejected for exceeding the payload budget, as far as a `u64`
    /// counts.
    pub oversize: nat,
}

/// `envelope` as the handle `h` submits it: with the id of the producer,
/// its next sequence number, and a timestamp that is not older than that of
/// the submission before.
pub open spec fn stamped(envelope: Envelope, h: ProducerView) -> Envelope {
    Envelope {
        producer_id: h.producer_id,
        sequence: h.next_sequence,
        timestamp: later(envelope.timestamp, h.last_timestamp),
        ..envelope
    }
}

/// The handle `h` after it submitted a record with the given clock reading.
pub open spec fn advanced(h: ProducerView, timestamp: u64) -> ProducerView {
    ProducerView {
        next_sequence: next_stamp(h.next_sequence),
        last_timestamp: later(timestamp, h.last_timestamp),
        ..h
    }
}

/// The handle of one producer thread.
#[derive(Clone, Copy, Debug, PartialEq, Eq)]
pub struct ProducerHandle {
    producer_id: u16,
    next_sequence: u16,
    last_timestamp: u64,
    oversize: u64,
}

impl View for ProducerHandle {
    type V = ProducerView;

    closed spec fn view(&self) -> ProducerView {
        ProducerView {
            producer_id: self.producer_id,
            next_sequence: self.next_sequence,
            last_timestamp: self.last_timestamp,
            oversize: self.oversize as nat,
        }
    }
}

impl ProducerHandle {
    /// The handle of the producer with the given id. Its sequence starts at
    /// zero.
    pub fn new(producer_id: u16) -> (h: ProducerHandle)
        ensures
            h@ == (ProducerView {
                producer_id,
                next_sequence: 0,
                last_timestamp: 0,
                oversize: 0,
            }),
    {
        ProducerHandle { producer_id, next_sequence: 0, last_timestamp: 0, oversize: 0 }
    }

    /// The timestamp of the last submission; zero before the first.
    pub fn last_timestamp(&self) -> (t: u64)
        ensures
            t == self@.last_timestamp,
    {
        self.last_timestamp
    }

    /// The id that the handle stamps on its records.
    pub fn producer_id(&self) -> (id: u16)
        ensures
            id == self@.producer_id,
    {
        self.producer_id
    }

    /// The sequence number of the next submission.
    pub fn next_sequence(&self) -> (s: u16)
        ensures
            s == self@.next_sequence,
    {
        self.next_sequence
    }

    /// Records rejected so far for exceeding the payload budget. The count
    /// stops at the greatest `u64`.
    pub fn oversize_count(&self) -> (n: u64)
        ensures
            n == self@.oversize,
    {
        self.oversize
    }

    /// Submits `envelope`, stamped with the id of this producer and its next
    /// sequence number. The sequence advances whether the envelope is
    /// accepted or dropped. The timestamps of a producer never go down: a
    /// clock reading older than that of the submission before is replaced by
    /// that one.
    pub fn submit(&mut self, queue: &mut QueueCore, envelope: Envelope) -> (r: SubmitResult)
        requires
            old(queue).wf(),
        ensures
            final(queue).wf(),
            r == old(queue)@.submit_result(),
            final(queue)@ == old(queue)@.after_submit(stamped(envelope, old(self)@)),
            final(self)@ == advanced(old(self)@, envelope.timestamp),
    {
        let timestamp: u64 = if envelope.timestamp >= self.last_timestamp {
            envelope.timestamp
        } else {
            self.last_timestamp
        };
        let out = Envelope {
            timestamp,
            severity: envelope.severity,
            producer_id: self.producer_id,
            sequence: self.next_sequence,
            context: envelope.context,
            payload: envelope.payload,
        };
        self.next_sequence = if self.next_sequence == u16::MAX {
            0
        } else {
            self.next_sequence + 1
        };
        self.last_timestamp = timestamp;
        queue.submit(out)
    }

    /// Encodes `record` and submits it as a structured record. If its
    /// fields exceed the payload budget nothing reaches the queue, no
    /// sequence number is spent, and the rejection is counted once.
    pub fn submit_record<T: RecordCodec>(
        &mut self,
        queue: &mut QueueCore,
        timestamp: u64,
        severity: Severity,
        context: [u8; 64],
        record: &T,
    ) -> (r: LogOutcome)
        requires
            old(queue).wf(),
        ensures
            final(queue).wf(),
            r == structured_outcome(old(queue)@, record.fields()),
            r is Oversize ==> final(queue)@ == old(queue)@ && final(self)@ == (ProducerView {
                oversize: counted_up(old(self)@.oversize),
                ..old(self)@
            }),
            !(r is Oversize) ==> final(self)@ == advanced(old(self)@, timestamp),
            r is Dropped ==> final(queue)@ == (QueueView {
                dropped: counted_up(old(queue)@.dropped),
                ..old(queue)@
            }),
            r is Accepted ==> ({
                let after = final(queue)@;
                let before = old(queue)@;
                &&& after.capacity == before.capacity
                &&& after.dropped == before.dropped
                &&& after.flight.len() == before.flight.len() + 1
                &&& after.flight.drop_last() == before.flight
                &&& after.flight.last() is Ready
                &&& after.flight.last()->Ready_0@ == (EnvelopeView {
                    timestamp: later(timestamp, old(self)@.last_timestamp),
                    severity,
                    producer_id: old(self)@.producer_id,
                    sequence: old(self)@.next_sequence,
                    context: context@,
                    payload: PayloadView { tag: record.schema(), data: record.fields() },
                })
            }),
    {
        match Payload::of_record(record) {
            Err(EncodeError::Oversize) => {
                self.oversize = self.oversize.saturating_add(1);
                LogOutcome::Oversize
            },
            Ok(payload) => {
                let envelope = Envelope {
                    timestamp,
                    severity,
                    producer_id: self.producer_id,
                    sequence: self.next_sequence,
                    context,
                    payload,
                };
                let r = self.submit(queue, envelope);
                proof {
                    let last = Slot::Ready(envelope);
                    if r is Accepted {
                        assert(old(queue)@.flight.push(last).drop_last() =~= old(queue)@.flight);
                    }
                }
                match r {
                    SubmitResult::Accepted => LogOutcome::Accepted,
                    SubmitResult::Dropped => LogOutcome::Dropped,
                }
            },
        }
    }
}

/// How the attempt to log a structured record with the given encoded fields
/// ends on the given queue.
pub open spec fn structured_outcome(queue: QueueView, fields: Seq<u8>) -> LogOutcome {
    if fields.len() > crate::envelope::PAYLOAD_BUDGET {
        LogOutcome::Oversize
    } else if queue.is_full() {
        LogOutcome::Dropped
    } else {
        LogOutcome::Accepted
    }
}

/// The stamps of successive submissions follow each other.
pub proof fn lemma_stamp_after_step(start: u16, calls: nat)
    ensures
        stamp_after(start, 0) == start,
        stamp_after(start, calls + 1) == next_stamp(stamp_after(start, calls)),
{
}

/// Between two calls of which none was accepted, every call was a drop.
pub proof fn lemma_drops_between_all_dropped(results: Seq<SubmitResult>, i: int, j: int)
    requires
        0 <= i < j <= results.len(),
        forall|k: int| i < k < j ==> results[k] is Dropped,
    ensures
        drops_between(results, i, j) == j - i - 1,
    decreases j - i,
{
    if j > i + 1 {
        lemma_drops_between_all_dropped(results, i, j - 1);
    }
}

/// The sequence numbers that the consumer observes of one producer go up,
/// wrapping behind 65535, and the gap between two neighbours is the number
/// of that producer's drops between them.
///
/// `results` are the outcomes of the producer's submissions, the first of
/// them stamped `start`. Calls `i` and `j` were accepted and every call
/// between them was dropped, so their records are neighbours at the
/// consumer. Then the number of sequence numbers skipped between the two
/// records equals the number of drops between them (up to whole turns of
/// 65536, which no gap shorter than that makes), and unless the gap is a
/// whole turn the two records differ in their sequence numbers.
pub proof fn lemma_sequence_gap_counts_drops(
    start: u16,
    results: Seq<SubmitResult>,
    i: int,
    j: int,
)
    requires
        0 <= i < j < results.len(),
        results[i] is Accepted,
        results[j] is Accepted,
        forall|k: int| i < k < j ==> results[k] is Dropped,
    ensures
        stamp_after(start, j as nat) == stamp_after(stamp_after(start, i as nat), (j - i) as nat),
        sequence_gap(stamp_after(start, i as nat), stamp_after(start, j as nat)) == drops_between(
            results,
            i,
            j,
        ) % 0x1_0000,
        drops_between(results, i, j) < 0x1_0000 ==> sequence_gap(
            stamp_after(start, i as nat),
            stamp_after(start, j as nat),
        ) == drops_between(results, i, j),
        drops_between(results, i, j) < 0xffff ==> stamp_after(start, i as nat) != stamp_after(
            start,
            j as nat,
        ),
{
    lemma_drops_between_all_dropped(results, i, j);
    let a = stamp_after(start, i as nat);
    let b = stamp_after(start, j as nat);
    let d = j - i - 1;
    assert((b - a - 1) % 0x1_0000 == d % 0x1_0000) by {
        let x = start + i;
        let y = start + j;
        assert(a == x % 0x1_0000);
        assert(b == y % 0x1_0000);
        assert(y == x + d + 1);
        assert(x == 0x1_0000 * (x / 0x1_0000) + x % 0x1_0000);
        assert(y == 0x1_0000 * (y / 0x1_0000) + y % 0x1_0000);
        let k = y / 0x1_0000 - x / 0x1_0000;
        assert(b - a - 1 == d - 0x1_0000 * k);
        vstd::arithmetic::div_mod::lemma_mod_multiples_vanish(-k, d, 0x1_0000);
    }
    assert(stamp_after(a, (j - i) as nat) == b) by {
        let x = start + i;
        assert(a == x % 0x1_0000);
        assert(x == 0x1_0000 * (x / 0x1_0000) + x % 0x1_0000);
        vstd::arithmetic::div_mod::lemma_mod_multiples_vanish(x / 0x1_0000, a + (j - i), 0x1_0000);
    }
}

/// What a run of one producer at a queue has led to.
pub struct ProducerRun {
    /// The handle after the run.
    pub handle: ProducerView,
    /// The queue after the run.
    pub queue: QueueView,
    /// How each submission ended, in call order.
    pub results: Seq<SubmitResult>,
    /// The calls that were accepted, by their position in call order.
    pub accepted_at: Seq<int>,
    /// What the consumer took, in order.
    pub observed: Seq<Envelope>,
}

/// The run after one more submission of `e` through the handle.
pub open spec fn run_after_submit(before: ProducerRun, e: Envelope) -> ProducerRun {
    ProducerRun {
        handle: advanced(before.handle, e.timestamp),
        queue: before.queue.after_submit(stamped(e, before.handle)),
        results: before.results.push(before.queue.submit_result()),
        accepted_at: if before.queue.is_full() {
            before.accepted_at
        } else {
            before.accepted_at.push(before.results.len() as int)
        },
        observed: before.observed,
    }
}

/// The run after one more take by the consumer.
pub open spec fn run_after_take(before: ProducerRun) -> ProducerRun {
    ProducerRun {
        queue: before.queue.after_take(),
        observed: match before.queue.taken() {
            Some(e) => before.observed.push(e),
            None => before.observed,
        },
        ..before
    }
}

/// The outcome of `ops`, run in order: each submission goes through the
/// handle, which stamps it, and each take is one by the consumer.
pub open spec fn produce(h: ProducerView, q: QueueView, ops: Seq<QueueOp>) -> ProducerRun
    decreases ops.len(),
{
    if ops.len() == 0 {
        ProducerRun {
            handle: h,
            queue: q,
            results: Seq::empty(),
            accepted_at: Seq::empty(),
            observed: Seq::empty(),
        }
    } else {
        let before = produce(h, q, ops.drop_last());
        match ops.last() {
            QueueOp::Submit(e) => run_after_submit(before, e),
            QueueOp::Take => run_after_take(before),
        }
    }
}

/// The records that the consumer has seen or will see next: those taken,
/// then those ready in the queue.
pub open spec fn seen(r: ProducerRun) -> Seq<Envelope> {
    r.observed + ready_prefix(r.queue.flight)
}

/// Whether every call strictly between call `i` and call `j` was dropped.
pub open spec fn all_dropped_between(results: Seq<SubmitResult>, i: int, j: int) -> bool {
    forall|c: int| i < c < j && 0 <= c < results.len() ==> #[trigger] results[c] is Dropped
}

/// Whether the accepted call `k` is what the consumer sees as record `k`:
/// the call was accepted and the record bears its stamp.
pub open spec fn accepted_call_seen(h: ProducerView, r: ProducerRun, k: int) -> bool {
    &&& 0 <= r.accepted_at[k] < r.results.len()
    &&& r.results[r.accepted_at[k]] is Accepted
    &&& seen(r)[k].sequence == stamp_after(h.next_sequence, r.accepted_at[k] as nat)
    &&& seen(r)[k].producer_id == h.producer_id
}

/// Whether accepted call `k + 1` came after accepted call `k`, with nothing
/// but drops between them.
pub open spec fn neighbours_in_order(r: ProducerRun, k: int) -> bool {
    &&& r.accepted_at[k] < r.accepted_at[k + 1]
    &&& all_dropped_between(r.results, r.accepted_at[k], r.accepted_at[k + 1])
}

/// The last accepted call, or -1 if none was accepted.
pub open spec fn last_accepted(r: ProducerRun) -> int {
    if r.accepted_at.len() > 0 {
        r.accepted_at.last()
    } else {
        -1
    }
}

/// Whether record `k` at the consumer is no younger than the last
/// submission, and no older than the record before it.
pub open spec fn in_time_order(r: ProducerRun, k: int) -> bool {
    &&& seen(r)[k].timestamp <= r.handle.last_timestamp
    &&& k > 0 ==> seen(r)[k - 1].timestamp <= seen(r)[k].timestamp
}

/// What holds of a run from an empty queue at every step: the records that
/// reach the consumer are the accepted submissions, in call order, each
/// with the stamp of its call, and every call between two accepted ones
/// was dropped.
pub open spec fn run_consistent(h: ProducerView, capacity: nat, r: ProducerRun) -> bool {
    &&& r.queue.wf()
    &&& r.queue.capacity == capacity
    &&& all_ready(r.queue.flight)
    &&& r.handle.producer_id == h.producer_id
    &&& r.handle.next_sequence == stamp_after(h.next_sequence, r.results.len())
    &&& seen(r).len() == r.accepted_at.len()
    &&& forall|k: int| 0 <= k < r.accepted_at.len() ==> #[trigger] accepted_call_seen(h, r, k)
    &&& forall|k: int| 0 <= k < r.accepted_at.len() ==> #[trigger] in_time_order(r, k)
    &&& forall|k: int|
        0 <= k && k + 1 < r.accepted_at.len() ==> #[trigger] neighbours_in_order(r, k)
    &&& all_dropped_between(r.results, last_accepted(r), r.results.len() as int)
}

/// A submission that the queue drops keeps a run consistent.
proof fn lemma_dropped_keeps_consistent(h: ProducerView, capacity: nat, b: ProducerRun, e: Envelope)
    requires
        run_consistent(h, capacity, b),
        b.queue.is_full(),
    ensures
        run_consistent(h, capacity, run_after_submit(b, e)),
{
    let r = run_after_submit(b, e);
    lemma_stamp_after_step(h.next_sequence, b.results.len());
    assert(r.queue.flight == b.queue.flight);
    assert(seen(r) == seen(b));
    assert(r.accepted_at == b.accepted_at);
    assert forall|k: int| 0 <= k < r.accepted_at.len() implies #[trigger] in_time_order(r, k) by {
        assert(in_time_order(b, k));
    }
    assert forall|k: int| 0 <= k < r.accepted_at.len() implies #[trigger] accepted_call_seen(
        h,
        r,
        k,
    ) by {
        assert(accepted_call_seen(h, b, k));
    }
    assert forall|k: int| 0 <= k && k + 1 < r.accepted_at.len() implies #[trigger] neighbours_in_order(
        r,
        k,
    ) by {
        assert(neighbours_in_order(b, k));
        assert(accepted_call_seen(h, b, k + 1));
        assert forall|c: int|
            r.accepted_at[k] < c < r.accepted_at[k + 1] && 0 <= c < r.results.len()
            implies #[trigger] r.results[c] is Dropped by {
            assert(b.results[c] is Dropped);
        }
    }
    assert forall|c: int|
        last_accepted(r) < c < r.results.len() && 0 <= c < r.results.len()
        implies #[trigger] r.results[c] is Dropped by {
        if c < b.results.len() {
            assert(b.results[c] is Dropped);
        }
    }
}

/// A submission that the queue accepts keeps a run consistent.
proof fn lemma_accepted_keeps_consistent(h: ProducerView, capacity: nat, b: ProducerRun, e: Envelope)
    requires
        run_consistent(h, capacity, b),
        !b.queue.is_full(),
    ensures
        run_consistent(h, capacity, run_after_submit(b, e)),
{
    let r = run_after_submit(b, e);
    let sent = stamped(e, b.handle);
    let n = b.accepted_at.len() as int;
    lemma_stamp_after_step(h.next_sequence, b.results.len());
    crate::queue::lemma_ready_prefix_push(b.queue.flight, sent);
    assert(seen(r) =~= seen(b).push(sent));
    assert forall|i: int| 0 <= i < r.queue.flight.len() implies !(#[trigger] r.queue.flight[i]
        is Free) by {
        assert(r.queue.flight[i] is Ready);
    }
    assert forall|k: int| 0 <= k < r.accepted_at.len() implies #[trigger] in_time_order(r, k) by {
        if k < n {
            assert(in_time_order(b, k));
            assert(seen(r)[k] == seen(b)[k]);
            if k > 0 {
                assert(seen(r)[k - 1] == seen(b)[k - 1]);
            }
        } else if k > 0 {
            assert(in_time_order(b, k - 1));
            assert(seen(r)[k - 1] == seen(b)[k - 1]);
        }
    }
    assert forall|k: int| 0 <= k < r.accepted_at.len() implies #[trigger] accepted_call_seen(
        h,
        r,
        k,
    ) by {
        if k < n {
            assert(accepted_call_seen(h, b, k));
            assert(r.accepted_at[k] == b.accepted_at[k]);
            assert(seen(r)[k] == seen(b)[k]);
        }
    }
    assert forall|k: int| 0 <= k && k + 1 < r.accepted_at.len() implies #[trigger] neighbours_in_order(
        r,
        k,
    ) by {
        assert(accepted_call_seen(h, b, k));
        assert(r.accepted_at[k] == b.accepted_at[k]);
        if k + 1 < n {
            assert(neighbours_in_order(b, k));
            assert(accepted_call_seen(h, b, k + 1));
            assert(r.accepted_at[k + 1] == b.accepted_at[k + 1]);
            assert forall|c: int|
                r.accepted_at[k] < c < r.accepted_at[k + 1] && 0 <= c < r.results.len()
            implies #[trigger] r.results[c] is Dropped by {
                assert(b.results[c] is Dropped);
            }
        } else {
            assert(b.accepted_at[k] == last_accepted(b));
            assert forall|c: int|
                r.accepted_at[k] < c < r.accepted_at[k + 1] && 0 <= c < r.results.len()
            implies #[trigger] r.results[c] is Dropped by {
                assert(b.results[c] is Dropped);
            }
        }
    }
}

/// A take by the consumer keeps a run consistent.
proof fn lemma_take_keeps_consistent(h: ProducerView, capacity: nat, b: ProducerRun)
    requires
        run_consistent(h, capacity, b),
    ensures
        run_consistent(h, capacity, run_after_take(b)),
{
    let r = run_after_take(b);
    if b.queue.flight.len() > 0 {
        let e = b.queue.flight[0]->Ready_0;
        assert(b.queue.flight[0] is Ready);
        let rest = b.queue.flight.skip(1);
        assert forall|i: int| 0 <= i < rest.len() implies #[trigger] rest[i] is Ready by {
            assert(rest[i] == b.queue.flight[i + 1]);
        }
        assert forall|i: int| 0 <= i < rest.len() implies !(#[trigger] rest[i] is Free) by {
            assert(rest[i] is Ready);
        }
        assert(ready_prefix(b.queue.flight) =~= seq![e] + ready_prefix(rest));
        assert(seen(r) =~= seen(b));
    } else {
        assert(seen(r) =~= seen(b));
    }
    assert(r.accepted_at == b.accepted_at);
    assert(r.results == b.results);
    assert forall|k: int| 0 <= k < r.accepted_at.len() implies #[trigger] in_time_order(r, k) by {
        assert(in_time_order(b, k));
    }
    assert forall|k: int| 0 <= k < r.accepted_at.len() implies #[trigger] accepted_call_seen(
        h,
        r,
        k,
    ) by {
        assert(accepted_call_seen(h, b, k));
    }
    assert forall|k: int| 0 <= k && k + 1 < r.accepted_at.len() implies #[trigger] neighbours_in_order(
        r,
        k,
    ) by {
        assert(neighbours_in_order(b, k));
    }
}

/// Every run from an empty queue is consistent.
pub proof fn lemma_run_consistent(h: ProducerView, capacity: nat, ops: Seq<QueueOp>)
    ensures
        run_consistent(
            h,
            capacity,
            produce(h, QueueView { capacity, flight: Seq::empty(), dropped: 0 }, ops),
        ),
    decreases ops.len(),
{
    let start = QueueView { capacity, flight: Seq::empty(), dropped: 0 };
    let r = produce(h, start, ops);
    if ops.len() == 0 {
        assert(seen(r) =~= Seq::<Envelope>::empty());
    } else {
        lemma_run_consistent(h, capacity, ops.drop_last());
        let b = produce(h, start, ops.drop_last());
        match ops.last() {
            QueueOp::Submit(e) => {
                if b.queue.is_full() {
                    lemma_dropped_keeps_consistent(h, capacity, b, e);
                } else {
                    lemma_accepted_keeps_consistent(h, capacity, b, e);
                }
            },
            QueueOp::Take => {
                lemma_take_keeps_consistent(h, capacity, b);
            },
        }
    }
}

/// The sequence numbers that the consumer observes of a producer go up,
/// wrapping behind 65535, and the gap between two neighbours is the number
/// of that producer's submissions that were dropped between them.
///
/// Take any run of a producer at a queue that starts empty, with takes by
/// the consumer in between. The records that reach the consumer are the
/// accepted submissions in call order. For two neighbours among them, the
/// number of sequence numbers skipped from the first to the second equals
/// the number of drops between their two calls (up to whole turns of
/// 65536), and with fewer than 65535 drops between them they differ.
pub proof fn lemma_observed_gaps_count_drops(
    h: ProducerView,
    capacity: nat,
    ops: Seq<QueueOp>,
    k: int,
)
    requires
        0 <= k,
        k + 1 < seen(
            produce(h, QueueView { capacity, flight: Seq::empty(), dropped: 0 }, ops),
        ).len(),
    ensures
        ({
            let r = produce(h, QueueView { capacity, flight: Seq::empty(), dropped: 0 }, ops);
            let first = seen(r)[k];
            let second = seen(r)[k + 1];
            let drops = drops_between(r.results, r.accepted_at[k], r.accepted_at[k + 1]);
            &&& first.producer_id == h.producer_id
            &&& second.producer_id == h.producer_id
            &&& drops == r.accepted_at[k + 1] - r.accepted_at[k] - 1
            &&& sequence_gap(first.sequence, second.sequence) == drops % 0x1_0000
            &&& drops < 0x1_0000 ==> sequence_gap(first.sequence, second.sequence) == drops
            &&& drops < 0xffff ==> first.sequence != second.sequence
        }),
{
    let r = produce(h, QueueView { capacity, flight: Seq::empty(), dropped: 0 }, ops);
    lemma_run_consistent(h, capacity, ops);
    let i = r.accepted_at[k];
    let j = r.accepted_at[k + 1];
    assert(neighbours_in_order(r, k));
    assert(accepted_call_seen(h, r, k));
    assert(accepted_call_seen(h, r, k + 1));
    lemma_sequence_gap_counts_drops(h.next_sequence, r.results, i, j);
    lemma_drops_between_all_dropped(r.results, i, j);
}

/// The timestamps that the consumer observes of a producer never go down,
/// whatever clock readings the producer handed in.
pub proof fn lemma_observed_timestamps_never_go_down(
    h: ProducerView,
    capacity: nat,
    ops: Seq<QueueOp>,
    i: int,
    j: int,
)
    requires
        0 <= i <= j,
        j < seen(produce(h, QueueView { capacity, flight: Seq::empty(), dropped: 0 }, ops)).len(),
    ensures
        ({
            let r = produce(h, QueueView { capacity, flight: Seq::empty(), dropped: 0 }, ops);
            seen(r)[i].timestamp <= seen(r)[j].timestamp
        }),
    decreases j - i,
{
    let r = produce(h, QueueView { capacity, flight: Seq::empty(), dropped: 0 }, ops);
    lemma_run_consistent(h, capacity, ops);
    if i < j {
        lemma_observed_timestamps_never_go_down(h, capacity, ops, i, j - 1);
        assert(in_time_order(r, j));
    }
}

} // verus!
