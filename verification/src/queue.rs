//! The shared queue core: a ring of a fixed number of envelope slots between
//! many producers and one consumer.
//!
//! A slot is free, claimed by a producer, or ready for the consumer. A
//! submission claims the slot behind the newest one in flight and publishes
//! the envelope into it; when every slot is in flight the submission is
//! dropped, and nothing already in flight is touched. The consumer takes the
//! oldest slot in flight, and only once it is ready, so it observes the
//! envelopes in the order in which their slots were claimed.

use crate::envelope::Envelope;
use vstd::prelude::*;

verus! {

/// How a submission ended.
#[derive(Clone, Copy, Debug, PartialEq, Eq, Structural)]
pub enum SubmitResult {
    /// The envelope was copied into a free slot.
    Accepted,
    /// Every slot was in flight; the envelope was not queued.
    Dropped,
}

/// One cell of the ring.
#[derive(Clone, Copy, Debug, PartialEq, Eq)]
pub enum Slot {
    /// Owned by the queue; holds nothing.
    Free,
    /// Checked out by a producer that has not published yet.
    Claimed,
    /// Published; waits for the consumer.
    Ready(Envelope),
}

/// What a queue holds.
pub struct QueueView {
    /// The number of slots.
    pub capacity: nat,
    /// The slots in flight, oldest claim first. None of them is free.
    pub flight: Seq<Slot>,
    /// Submissions dropped so far, as far as a `u64` counts.
    pub dropped: nat,
}

/// The envelopes at the front of `flight` that the consumer can take now:
/// those before the first slot that is still only claimed.
pub open spec fn ready_prefix(flight: Seq<Slot>) -> Seq<Envelope>
    decreases flight.len(),
{
    if flight.len() == 0 {
        Seq::empty()
    } else {
        match flight[0] {
            Slot::Ready(e) => seq![e] + ready_prefix(flight.skip(1)),
            _ => Seq::empty(),
        }
    }
}

/// Whether every slot in flight is published.
pub open spec fn all_ready(flight: Seq<Slot>) -> bool {
    forall|i: int| 0 <= i < flight.len() ==> #[trigger] flight[i] is Ready
}

/// `count + 1`, as a `u64` that stops at its greatest value counts it.
pub open spec fn counted_up(count: nat) -> nat {
    if count >= u64::MAX {
        u64::MAX as nat
    } else {
        count + 1
    }
}

impl QueueView {
    /// No more slots are in flight than there are, and none in flight is
    /// free.
    pub open spec fn wf(self) -> bool {
        &&& self.flight.len() <= self.capacity
        &&& forall|i: int| 0 <= i < self.flight.len() ==> !(#[trigger] self.flight[i] is Free)
    }

    /// Whether every slot is in flight.
    pub open spec fn is_full(self) -> bool {
        self.flight.len() >= self.capacity
    }

    /// The queue after a producer asked for a slot.
    pub open spec fn after_claim(self) -> QueueView {
        if self.is_full() {
            QueueView { dropped: counted_up(self.dropped), ..self }
        } else {
            QueueView { flight: self.flight.push(Slot::Claimed), ..self }
        }
    }

    /// Whether the slot at `position` in flight is claimed and not yet
    /// published.
    pub open spec fn awaits_publication(self, position: int) -> bool {
        0 <= position < self.flight.len() && self.flight[position] is Claimed
    }

    /// The queue after `e` was published into the claimed slot at
    /// `position`.
    pub open spec fn after_publish(self, position: int, e: Envelope) -> QueueView {
        if self.awaits_publication(position) {
            QueueView { flight: self.flight.update(position, Slot::Ready(e)), ..self }
        } else {
            self
        }
    }

    /// The queue after `e` was submitted: queued behind all that is in
    /// flight, or dropped and counted if every slot is in flight.
    pub open spec fn after_submit(self, e: Envelope) -> QueueView {
        if self.is_full() {
            QueueView { dropped: counted_up(self.dropped), ..self }
        } else {
            QueueView { flight: self.flight.push(Slot::Ready(e)), ..self }
        }
    }

    /// How the submission of an envelope ends.
    pub open spec fn submit_result(self) -> SubmitResult {
        if self.is_full() {
            SubmitResult::Dropped
        } else {
            SubmitResult::Accepted
        }
    }

    /// What the consumer gets when it takes one envelope.
    pub open spec fn taken(self) -> Option<Envelope> {
        if self.flight.len() > 0 && self.flight[0] is Ready {
            Some(self.flight[0]->Ready_0)
        } else {
            None
        }
    }

    /// The queue after the consumer took one envelope, if one was ready.
    pub open spec fn after_take(self) -> QueueView {
        if self.taken() is Some {
            QueueView { flight: self.flight.skip(1), ..self }
        } else {
            self
        }
    }

    /// The queue after all of `envelopes` were submitted in order.
    pub open spec fn after_submit_all(self, envelopes: Seq<Envelope>) -> QueueView
        decreases envelopes.len(),
    {
        if envelopes.len() == 0 {
            self
        } else {
            self.after_submit_all(envelopes.drop_last()).after_submit(envelopes.last())
        }
    }
}

/// The fixed-capacity ring of envelope slots.
pub struct QueueCore {
    slots: Vec<Slot>,
    head: usize,
    in_flight: usize,
    dropped: u64,
}

/// The index of the slot that is `position` slots behind `head` in a ring of
/// `capacity` slots.
spec fn ring_index(head: int, position: int, capacity: int) -> int {
    if head + position < capacity {
        head + position
    } else {
        head + position - capacity
    }
}

impl View for QueueCore {
    type V = QueueView;

    closed spec fn view(&self) -> QueueView {
        QueueView {
            capacity: self.slots@.len(),
            flight: Seq::new(
                self.in_flight as nat,
                |i: int| self.slots@[ring_index(self.head as int, i, self.slots@.len() as int)],
            ),
            dropped: self.dropped as nat,
        }
    }
}

impl QueueCore {
    /// The ring is consistent: the slots in flight follow the head without
    /// a gap, and all other slots are free.
    pub closed spec fn wf(&self) -> bool {
        let capacity = self.slots@.len() as int;
        &&& self.head == 0 || self.head < capacity
        &&& self.in_flight <= capacity
        &&& forall|i: int|
            0 <= i < self.in_flight ==> !(#[trigger] self.slots@[ring_index(
                self.head as int,
                i,
                capacity,
            )] is Free)
        &&& forall|i: int|
            self.in_flight <= i < capacity ==> #[trigger] self.slots@[ring_index(
                self.head as int,
                i,
                capacity,
            )] is Free
    }

    /// Where in flight the slot with index `ticket` stands, counted from the
    /// oldest.
    pub closed spec fn position(&self, ticket: usize) -> int {
        if ticket >= self.head {
            ticket - self.head
        } else {
            ticket + self.slots@.len() - self.head
        }
    }

    /// A consistent queue has a well-formed view.
    pub proof fn lemma_view_wf(&self)
        requires
            self.wf(),
        ensures
            self@.wf(),
    {
    }

    /// A queue of `capacity` free slots. The capacity is fixed from here on.
    pub fn new(capacity: usize) -> (q: QueueCore)
        ensures
            q.wf(),
            q@.capacity == capacity,
            q@.flight == Seq::<Slot>::empty(),
            q@.dropped == 0,
    {
        let mut slots: Vec<Slot> = Vec::with_capacity(capacity);
        let mut i: usize = 0;
        while i < capacity
            invariant
                i <= capacity,
                slots@.len() == i,
                forall|j: int| 0 <= j < i ==> slots@[j] is Free,
            decreases capacity - i,
        {
            slots.push(Slot::Free);
            i += 1;
        }
        let q = QueueCore { slots, head: 0, in_flight: 0, dropped: 0 };
        assert(q@.flight =~= Seq::<Slot>::empty());
        q
    }

    /// The number of slots.
    pub fn capacity(&self) -> (n: usize)
        ensures
            n == self@.capacity,
    {
        self.slots.len()
    }

    /// The number of slots in flight.
    pub fn len(&self) -> (n: usize)
        ensures
            n == self@.flight.len(),
    {
        self.in_flight
    }

    /// Whether every slot is in flight, so that a submission would be
    /// dropped.
    pub fn is_full(&self) -> (r: bool)
        requires
            self.wf(),
        ensures
            r == self@.is_full(),
    {
        self.in_flight == self.slots.len()
    }

    /// Submissions dropped so far. The count stops at the greatest `u64`.
    pub fn dropped(&self) -> (n: u64)
        ensures
            n == self@.dropped,
    {
        self.dropped
    }

    fn index_at(&self, position: usize) -> (idx: usize)
        requires
            self.wf(),
            position < self.slots@.len(),
        ensures
            idx == ring_index(self.head as int, position as int, self.slots@.len() as int),
            idx < self.slots@.len(),
    {
        let room: usize = self.slots.len() - self.head;
        if position < room {
            self.head + position
        } else {
            position - room
        }
    }

    /// Claims the slot behind the newest one in flight and returns its
    /// index, for the producer to publish into. If every slot is in flight
    /// nothing is claimed and the drop is counted.
    pub fn claim(&mut self) -> (ticket: Option<usize>)
        requires
            old(self).wf(),
        ensures
            final(self).wf(),
            final(self)@ == old(self)@.after_claim(),
            old(self)@.is_full() <==> ticket is None,
            ticket matches Some(t) ==> final(self).position(t) == old(self)@.flight.len(),
            forall|t: usize| final(self).position(t) == old(self).position(t),
    {
        if self.in_flight == self.slots.len() {
            self.dropped = self.dropped.saturating_add(1);
            assert(self@.flight =~= old(self)@.flight);
            return None;
        }
        let idx = self.index_at(self.in_flight);
        self.slots.set(idx, Slot::Claimed);
        self.in_flight = self.in_flight + 1;
        assert(self@.flight =~= old(self)@.flight.push(Slot::Claimed));
        Some(idx)
    }

    /// Publishes `envelope` into the slot with index `ticket`, which the
    /// caller claimed before. Returns whether it did: a slot that is not
    /// claimed, or was published already, is left alone.
    pub fn publish(&mut self, ticket: usize, envelope: Envelope) -> (published: bool)
        requires
            old(self).wf(),
        ensures
            final(self).wf(),
            published == (ticket < old(self)@.capacity && old(self)@.awaits_publication(
                old(self).position(ticket),
            )),
            published ==> final(self)@ == old(self)@.after_publish(
                old(self).position(ticket),
                envelope,
            ),
            !published ==> final(self)@ == old(self)@,
            forall|t: usize| final(self).position(t) == old(self).position(t),
    {
        let capacity: usize = self.slots.len();
        if ticket >= capacity {
            return false;
        }
        let position: usize = if ticket >= self.head {
            ticket - self.head
        } else {
            ticket + (capacity - self.head)
        };
        if position >= self.in_flight {
            return false;
        }
        assert(ring_index(self.head as int, position as int, capacity as int) == ticket);
        match self.slots[ticket] {
            Slot::Claimed => {
                self.slots.set(ticket, Slot::Ready(envelope));
                assert(self@.flight =~= old(self)@.flight.update(
                    position as int,
                    Slot::Ready(envelope),
                ));
                true
            },
            _ => false,
        }
    }

    /// Submits `envelope`: claims a slot and publishes into it in one step.
    /// Never waits: if every slot is in flight the envelope is dropped, the
    /// drop is counted, and everything in flight stays as it is.
    pub fn submit(&mut self, envelope: Envelope) -> (r: SubmitResult)
        requires
            old(self).wf(),
        ensures
            final(self).wf(),
            r == old(self)@.submit_result(),
            final(self)@ == old(self)@.after_submit(envelope),
            forall|t: usize| final(self).position(t) == old(self).position(t),
    {
        if self.in_flight == self.slots.len() {
            self.dropped = self.dropped.saturating_add(1);
            assert(self@.flight =~= old(self)@.flight);
            return SubmitResult::Dropped;
        }
        let idx = self.index_at(self.in_flight);
        self.slots.set(idx, Slot::Ready(envelope));
        self.in_flight = self.in_flight + 1;
        assert(self@.flight =~= old(self)@.flight.push(Slot::Ready(envelope)));
        SubmitResult::Accepted
    }

    /// Takes the oldest envelope in flight and frees its slot. Gives nothing
    /// if nothing is in flight, or if the oldest slot is not published yet.
    pub fn take(&mut self) -> (r: Option<Envelope>)
        requires
            old(self).wf(),
        ensures
            final(self).wf(),
            r == old(self)@.taken(),
            final(self)@ == old(self)@.after_take(),
            forall|t: usize|
                t < old(self)@.capacity && old(self).position(t) >= 1 && r is Some
                    ==> final(self).position(t) == old(self).position(t) - 1,
            r is None ==> forall|t: usize| final(self).position(t) == old(self).position(t),
    {
        if self.in_flight == 0 {
            return None;
        }
        let capacity: usize = self.slots.len();
        let head: usize = self.head;
        assert(ring_index(head as int, 0, capacity as int) == head);
        match self.slots[head] {
            Slot::Ready(e) => {
                self.slots.set(head, Slot::Free);
                self.head = if head + 1 == capacity {
                    0
                } else {
                    head + 1
                };
                self.in_flight = self.in_flight - 1;
                proof {
                    assert forall|i: int| 0 <= i < self.in_flight implies ring_index(
                        self.head as int,
                        i,
                        capacity as int,
                    ) == ring_index(head as int, i + 1, capacity as int) by {}
                    assert forall|i: int| self.in_flight <= i < capacity implies #[trigger] self.slots@[ring_index(
                        self.head as int,
                        i,
                        capacity as int,
                    )] is Free by {
                        if i < capacity - 1 {
                            assert(ring_index(self.head as int, i, capacity as int) == ring_index(
                                head as int,
                                i + 1,
                                capacity as int,
                            ));
                        }
                    }
                    assert(self@.flight =~= old(self)@.flight.skip(1));
                }
                Some(e)
            },
            _ => None,
        }
    }

    /// Takes up to `max` envelopes, oldest first, stopping early at a slot
    /// that is not published yet.
    pub fn drain(&mut self, max: usize) -> (taken: Vec<Envelope>)
        requires
            old(self).wf(),
        ensures
            final(self).wf(),
            taken@ == ready_prefix(old(self)@.flight).take(taken@.len() as int),
            taken@.len() == if ready_prefix(old(self)@.flight).len() <= max {
                ready_prefix(old(self)@.flight).len()
            } else {
                max as nat
            },
            final(self)@ == (QueueView {
                flight: old(self)@.flight.skip(taken@.len() as int),
                ..old(self)@
            }),
            forall|t: usize|
                t < old(self)@.capacity && old(self).position(t) >= taken@.len()
                    ==> final(self).position(t) == old(self).position(t) - taken@.len(),
    {
        let mut taken: Vec<Envelope> = Vec::new();
        assert(self@.flight.skip(0) =~= self@.flight);
        while taken.len() < max
            invariant
                self.wf(),
                taken@.len() <= max,
                taken@.len() <= old(self)@.flight.len(),
                taken@ + ready_prefix(self@.flight) == ready_prefix(old(self)@.flight),
                self@ == (QueueView {
                    flight: old(self)@.flight.skip(taken@.len() as int),
                    ..old(self)@
                }),
                forall|t: usize|
                    t < old(self)@.capacity && old(self).position(t) >= taken@.len()
                        ==> self.position(t) == old(self).position(t) - taken@.len(),
            ensures
                taken@.len() == max || ready_prefix(self@.flight).len() == 0,
            decreases max - taken@.len(),
        {
            let ghost before = self@.flight;
            let ghost so_far = taken@;
            match self.take() {
                None => {
                    break ;
                },
                Some(e) => {
                    taken.push(e);
                    proof {
                        assert(ready_prefix(before) == seq![e] + ready_prefix(before.skip(1)));
                        assert(taken@ + ready_prefix(self@.flight) =~= so_far + ready_prefix(
                            before,
                        ));
                        assert(old(self)@.flight.skip(so_far.len() as int).skip(1) =~= old(
                            self,
                        )@.flight.skip(taken@.len() as int));
                    }
                },
            }
        }
        proof {
            let all = ready_prefix(old(self)@.flight);
            assert(all.take(taken@.len() as int) =~= taken@);
        }
        taken
    }
}

/// How often a producer occurs among the senders of `envelopes`.
pub open spec fn count_from(envelopes: Seq<Envelope>, producer: u16) -> nat
    decreases envelopes.len(),
{
    if envelopes.len() == 0 {
        0
    } else {
        count_from(envelopes.drop_last(), producer) + if envelopes.last().producer_id
            == producer {
            1nat
        } else {
            0nat
        }
    }
}

/// One step at the queue: a producer submits an envelope, or the consumer
/// takes one.
pub enum QueueOp {
    Submit(Envelope),
    Take,
}

/// What a run of steps has led to.
pub struct RunView {
    /// The queue after the run.
    pub queue: QueueView,
    /// The envelopes submitted, in order.
    pub submitted: Seq<Envelope>,
    /// The submitted envelopes that were accepted, in order.
    pub accepted: Seq<Envelope>,
    /// The submitted envelopes that were dropped, in order.
    pub dropped: Seq<Envelope>,
    /// The envelopes that the consumer took, in order.
    pub observed: Seq<Envelope>,
}

/// The outcome of `ops`, run in order on the queue `start`.
pub open spec fn run(start: QueueView, ops: Seq<QueueOp>) -> RunView
    decreases ops.len(),
{
    if ops.len() == 0 {
        RunView {
            queue: start,
            submitted: Seq::empty(),
            accepted: Seq::empty(),
            dropped: Seq::empty(),
            observed: Seq::empty(),
        }
    } else {
        let before = run(start, ops.drop_last());
        match ops.last() {
            QueueOp::Submit(e) => RunView {
                queue: before.queue.after_submit(e),
                submitted: before.submitted.push(e),
                accepted: if before.queue.is_full() {
                    before.accepted
                } else {
                    before.accepted.push(e)
                },
                dropped: if before.queue.is_full() {
                    before.dropped.push(e)
                } else {
                    before.dropped
                },
                observed: before.observed,
            },
            QueueOp::Take => RunView {
                queue: before.queue.after_take(),
                submitted: before.submitted,
                accepted: before.accepted,
                dropped: before.dropped,
                observed: match before.queue.taken() {
                    Some(e) => before.observed.push(e),
                    None => before.observed,
                },
            },
        }
    }
}

/// The consumer can never take more than is in flight.
pub proof fn lemma_ready_prefix_len(flight: Seq<Slot>)
    ensures
        ready_prefix(flight).len() <= flight.len(),
    decreases flight.len(),
{
    if flight.len() > 0 {
        lemma_ready_prefix_len(flight.skip(1));
    }
}

/// Where every slot in flight is published, the consumer can take all of
/// them, in order.
pub proof fn lemma_ready_prefix_of_all_ready(flight: Seq<Slot>)
    requires
        all_ready(flight),
    ensures
        ready_prefix(flight).len() == flight.len(),
        forall|i: int| 0 <= i < flight.len() ==> flight[i] == Slot::Ready(ready_prefix(flight)[i]),
    decreases flight.len(),
{
    if flight.len() > 0 {
        let rest = flight.skip(1);
        assert(flight[0] is Ready);
        assert forall|i: int| 0 <= i < rest.len() implies #[trigger] rest[i] is Ready by {
            assert(rest[i] == flight[i + 1]);
        }
        lemma_ready_prefix_of_all_ready(rest);
        assert forall|i: int| 0 <= i < flight.len() implies flight[i] == Slot::Ready(
            ready_prefix(flight)[i],
        ) by {
            if i > 0 {
                assert(rest[i - 1] == flight[i]);
            }
        }
    }
}

/// A ready envelope queued behind published slots is the last that the
/// consumer can take.
pub proof fn lemma_ready_prefix_push(flight: Seq<Slot>, e: Envelope)
    requires
        all_ready(flight),
    ensures
        all_ready(flight.push(Slot::Ready(e))),
        ready_prefix(flight.push(Slot::Ready(e))) == ready_prefix(flight).push(e),
    decreases flight.len(),
{
    let pushed = flight.push(Slot::Ready(e));
    assert forall|i: int| 0 <= i < pushed.len() implies #[trigger] pushed[i] is Ready by {
        if i < flight.len() {
            assert(flight[i] is Ready);
        }
    }
    if flight.len() == 0 {
        assert(pushed.skip(1) =~= Seq::<Slot>::empty());
        assert(ready_prefix(pushed.skip(1)) =~= Seq::<Envelope>::empty());
        assert(ready_prefix(pushed) =~= seq![e]);
        assert(ready_prefix(flight).push(e) =~= seq![e]);
    } else {
        let rest = flight.skip(1);
        assert(flight[0] is Ready);
        assert forall|i: int| 0 <= i < rest.len() implies #[trigger] rest[i] is Ready by {
            assert(rest[i] == flight[i + 1]);
        }
        lemma_ready_prefix_push(rest, e);
        assert(pushed.skip(1) =~= rest.push(Slot::Ready(e)));
        assert(ready_prefix(pushed) =~= ready_prefix(flight).push(e));
    }
}

/// Submissions that find room are all accepted: below capacity nothing is
/// dropped, and the queue holds what it held, then the new envelopes, in the
/// order of submission.
pub proof fn lemma_submit_all_below_capacity(q: QueueView, envelopes: Seq<Envelope>)
    requires
        q.wf(),
        all_ready(q.flight),
        q.flight.len() + envelopes.len() <= q.capacity,
    ensures
        q.after_submit_all(envelopes).wf(),
        all_ready(q.after_submit_all(envelopes).flight),
        q.after_submit_all(envelopes).dropped == q.dropped,
        q.after_submit_all(envelopes).capacity == q.capacity,
        ready_prefix(q.after_submit_all(envelopes).flight) == ready_prefix(q.flight) + envelopes,
        q.after_submit_all(envelopes).flight.len() == q.flight.len() + envelopes.len(),
    decreases envelopes.len(),
{
    if envelopes.len() == 0 {
        assert(ready_prefix(q.flight) + envelopes =~= ready_prefix(q.flight));
    } else {
        let front = envelopes.drop_last();
        lemma_submit_all_below_capacity(q, front);
        let mid = q.after_submit_all(front);
        lemma_ready_prefix_push(mid.flight, envelopes.last());
        let end = mid.after_submit(envelopes.last());
        assert forall|i: int| 0 <= i < end.flight.len() implies !(#[trigger] end.flight[i]
            is Free) by {
            assert(end.flight[i] is Ready);
        }
        assert(ready_prefix(q.flight) + front.push(envelopes.last()) =~= (ready_prefix(q.flight)
            + front).push(envelopes.last()));
        assert(front.push(envelopes.last()) =~= envelopes);
    }
}

/// Every envelope submitted while the queue has room is observed by the
/// consumer exactly once, in the order of submission, and therefore in the
/// order in which each producer submitted its own.
///
/// From an empty queue, after `envelopes` (no more than the capacity) were
/// submitted, a drain of the whole queue yields exactly `envelopes`; what it
/// yields of one producer is exactly what that producer submitted, in order.
pub proof fn lemma_below_capacity_observed_once_in_order(
    capacity: nat,
    envelopes: Seq<Envelope>,
    producer: u16,
)
    requires
        envelopes.len() <= capacity,
    ensures
        ({
            let start = QueueView { capacity, flight: Seq::empty(), dropped: 0 };
            let queued = start.after_submit_all(envelopes);
            let observed = ready_prefix(queued.flight);
            &&& queued.dropped == 0
            &&& observed == envelopes
            &&& observed.filter(|e: Envelope| e.producer_id == producer) == envelopes.filter(
                |e: Envelope| e.producer_id == producer,
            )
        }),
{
    let start = QueueView { capacity, flight: Seq::empty(), dropped: 0 };
    lemma_submit_all_below_capacity(start, envelopes);
    assert(ready_prefix(start.flight) + envelopes =~= envelopes);
}

/// The count of one producer's envelopes adds up over a concatenation.
pub proof fn lemma_count_from_push(envelopes: Seq<Envelope>, e: Envelope, producer: u16)
    ensures
        count_from(envelopes.push(e), producer) == count_from(envelopes, producer) + if e.producer_id
            == producer {
            1nat
        } else {
            0nat
        },
{
    assert(envelopes.push(e).drop_last() =~= envelopes);
}

/// The count of one producer's envelopes in a sequence and in what is left
/// of it behind its first envelope.
pub proof fn lemma_count_from_skip(envelopes: Seq<Envelope>, producer: u16)
    requires
        envelopes.len() > 0,
    ensures
        count_from(envelopes, producer) == count_from(envelopes.skip(1), producer) + if envelopes[0].producer_id
            == producer {
            1nat
        } else {
            0nat
        },
    decreases envelopes.len(),
{
    if envelopes.len() == 1 {
        assert(envelopes.drop_last() =~= Seq::<Envelope>::empty());
        assert(envelopes.skip(1) =~= Seq::<Envelope>::empty());
    } else {
        lemma_count_from_skip(envelopes.drop_last(), producer);
        assert(envelopes.skip(1).drop_last() =~= envelopes.drop_last().skip(1));
        assert(envelopes.drop_last()[0] == envelopes[0]);
    }
}

/// Whatever the pace of submissions and takes, nothing is lost without
/// being counted and nothing is observed twice.
///
/// After any run on a queue that started empty: every submission was either
/// accepted or dropped; the envelopes accepted are, in order, those observed
/// followed by those still queued; and for each producer the number of its
/// envelopes dropped, observed and still queued add up to the number it
/// submitted. Once the queue is drained empty, drops plus observed records
/// of a producer equal its submissions.
pub proof fn lemma_run_accounts_for_every_submission(
    capacity: nat,
    ops: Seq<QueueOp>,
    producer: u16,
)
    ensures
        ({
            let start = QueueView { capacity, flight: Seq::empty(), dropped: 0 };
            let end = run(start, ops);
            &&& end.queue.wf()
            &&& all_ready(end.queue.flight)
            &&& end.queue.capacity == capacity
            &&& end.accepted.len() + end.dropped.len() == end.submitted.len()
            &&& end.accepted == end.observed + ready_prefix(end.queue.flight)
            &&& count_from(end.dropped, producer) + count_from(end.observed, producer)
                + count_from(ready_prefix(end.queue.flight), producer) == count_from(
                end.submitted,
                producer,
            )
            &&& end.queue.flight.len() == 0 ==> count_from(end.dropped, producer) + count_from(
                end.observed,
                producer,
            ) == count_from(end.submitted, producer)
        }),
    decreases ops.len(),
{
    let start = QueueView { capacity, flight: Seq::empty(), dropped: 0 };
    let end = run(start, ops);
    if ops.len() == 0 {
        assert(end.accepted =~= end.observed + ready_prefix(end.queue.flight));
    } else {
        lemma_run_accounts_for_every_submission(capacity, ops.drop_last(), producer);
        let before = run(start, ops.drop_last());
        let queued = ready_prefix(before.queue.flight);
        lemma_ready_prefix_of_all_ready(before.queue.flight);
        match ops.last() {
            QueueOp::Submit(e) => {
                lemma_count_from_push(before.submitted, e, producer);
                if before.queue.is_full() {
                    lemma_count_from_push(before.dropped, e, producer);
                } else {
                    lemma_ready_prefix_push(before.queue.flight, e);
                    lemma_count_from_push(queued, e, producer);
                    assert forall|i: int| 0 <= i < end.queue.flight.len() implies !(
                    #[trigger] end.queue.flight[i] is Free) by {
                        assert(end.queue.flight[i] is Ready);
                    }
                    assert(before.accepted.push(e) =~= before.observed + queued.push(e));
                }
            },
            QueueOp::Take => {
                if before.queue.flight.len() > 0 {
                    let e = before.queue.flight[0]->Ready_0;
                    assert(before.queue.flight[0] is Ready);
                    let rest = before.queue.flight.skip(1);
                    assert forall|i: int| 0 <= i < rest.len() implies #[trigger] rest[i]
                        is Ready by {
                        assert(rest[i] == before.queue.flight[i + 1]);
                    }
                    assert forall|i: int| 0 <= i < rest.len() implies !(#[trigger] rest[i]
                        is Free) by {
                        assert(rest[i] is Ready);
                    }
                    assert(queued =~= seq![e] + ready_prefix(rest));
                    assert(queued.skip(1) =~= ready_prefix(rest));
                    lemma_count_from_skip(queued, producer);
                    lemma_count_from_push(before.observed, e, producer);
                    assert(before.observed.push(e) + ready_prefix(rest) =~= before.observed
                        + queued);
                    lemma_ready_prefix_of_all_ready(rest);
                }
            },
        }
    }
}

} // verus!
