//! The consumer: the one place where records leave the queue.
//!
//! Each cycle takes a bounded batch of ready records from the queue and
//! forwards every one of them, in queue order, to the persistent store and
//! to the live tail. The cycle returns what is to be written; the caller,
//! the only thread that may block, writes it and then sleeps until the next
//! cycle. At shutdown one last cycle takes all that is ready, asks for a
//! flush, and releases the observers.

use crate::envelope::{views, Envelope, EnvelopeView};
use crate::queue::{ready_prefix, QueueCore, QueueView};
use crate::store::{plan_of_append, AppendPlan, PersistentStore, StoreView};
use crate::tail::{frame_bytes, Broadcast, LiveTail, ObserverView, TailView};
use vstd::prelude::*;

verus! {

/// What the caller has to do for one consumed record.
#[derive(Debug)]
pub struct Delivery {
    /// The record.
    pub envelope: Envelope,
    /// Where it goes in the store, and whether a segment was sealed or a
    /// flush is due.
    pub store: AppendPlan,
    /// Its frame, and the observers to write it to.
    pub tail: Broadcast,
}

/// What the caller has to do at shutdown.
#[derive(Debug)]
pub struct Shutdown {
    /// The records of the final drain, to be written like any others.
    pub deliveries: Vec<Delivery>,
    /// Whether records were waiting for a flush. The active segment is to
    /// be flushed before its file is released.
    pub flush: bool,
    /// The observers whose connections are to be closed.
    pub closed: Vec<u64>,
}

/// The live tail after all of `records` were consumed in order.
pub open spec fn after_publish_all(t: TailView, records: Seq<EnvelopeView>) -> TailView
    decreases records.len(),
{
    if records.len() == 0 {
        t
    } else {
        after_publish_all(t, records.drop_last()).after_publish(records.last())
    }
}

/// Whether `d` is what forwarding `e` asks of the caller, where the store
/// was `store` before and the observers named `ids` were connected.
pub open spec fn delivery_matches(d: Delivery, e: Envelope, store: StoreView, ids: Seq<u64>) -> bool {
    &&& d.envelope == e
    &&& d.store == plan_of_append(store)
    &&& d.tail.frame@ == frame_bytes(e@)
    &&& d.tail.recipients@ == ids
}

/// How many records a cycle bounded by `max` takes from a queue.
pub open spec fn batch_len(queue: QueueView, max: usize) -> nat {
    if ready_prefix(queue.flight).len() <= max {
        ready_prefix(queue.flight).len()
    } else {
        max as nat
    }
}

/// The records that a cycle bounded by `max` takes from a queue: the oldest
/// ready ones, in queue order.
pub open spec fn batch(queue: QueueView, max: usize) -> Seq<Envelope> {
    ready_prefix(queue.flight).take(batch_len(queue, max) as int)
}

/// Consuming records one after the other hands each to every observer and
/// leaves the set of observers alone.
pub proof fn lemma_publish_all(t: TailView, records: Seq<EnvelopeView>)
    requires
        t.wf(),
    ensures
        after_publish_all(t, records).wf(),
        after_publish_all(t, records).consumed == t.consumed + records,
        after_publish_all(t, records).ids() == t.ids(),
    decreases records.len(),
{
    if records.len() == 0 {
        assert(t.consumed + records =~= t.consumed);
    } else {
        lemma_publish_all(t, records.drop_last());
        crate::tail::lemma_publish_keeps_wf(
            after_publish_all(t, records.drop_last()),
            records.last(),
        );
        assert((t.consumed + records.drop_last()).push(records.last()) =~= t.consumed
            + records);
    }
}

/// Forwards one consumed record to the store and to the live tail.
pub fn forward(store: &mut PersistentStore, tail: &mut LiveTail, envelope: Envelope) -> (d:
    Delivery)
    requires
        old(store).wf(),
        old(tail).wf(),
    ensures
        final(store).wf(),
        final(store)@ == old(store)@.after_append(envelope@),
        final(tail)@ == old(tail)@.after_publish(envelope@),
        final(tail).wf(),
        delivery_matches(d, envelope, old(store)@, old(tail)@.ids()),
{
    let plan = store.append(&envelope);
    let out = tail.publish(&envelope);
    Delivery { envelope, store: plan, tail: out }
}

/// One cycle of the consumer: takes up to `max` ready records from the
/// queue, oldest first, and forwards each to the store and to the live
/// tail, in that order. Records are persisted and mirrored in the order in
/// which the queue held them.
pub fn drain_cycle(
    queue: &mut QueueCore,
    store: &mut PersistentStore,
    tail: &mut LiveTail,
    max: usize,
) -> (deliveries: Vec<Delivery>)
    requires
        old(queue).wf(),
        old(store).wf(),
        old(tail).wf(),
    ensures
        final(queue).wf(),
        final(store).wf(),
        final(tail).wf(),
        final(queue)@ == (QueueView {
            flight: old(queue)@.flight.skip(batch_len(old(queue)@, max) as int),
            ..old(queue)@
        }),
        final(store)@ == old(store)@.after_append_all(views(batch(old(queue)@, max))),
        final(store)@.history() == old(store)@.history() + views(batch(old(queue)@, max)),
        final(tail)@ == after_publish_all(old(tail)@, views(batch(old(queue)@, max))),
        final(tail)@.consumed == old(tail)@.consumed + views(batch(old(queue)@, max)),
        deliveries@.len() == batch_len(old(queue)@, max),
        forall|i: int|
            0 <= i < deliveries@.len() ==> delivery_matches(
                #[trigger] deliveries@[i],
                batch(old(queue)@, max)[i],
                old(store)@.after_append_all(views(batch(old(queue)@, max).take(i))),
                old(tail)@.ids(),
            ),
{
    let taken = queue.drain(max);
    let ghost all = views(taken@);
    assert(taken@ == batch(old(queue)@, max));
    let mut deliveries: Vec<Delivery> = Vec::new();
    let n: usize = taken.len();
    let mut i: usize = 0;
    proof {
        assert(all.take(0) =~= Seq::<EnvelopeView>::empty());
        old(tail).lemma_view_wf();
        old(store).lemma_view_wf();
    }
    while i < n
        invariant
            i <= n,
            n == taken@.len(),
            all == views(taken@),
            old(store)@.wf(),
            old(tail)@.wf(),
            store.wf(),
            tail.wf(),
            store@ == old(store)@.after_append_all(all.take(i as int)),
            tail@ == after_publish_all(old(tail)@, all.take(i as int)),
            deliveries@.len() == i,
            forall|j: int|
                0 <= j < i ==> delivery_matches(
                    #[trigger] deliveries@[j],
                    taken@[j],
                    old(store)@.after_append_all(views(taken@.take(j))),
                    old(tail)@.ids(),
                ),
        decreases n - i,
    {
        let e = taken[i];
        proof {
            assert(all.take(i + 1).drop_last() =~= all.take(i as int));
            assert(all.take(i + 1).last() == e@);
            assert(views(taken@.take(i as int)) =~= all.take(i as int));
            lemma_publish_all(old(tail)@, all.take(i as int));
        }
        let d = forward(store, tail, e);
        deliveries.push(d);
        i += 1;
    }
    proof {
        assert(all.take(n as int) =~= all);
        lemma_publish_all(old(tail)@, all);
        crate::store::lemma_replay_reproduces_appends(old(store)@, all);
    }
    deliveries
}

/// The final cycle at shutdown: takes every record that is ready, forwards
/// each like any other, marks the store as flushed, and releases all
/// observers.
pub fn shutdown(queue: &mut QueueCore, store: &mut PersistentStore, tail: &mut LiveTail) -> (plan:
    Shutdown)
    requires
        old(queue).wf(),
        old(store).wf(),
        old(tail).wf(),
    ensures
        final(queue).wf(),
        final(store).wf(),
        final(tail).wf(),
        final(queue)@ == (QueueView {
            flight: old(queue)@.flight.skip(ready_prefix(old(queue)@.flight).len() as int),
            ..old(queue)@
        }),
        plan.deliveries@.len() == ready_prefix(old(queue)@.flight).len(),
        forall|i: int|
            0 <= i < plan.deliveries@.len() ==> delivery_matches(
                #[trigger] plan.deliveries@[i],
                ready_prefix(old(queue)@.flight)[i],
                old(store)@.after_append_all(views(ready_prefix(old(queue)@.flight).take(i))),
                old(tail)@.ids(),
            ),
        final(store)@ == (StoreView {
            unflushed: 0,
            ..old(store)@.after_append_all(views(ready_prefix(old(queue)@.flight)))
        }),
        final(store)@.history() == old(store)@.history() + views(
            ready_prefix(old(queue)@.flight),
        ),
        plan.flush == (old(store)@.after_append_all(
            views(ready_prefix(old(queue)@.flight)),
        ).unflushed > 0),
        plan.closed@ == old(tail)@.ids(),
        final(tail)@.consumed == old(tail)@.consumed + views(ready_prefix(old(queue)@.flight)),
        final(tail)@.observers == Seq::<ObserverView>::empty(),
{
    let ghost ready = ready_prefix(queue@.flight);
    proof {
        crate::queue::lemma_ready_prefix_len(queue@.flight);
        queue.lemma_view_wf();
    }
    let max: usize = queue.len();
    assert(batch(queue@, max) =~= ready);
    let deliveries = drain_cycle(queue, store, tail, max);
    proof {
        old(tail).lemma_view_wf();
        lemma_publish_all(old(tail)@, views(ready));
    }
    let flush = store.flush_now();
    let closed = tail.disconnect_all();
    Shutdown { deliveries, flush, closed }
}

} // verus!
