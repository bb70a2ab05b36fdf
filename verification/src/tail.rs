//! The live tail: consumed records mirrored, best effort, to whoever is
//! connected at the time.
//!
//! On the wire every record travels as a frame: the length of the record as
//! a 32-bit number, most significant byte first, then the bytes of the
//! record. The registry of observers decides who gets a frame; the caller
//! writes it to the sockets, without blocking, and reports an observer whose
//! write failed by disconnecting it.

use crate::bytes::{be32, be32_value, lemma_be32_roundtrip, push_be32, read_be32};
use crate::envelope::{
    lemma_parse_of_record_bytes, lemma_record_layout, parse_record, record_bytes, valid_record,
    Envelope, EnvelopeView, RECORD_SIZE,
};
use vstd::prelude::*;
use vstd::slice::slice_subrange;

verus! {

/// Bytes of the length prefix of a frame.
pub const FRAME_PREFIX: usize = 4;

/// Bytes of one frame: the prefix and a record.
pub const FRAME_SIZE: usize = 596;

/// Why bytes do not start with a frame.
#[derive(Clone, Copy, Debug, PartialEq, Eq, Structural)]
pub enum FrameError {
    /// The frame has not arrived in full yet.
    Incomplete,
    /// The length prefix is not the length of a record.
    BadLength,
    /// The bytes behind the prefix are no record.
    BadRecord,
}

/// The bytes of the frame that carries a record.
#[verifier::opaque]
pub open spec fn frame_bytes(v: EnvelopeView) -> Seq<u8> {
    be32(RECORD_SIZE as u32) + record_bytes(v)
}

/// The record in the frame that `bytes` start with, or why they start with
/// none.
#[verifier::opaque]
pub open spec fn parse_frame(bytes: Seq<u8>) -> Result<EnvelopeView, FrameError> {
    if bytes.len() < FRAME_PREFIX {
        Err(FrameError::Incomplete)
    } else if be32_value(bytes.subrange(0, 4)) != RECORD_SIZE {
        Err(FrameError::BadLength)
    } else if bytes.len() < FRAME_SIZE {
        Err(FrameError::Incomplete)
    } else if !valid_record(bytes.subrange(4, 596)) {
        Err(FrameError::BadRecord)
    } else {
        Ok(parse_record(bytes.subrange(4, 596))->Some_0)
    }
}

/// The bytes that an observer is sent for `records`: their frames, one
/// after the other.
pub open spec fn stream_bytes(records: Seq<EnvelopeView>) -> Seq<u8>
    decreases records.len(),
{
    if records.len() == 0 {
        Seq::empty()
    } else {
        frame_bytes(records[0]) + stream_bytes(records.skip(1))
    }
}

/// Whatever follows a frame, reading the frame gives its record back.
pub proof fn lemma_parse_of_frame_bytes(v: EnvelopeView, rest: Seq<u8>)
    requires
        v.wf(),
    ensures
        frame_bytes(v).len() == FRAME_SIZE,
        parse_frame(frame_bytes(v) + rest) == Ok::<EnvelopeView, FrameError>(v),
{
    reveal(frame_bytes);
    reveal(parse_frame);
    let b = frame_bytes(v) + rest;
    lemma_record_layout(v);
    lemma_be32_roundtrip(RECORD_SIZE as u32, Seq::empty());
    assert(b.subrange(0, 4) =~= be32(RECORD_SIZE as u32));
    assert(b.subrange(4, 596) =~= record_bytes(v));
    lemma_parse_of_record_bytes(v);
}

/// The frame that carries `envelope`.
pub fn frame(envelope: &Envelope) -> (r: Vec<u8>)
    ensures
        r@ == frame_bytes(envelope@),
        r@.len() == FRAME_SIZE,
        parse_frame(r@) == Ok::<EnvelopeView, FrameError>(envelope@),
{
    let mut out: Vec<u8> = Vec::new();
    push_be32(&mut out, 592);
    envelope.encode_into(&mut out);
    proof {
        reveal(frame_bytes);
        assert(out@ =~= frame_bytes(envelope@));
        lemma_parse_of_frame_bytes(envelope@, Seq::empty());
        assert(frame_bytes(envelope@) + Seq::<u8>::empty() =~= frame_bytes(envelope@));
    }
    out
}

/// Reads the frame at the start of `buffer`, as an observer does with what
/// it has received so far, and says how many bytes the frame took.
/// `Incomplete` means that more bytes have to arrive first.
pub fn read_frame(buffer: &[u8]) -> (r: Result<(Envelope, usize), FrameError>)
    ensures
        match parse_frame(buffer@) {
            Ok(v) => r is Ok && r->Ok_0.0@ == v && r->Ok_0.1 == FRAME_SIZE,
            Err(e) => r == Err::<(Envelope, usize), FrameError>(e),
        },
        r is Ok ==> buffer@.len() >= FRAME_SIZE,
{
    proof {
        reveal(parse_frame);
    }
    if buffer.len() < 4 {
        return Err(FrameError::Incomplete);
    }
    if read_be32(buffer, 0) != 592 {
        return Err(FrameError::BadLength);
    }
    if buffer.len() < 596 {
        return Err(FrameError::Incomplete);
    }
    match Envelope::decode(slice_subrange(buffer, 4, 596)) {
        None => Err(FrameError::BadRecord),
        Some(e) => Ok((e, 596)),
    }
}

/// The records of the complete frames that `bytes` start with, up to the
/// first place where no frame starts.
pub open spec fn frames_in(bytes: Seq<u8>) -> Seq<EnvelopeView>
    decreases bytes.len(),
{
    if bytes.len() < FRAME_SIZE {
        Seq::empty()
    } else {
        match parse_frame(bytes) {
            Ok(v) => seq![v] + frames_in(bytes.skip(596)),
            Err(_) => Seq::empty(),
        }
    }
}

/// A frame in front of a stream is read first, and the stream behind it
/// next.
pub proof fn lemma_frames_step(v: EnvelopeView, rest: Seq<u8>)
    requires
        v.wf(),
    ensures
        frames_in(frame_bytes(v) + rest) == seq![v] + frames_in(rest),
{
    let b = frame_bytes(v) + rest;
    lemma_parse_of_frame_bytes(v, rest);
    assert(b.skip(596) =~= rest);
}

/// An observer that reads what it was sent finds the records it was sent,
/// in the order in which they were sent.
pub proof fn lemma_frames_of_stream(records: Seq<EnvelopeView>)
    requires
        forall|i: int| 0 <= i < records.len() ==> (#[trigger] records[i]).wf(),
    ensures
        frames_in(stream_bytes(records)) == records,
    decreases records.len(),
{
    if records.len() == 0 {
        assert(stream_bytes(records) =~= Seq::<u8>::empty());
        assert(parse_frame(Seq::<u8>::empty()) is Err) by {
            reveal(parse_frame);
        }
        assert(frames_in(stream_bytes(records)) =~= records);
    } else {
        let rest = records.skip(1);
        assert forall|i: int| 0 <= i < rest.len() implies (#[trigger] rest[i]).wf() by {
            assert(rest[i] == records[i + 1]);
        }
        lemma_frames_of_stream(rest);
        lemma_frames_step(records[0], stream_bytes(rest));
        assert(stream_bytes(records) == frame_bytes(records[0]) + stream_bytes(rest));
        assert(seq![records[0]] + rest =~= records);
    }
}

/// Reads every complete frame at the start of `buffer` and says how many
/// bytes they took. Reading stops where the bytes run out or no frame
/// starts; what is left is for the next read.
pub fn read_frames(buffer: &[u8]) -> (r: (Vec<Envelope>, usize))
    ensures
        crate::envelope::views(r.0@) == frames_in(buffer@),
        r.1 == 596 * r.0@.len(),
        r.1 <= buffer@.len(),
{
    let mut out: Vec<Envelope> = Vec::new();
    let mut at: usize = 0;
    let n: usize = buffer.len();
    proof {
        assert(buffer@.skip(0) =~= buffer@);
        assert(crate::envelope::views(out@) =~= Seq::<EnvelopeView>::empty());
        assert(Seq::<EnvelopeView>::empty() + frames_in(buffer@) =~= frames_in(buffer@));
    }
    loop
        invariant
            at <= n,
            n == buffer@.len(),
            at == 596 * out@.len(),
            crate::envelope::views(out@) + frames_in(buffer@.skip(at as int)) == frames_in(
                buffer@,
            ),
        ensures
            at <= n,
            at == 596 * out@.len(),
            crate::envelope::views(out@) == frames_in(buffer@),
        decreases n - at,
    {
        let rest = slice_subrange(buffer, at, n);
        assert(rest@ =~= buffer@.skip(at as int));
        match read_frame(rest) {
            Err(_) => {
                assert(crate::envelope::views(out@) + Seq::<EnvelopeView>::empty()
                    =~= crate::envelope::views(out@));
                break ;
            },
            Ok((e, used)) => {
                let ghost before = out@;
                out.push(e);
                proof {
                    assert(buffer@.skip(at as int).skip(596) =~= buffer@.skip(at + 596));
                    assert(crate::envelope::views(out@) =~= crate::envelope::views(before).push(
                        e@,
                    ));
                    assert(crate::envelope::views(out@) + frames_in(buffer@.skip(at + 596))
                        =~= crate::envelope::views(before) + frames_in(
                        buffer@.skip(at as int),
                    ));
                }
                at = at + used;
            },
        }
    }
    (out, at)
}

/// One connected observer.
pub struct ObserverView {
    /// The caller's name for the connection.
    pub id: u64,
    /// How many records had been consumed when the connection completed.
    pub joined_at: nat,
    /// The records whose frames were handed out for this observer, in
    /// order.
    pub received: Seq<EnvelopeView>,
}

/// What the live tail holds.
pub struct TailView {
    /// Every record consumed so far, in consumption order.
    pub consumed: Seq<EnvelopeView>,
    /// The observers connected now, in the order in which they connected.
    pub observers: Seq<ObserverView>,
}

impl TailView {
    /// Whether an observer named `id` is connected.
    pub open spec fn is_connected(self, id: u64) -> bool {
        exists|i: int| 0 <= i < self.observers.len() && (#[trigger] self.observers[i]).id == id
    }

    /// No two observers share a name, and every observer has been handed
    /// exactly the records consumed since it connected: none of those before,
    /// all of those after, in consumption order.
    pub open spec fn wf(self) -> bool {
        &&& forall|i: int, j: int|
            0 <= i < j < self.observers.len() ==> (#[trigger] self.observers[i]).id != (
            #[trigger] self.observers[j]).id
        &&& forall|i: int|
            0 <= i < self.observers.len() ==> {
                &&& (#[trigger] self.observers[i]).joined_at <= self.consumed.len()
                &&& self.observers[i].received == self.consumed.skip(
                    self.observers[i].joined_at as int,
                )
            }
    }

    /// The live tail after a connection named `id` completed. A name that is
    /// already connected changes nothing.
    pub open spec fn after_connect(self, id: u64) -> TailView {
        if self.is_connected(id) {
            self
        } else {
            TailView {
                observers: self.observers.push(
                    ObserverView { id, joined_at: self.consumed.len(), received: Seq::empty() },
                ),
                ..self
            }
        }
    }

    /// Where the observer named `id` stands among the observers, if it is
    /// connected.
    pub open spec fn index_of(self, id: u64) -> int {
        choose|i: int| 0 <= i < self.observers.len() && (#[trigger] self.observers[i]).id == id
    }

    /// The live tail after the observer named `id` went away or failed. The
    /// others stay as they are.
    pub open spec fn after_disconnect(self, id: u64) -> TailView {
        if self.is_connected(id) {
            TailView { observers: self.observers.remove(self.index_of(id)), ..self }
        } else {
            self
        }
    }

    /// The live tail after `e` was consumed and its frame handed out for
    /// every observer connected.
    pub open spec fn after_publish(self, e: EnvelopeView) -> TailView {
        TailView {
            consumed: self.consumed.push(e),
            observers: self.observers.map_values(
                |o: ObserverView| ObserverView { received: o.received.push(e), ..o },
            ),
        }
    }

    /// The names of the observers connected, in the order in which they
    /// connected.
    pub open spec fn ids(self) -> Seq<u64> {
        self.observers.map_values(|o: ObserverView| o.id)
    }
}

/// What happens at the live tail.
pub enum TailEvent {
    /// A connection completed.
    Connect(u64),
    /// An observer went away, or a write to it failed.
    Disconnect(u64),
    /// The consumer consumed a record.
    Consume(EnvelopeView),
}

/// The live tail after `events`, from a start without records or observers.
pub open spec fn tail_after(events: Seq<TailEvent>) -> TailView
    decreases events.len(),
{
    if events.len() == 0 {
        TailView { consumed: Seq::empty(), observers: Seq::empty() }
    } else {
        let before = tail_after(events.drop_last());
        match events.last() {
            TailEvent::Connect(id) => before.after_connect(id),
            TailEvent::Disconnect(id) => before.after_disconnect(id),
            TailEvent::Consume(e) => before.after_publish(e),
        }
    }
}

/// A connection keeps the live tail consistent.
pub proof fn lemma_connect_keeps_wf(t: TailView, id: u64)
    requires
        t.wf(),
    ensures
        t.after_connect(id).wf(),
{
    let u = t.after_connect(id);
    if !t.is_connected(id) {
        assert(t.consumed.skip(t.consumed.len() as int) =~= Seq::<EnvelopeView>::empty());
        assert forall|i: int, j: int| 0 <= i < j < u.observers.len() implies (
        #[trigger] u.observers[i]).id != (#[trigger] u.observers[j]).id by {
            if j == t.observers.len() {
                assert(t.observers[i].id != id);
            }
        }
    }
}

/// A disconnection keeps the live tail consistent, and takes only the
/// observer named away.
pub proof fn lemma_disconnect_keeps_wf(t: TailView, id: u64)
    requires
        t.wf(),
    ensures
        t.after_disconnect(id).wf(),
        !t.after_disconnect(id).is_connected(id),
        forall|other: u64|
            other != id ==> (t.after_disconnect(id).is_connected(other) <==> t.is_connected(
                other,
            )),
{
    let u = t.after_disconnect(id);
    if t.is_connected(id) {
        let at = t.index_of(id);
        assert forall|k: int| 0 <= k < u.observers.len() implies #[trigger] u.observers[k]
            == t.observers[if k < at {
            k
        } else {
            k + 1
        }] by {}
        assert forall|i: int, j: int| 0 <= i < j < u.observers.len() implies (
        #[trigger] u.observers[i]).id != (#[trigger] u.observers[j]).id by {
            let ti = if i < at {
                i
            } else {
                i + 1
            };
            let tj = if j < at {
                j
            } else {
                j + 1
            };
            assert(t.observers[ti].id != t.observers[tj].id);
        }
        if u.is_connected(id) {
            let k = choose|k: int| 0 <= k < u.observers.len() && (#[trigger] u.observers[k]).id
                == id;
            let tk = if k < at {
                k
            } else {
                k + 1
            };
            assert(t.observers[tk].id == t.observers[at].id);
        }
        assert forall|other: u64| other != id implies (u.is_connected(other) <==> t.is_connected(
            other,
        )) by {
            if t.is_connected(other) {
                let i = choose|i: int|
                    0 <= i < t.observers.len() && (#[trigger] t.observers[i]).id == other;
                let k = if i < at {
                    i
                } else {
                    i - 1
                };
                assert(u.observers[k].id == other);
            }
            if u.is_connected(other) {
                let k = choose|k: int|
                    0 <= k < u.observers.len() && (#[trigger] u.observers[k]).id == other;
                let tk = if k < at {
                    k
                } else {
                    k + 1
                };
                assert(t.observers[tk].id == other);
            }
        }
    }
}

/// A consumed record reaches every observer connected, and keeps the live
/// tail consistent.
pub proof fn lemma_publish_keeps_wf(t: TailView, e: EnvelopeView)
    requires
        t.wf(),
    ensures
        t.after_publish(e).wf(),
        t.after_publish(e).ids() == t.ids(),
{
    let u = t.after_publish(e);
    assert forall|i: int| 0 <= i < u.observers.len() implies {
        &&& (#[trigger] u.observers[i]).joined_at <= u.consumed.len()
        &&& u.observers[i].received == u.consumed.skip(u.observers[i].joined_at as int)
    } by {
        let o = t.observers[i];
        assert(o.received == t.consumed.skip(o.joined_at as int));
        assert(o.received.push(e) =~= t.consumed.push(e).skip(o.joined_at as int));
    }
    assert forall|i: int, j: int| 0 <= i < j < u.observers.len() implies (
    #[trigger] u.observers[i]).id != (#[trigger] u.observers[j]).id by {
        assert(t.observers[i].id != t.observers[j].id);
    }
    assert(u.ids() =~= t.ids());
}

/// An observer that connects after some records were consumed receives
/// none of them, and receives every record consumed after it connected, in
/// consumption order.
///
/// After any sequence of connections, disconnections and consumed records,
/// each observer connected has been handed exactly the records consumed
/// since its connection completed.
pub proof fn lemma_observer_receives_what_follows(events: Seq<TailEvent>, i: int)
    requires
        0 <= i < tail_after(events).observers.len(),
    ensures
        tail_after(events).wf(),
        ({
            let t = tail_after(events);
            let o = t.observers[i];
            &&& o.joined_at <= t.consumed.len()
            &&& o.received.len() == t.consumed.len() - o.joined_at
            &&& forall|k: int|
                0 <= k < o.received.len() ==> o.received[k] == t.consumed[o.joined_at + k]
        }),
{
    lemma_tail_always_wf(events);
}

/// Every state that the live tail reaches is consistent.
pub proof fn lemma_tail_always_wf(events: Seq<TailEvent>)
    ensures
        tail_after(events).wf(),
    decreases events.len(),
{
    if events.len() > 0 {
        lemma_tail_always_wf(events.drop_last());
        let before = tail_after(events.drop_last());
        match events.last() {
            TailEvent::Connect(id) => lemma_connect_keeps_wf(before, id),
            TailEvent::Disconnect(id) => lemma_disconnect_keeps_wf(before, id),
            TailEvent::Consume(e) => lemma_publish_keeps_wf(before, e),
        }
    }
}

/// What the caller has to write for one consumed record.
#[derive(Debug)]
pub struct Broadcast {
    /// The frame of the record.
    pub frame: Vec<u8>,
    /// The observers to write it to, in the order in which they connected.
    pub recipients: Vec<u64>,
}

/// The registry of connected observers.
pub struct LiveTail {
    ids: Vec<u64>,
    model: Ghost<TailView>,
}

impl View for LiveTail {
    type V = TailView;

    closed spec fn view(&self) -> TailView {
        self.model@
    }
}

impl LiveTail {
    /// The registry is consistent: it names each observer once, and every
    /// observer has been handed exactly the records consumed since it
    /// connected.
    pub closed spec fn wf(&self) -> bool {
        &&& self.model@.wf()
        &&& self.ids@ == self.model@.ids()
    }

    /// A consistent registry has a consistent view.
    pub proof fn lemma_view_wf(&self)
        requires
            self.wf(),
        ensures
            self@.wf(),
    {
    }

    /// A live tail without observers, before any record is consumed.
    pub fn new() -> (t: LiveTail)
        ensures
            t.wf(),
            t@ == tail_after(Seq::empty()),
    {
        let t = LiveTail {
            ids: Vec::new(),
            model: Ghost(TailView { consumed: Seq::empty(), observers: Seq::empty() }),
        };
        assert(t.ids@ =~= t.model@.ids());
        t
    }

    fn find(&self, id: u64) -> (at: Option<usize>)
        requires
            self.wf(),
        ensures
            at is Some <==> self@.is_connected(id),
            at matches Some(i) ==> i < self@.observers.len() && self@.index_of(id) == i
                && self.ids@[i as int] == id,
    {
        let n: usize = self.ids.len();
        let mut i: usize = 0;
        while i < n
            invariant
                i <= n,
                n == self.ids@.len(),
                self.wf(),
                forall|k: int| 0 <= k < i ==> self.ids@[k] != id,
            decreases n - i,
        {
            if self.ids[i] == id {
                proof {
                    let t = self@;
                    assert(t.observers[i as int].id == id);
                    let chosen = t.index_of(id);
                    assert(t.observers[chosen].id == id);
                    if chosen < i {
                        assert(t.observers[chosen].id != t.observers[i as int].id);
                    }
                    if chosen > i {
                        assert(t.observers[i as int].id != t.observers[chosen].id);
                    }
                }
                return Some(i);
            }
            i += 1;
        }
        proof {
            let t = self@;
            if t.is_connected(id) {
                let k = choose|k: int| 0 <= k < t.observers.len() && (#[trigger] t.observers[k]).id
                    == id;
                assert(self.ids@[k] == t.observers[k].id);
            }
        }
        None
    }

    /// How many observers are connected.
    pub fn observer_count(&self) -> (n: usize)
        requires
            self.wf(),
        ensures
            n == self@.observers.len(),
    {
        self.ids.len()
    }

    /// Whether an observer named `id` is connected.
    pub fn is_connected(&self, id: u64) -> (r: bool)
        requires
            self.wf(),
        ensures
            r == self@.is_connected(id),
    {
        self.find(id).is_some()
    }

    /// Registers the observer named `id`, whose connection has just
    /// completed. It will be handed the records consumed from now on, and
    /// none of those consumed before. Returns whether it was registered: a
    /// name that is already connected is refused.
    pub fn connect(&mut self, id: u64) -> (connected: bool)
        requires
            old(self).wf(),
        ensures
            final(self).wf(),
            connected == !old(self)@.is_connected(id),
            final(self)@ == old(self)@.after_connect(id),
    {
        if self.find(id).is_some() {
            return false;
        }
        self.ids.push(id);
        proof {
            lemma_connect_keeps_wf(self.model@, id);
            self.model@ = self.model@.after_connect(id);
            assert(self.ids@ =~= self.model@.ids());
        }
        true
    }

    /// Removes the observer named `id`, because it went away or because a
    /// write to it failed. The other observers are not touched. Returns
    /// whether there was such an observer.
    pub fn disconnect(&mut self, id: u64) -> (removed: bool)
        requires
            old(self).wf(),
        ensures
            final(self).wf(),
            removed == old(self)@.is_connected(id),
            final(self)@ == old(self)@.after_disconnect(id),
    {
        match self.find(id) {
            None => false,
            Some(i) => {
                self.ids.remove(i);
                proof {
                    lemma_disconnect_keeps_wf(self.model@, id);
                    self.model@ = self.model@.after_disconnect(id);
                    assert(self.ids@ =~= self.model@.ids());
                }
                true
            },
        }
    }

    /// Takes note that `envelope` was consumed and says what to write to
    /// whom: the frame of the record, to every observer connected now.
    pub fn publish(&mut self, envelope: &Envelope) -> (out: Broadcast)
        requires
            old(self).wf(),
        ensures
            final(self).wf(),
            final(self)@ == old(self)@.after_publish(envelope@),
            out.frame@ == frame_bytes(envelope@),
            out.recipients@ == old(self)@.ids(),
    {
        let frame = frame(envelope);
        let recipients = self.ids.clone();
        proof {
            lemma_publish_keeps_wf(self.model@, envelope@);
            self.model@ = self.model@.after_publish(envelope@);
            assert(recipients@ =~= self.ids@);
        }
        Broadcast { frame, recipients }
    }

    /// Removes every observer, as at shutdown, and returns their names for
    /// the caller to close the connections.
    pub fn disconnect_all(&mut self) -> (closed: Vec<u64>)
        requires
            old(self).wf(),
        ensures
            final(self).wf(),
            closed@ == old(self)@.ids(),
            final(self)@ == (TailView { observers: Seq::empty(), ..old(self)@ }),
    {
        let mut closed: Vec<u64> = Vec::new();
        core::mem::swap(&mut self.ids, &mut closed);
        proof {
            self.model@ = TailView { observers: Seq::empty(), ..self.model@ };
            assert(self.ids@ =~= self.model@.ids());
        }
        closed
    }
}

} // verus!
