//! The logger that producers hold: a producer handle with a level limit in
//! front of it.
//!
//! Free-form messages go through `ErtLogger::log`, which tests the level
//! before anything is built. Structured records go through
//! `ert_do_struct_log`; its callers test the level first, with
//! `ErtLogger::enabled` or `struct_log_enabled`, so that a disabled level
//! costs no encoding.

use crate::envelope::{Envelope, EnvelopeView, Payload, PayloadView, RecordCodec, FREE_FORM_TAG};
use crate::producer::{
    advanced, later, structured_outcome, LogOutcome, ProducerHandle, ProducerView,
};
use crate::queue::{counted_up, QueueCore, QueueView, SubmitResult};
use crate::severity::{LevelFilter, Severity};
use vstd::prelude::*;

verus! {

/// What a logger holds.
pub struct LoggerView {
    /// The handle that stamps and submits the records.
    pub producer: ProducerView,
    /// The most verbose level that is logged.
    pub max_level: LevelFilter,
}

/// The logger of one producer thread.
#[derive(Clone, Copy, Debug, PartialEq, Eq)]
pub struct ErtLogger {
    producer: ProducerHandle,
    max_level: LevelFilter,
}

impl View for ErtLogger {
    type V = LoggerView;

    closed spec fn view(&self) -> LoggerView {
        LoggerView { producer: self.producer@, max_level: self.max_level }
    }
}

/// The first 64 bytes of `text`, or all of it followed by zero bytes.
pub open spec fn context_of(text: Seq<u8>) -> Seq<u8> {
    Seq::new(
        64,
        |i: int|
            if i < text.len() {
                text[i]
            } else {
                0u8
            },
    )
}

/// The context tag for `text`, such as a target and a source location: its
/// first 64 bytes, or all of it followed by zero bytes.
pub fn context_tag(text: &[u8]) -> (tag: [u8; 64])
    ensures
        tag@ == context_of(text@),
{
    let n: usize = if text.len() <= 64 {
        text.len()
    } else {
        64
    };
    let mut tag: [u8; 64] = [0u8; 64];
    let mut i: usize = 0;
    while i < n
        invariant
            i <= n <= 64,
            n <= text@.len(),
            n == 64 || n == text@.len(),
            forall|j: int| 0 <= j < i ==> tag@[j] == text@[j],
            forall|j: int| i <= j < 64 ==> tag@[j] == 0u8,
        decreases n - i,
    {
        tag[i] = text[i];
        i += 1;
    }
    assert(tag@ =~= context_of(text@));
    tag
}

/// The text of a free-form record: `text`, cut at the payload budget.
pub open spec fn cut_text(text: Seq<u8>) -> Seq<u8> {
    text.take(
        if text.len() <= crate::envelope::PAYLOAD_BUDGET {
            text.len() as int
        } else {
            crate::envelope::PAYLOAD_BUDGET as int
        },
    )
}

/// Whether the queue `after` is the queue `before` with one more record at
/// its end, ready for the consumer and holding `record`.
pub open spec fn queued_behind(before: QueueView, after: QueueView, record: EnvelopeView) -> bool {
    &&& after.capacity == before.capacity
    &&& after.dropped == before.dropped
    &&& after.flight.len() == before.flight.len() + 1
    &&& after.flight.drop_last() == before.flight
    &&& after.flight.last() is Ready
    &&& after.flight.last()->Ready_0@ == record
}

impl ErtLogger {
    /// The logger of the producer with the given id, which logs the levels
    /// that `max_level` lets through.
    pub fn new(producer_id: u16, max_level: LevelFilter) -> (logger: ErtLogger)
        ensures
            logger@ == (LoggerView {
                producer: ProducerView {
                    producer_id,
                    next_sequence: 0,
                    last_timestamp: 0,
                    oversize: 0,
                },
                max_level,
            }),
    {
        ErtLogger { producer: ProducerHandle::new(producer_id), max_level }
    }

    /// The handle that stamps and submits the records of this logger.
    pub fn producer(&self) -> (p: &ProducerHandle)
        ensures
            p@ == self@.producer,
    {
        &self.producer
    }

    /// Changes the most verbose level that is logged.
    pub fn set_max_level(&mut self, max_level: LevelFilter)
        ensures
            final(self)@ == (LoggerView { max_level, ..old(self)@ }),
    {
        self.max_level = max_level;
    }

    /// Whether records of the given level are logged.
    pub fn enabled(&self, level: Severity) -> (r: bool)
        ensures
            r == self@.max_level.admits(level),
    {
        self.max_level.lets_through(level)
    }

    /// Logs a free-form message. A level that is not enabled costs nothing:
    /// no record is built, no sequence number spent, the queue not touched.
    /// Otherwise the text, cut silently at the payload budget, is submitted
    /// as the next record of this producer.
    pub fn log(
        &mut self,
        queue: &mut QueueCore,
        timestamp: u64,
        level: Severity,
        context: [u8; 64],
        text: &[u8],
    ) -> (r: Option<SubmitResult>)
        requires
            old(queue).wf(),
        ensures
            final(queue).wf(),
            r == if old(self)@.max_level.admits(level) {
                Some(old(queue)@.submit_result())
            } else {
                None
            },
            r is None ==> final(self)@ == old(self)@ && final(queue)@ == old(queue)@,
            r is Some ==> final(self)@ == (LoggerView {
                producer: advanced(old(self)@.producer, timestamp),
                ..old(self)@
            }),
            r == Some(SubmitResult::Dropped) ==> final(queue)@ == (QueueView {
                dropped: counted_up(old(queue)@.dropped),
                ..old(queue)@
            }),
            r == Some(SubmitResult::Accepted) ==> queued_behind(
                old(queue)@,
                final(queue)@,
                EnvelopeView {
                    timestamp: later(timestamp, old(self)@.producer.last_timestamp),
                    severity: level,
                    producer_id: old(self)@.producer.producer_id,
                    sequence: old(self)@.producer.next_sequence,
                    context: context@,
                    payload: PayloadView { tag: FREE_FORM_TAG, data: cut_text(text@) },
                },
            ),
    {
        if !self.max_level.lets_through(level) {
            return None;
        }
        let envelope = Envelope {
            timestamp,
            severity: level,
            producer_id: 0,
            sequence: 0,
            context,
            payload: Payload::free_form(text),
        };
        let r = self.producer.submit(queue, envelope);
        proof {
            if r is Accepted {
                let sent = crate::producer::stamped(envelope, old(self)@.producer);
                assert(old(queue)@.flight.push(crate::queue::Slot::Ready(sent)).drop_last()
                    =~= old(queue)@.flight);
            }
        }
        Some(r)
    }
}

/// Logs a structured record through `logger`. The caller has tested the
/// level. If the encoded fields exceed the payload budget the record is
/// rejected here, before anything reaches the queue, and the rejection is
/// counted once on the handle of the logger.
pub fn ert_do_struct_log<T: RecordCodec>(
    logger: &mut ErtLogger,
    queue: &mut QueueCore,
    timestamp: u64,
    level: Severity,
    context: [u8; 64],
    strct: &T,
) -> (r: LogOutcome)
    requires
        old(queue).wf(),
    ensures
        final(queue).wf(),
        r == structured_outcome(old(queue)@, strct.fields()),
        final(logger)@.max_level == old(logger)@.max_level,
        r is Oversize ==> final(queue)@ == old(queue)@ && final(logger)@.producer
            == (ProducerView {
            oversize: counted_up(old(logger)@.producer.oversize),
            ..old(logger)@.producer
        }),
        !(r is Oversize) ==> final(logger)@.producer == advanced(
            old(logger)@.producer,
            timestamp,
        ),
        r is Dropped ==> final(queue)@ == (QueueView {
            dropped: counted_up(old(queue)@.dropped),
            ..old(queue)@
        }),
        r is Accepted ==> queued_behind(
            old(queue)@,
            final(queue)@,
            EnvelopeView {
                timestamp: later(timestamp, old(logger)@.producer.last_timestamp),
                severity: level,
                producer_id: old(logger)@.producer.producer_id,
                sequence: old(logger)@.producer.next_sequence,
                context: context@,
                payload: PayloadView { tag: strct.schema(), data: strct.fields() },
            },
        ),
{
    logger.producer.submit_record(queue, timestamp, level, context, strct)
}

} // verus!
