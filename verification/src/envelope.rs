//! The record envelope: one fixed-size, self-describing unit of telemetry,
//! and its byte-for-byte stable record layout.
//!
//! A record is 592 bytes, every integer most significant byte first:
//!
//! | bytes     | field                                         |
//! |-----------|-----------------------------------------------|
//! | 0..8      | timestamp                                     |
//! | 8         | severity, 0 for trace up to 4 for error       |
//! | 9..11     | producer id                                   |
//! | 11..13    | sequence number                               |
//! | 13..77    | context tag                                   |
//! | 77        | payload tag, 0 for free-form, else the schema |
//! | 78..80    | payload length                                |
//! | 80..592   | payload, zero from the payload length on      |

use crate::bytes::{
    be16, be16_value, be64, be64_value, lemma_be16_roundtrip, lemma_be64_roundtrip, push_be16,
    push_be64, read_be16, read_be64,
};
use crate::severity::{lemma_rank_roundtrip, Severity};
use vstd::prelude::*;

verus! {

/// Bytes of caller-supplied correlation data in every record.
pub const CONTEXT_SIZE: usize = 64;

/// Bytes that every record reserves for its payload.
pub const PAYLOAD_BUDGET: usize = 512;

/// Bytes of one record.
pub const RECORD_SIZE: usize = 592;

/// The payload tag of free-form text.
pub const FREE_FORM_TAG: u8 = 0;

/// Why a payload could not be built.
#[derive(Clone, Copy, Debug, PartialEq, Eq, Structural)]
pub enum EncodeError {
    /// The encoded fields need more than the payload budget.
    Oversize,
}

/// The stable small integer that identifies a registered record type. It is
/// never zero: zero tags free-form text.
#[derive(Clone, Copy, Debug, PartialEq, Eq, Hash)]
pub struct SchemaTag {
    raw: u8,
}

impl SchemaTag {
    #[verifier::type_invariant]
    spec fn nonzero(self) -> bool {
        self.raw != 0
    }

    /// The tag as it stands in a record.
    pub closed spec fn value(self) -> u8 {
        self.raw
    }

    /// The tag with the given number; zero is no schema tag.
    pub fn new(raw: u8) -> (r: Option<SchemaTag>)
        ensures
            raw == 0 <==> r is None,
            r matches Some(tag) ==> tag.value() == raw,
    {
        if raw == 0 {
            None
        } else {
            Some(SchemaTag { raw })
        }
    }

    /// The tag as it stands in a record.
    pub fn raw(&self) -> (r: u8)
        ensures
            r == self.value(),
            r != 0,
    {
        proof {
            use_type_invariant(self);
        }
        self.raw
    }
}

/// The greatest schema tag that a registry hands out. The tag above it is
/// kept for the record type that the library itself logs.
pub const LAST_REGISTERED_TAG: u8 = 254;

/// The single point at which record types get their schema tags. Tags are
/// handed out in order from 1, so a program that registers its record types
/// in a fixed order gives each the same tag in every run.
pub struct SchemaRegistry {
    assigned: u8,
}

impl SchemaRegistry {
    /// How many tags have been handed out: exactly the tags from 1 to this
    /// number.
    pub closed spec fn count(self) -> int {
        self.assigned as int
    }

    /// A registry that has handed out no tag yet.
    pub fn new() -> (r: SchemaRegistry)
        ensures
            r.count() == 0,
    {
        SchemaRegistry { assigned: 0 }
    }

    /// Hands out the next tag, or nothing once all 254 are taken.
    pub fn register(&mut self) -> (r: Option<SchemaTag>)
        ensures
            old(self).count() < LAST_REGISTERED_TAG ==> r is Some && r->Some_0.value() == old(
                self,
            ).count() + 1 && final(self).count() == old(self).count() + 1,
            old(self).count() >= LAST_REGISTERED_TAG ==> r is None && final(self).count() == old(
                self,
            ).count(),
    {
        if self.assigned >= LAST_REGISTERED_TAG {
            None
        } else {
            self.assigned = self.assigned + 1;
            SchemaTag::new(self.assigned)
        }
    }

    /// Whether `tag` was handed out by this registry.
    pub fn is_registered(&self, tag: SchemaTag) -> (r: bool)
        ensures
            r == (tag.value() <= self.count()),
    {
        tag.raw() <= self.assigned
    }
}

/// What a payload holds: its tag and the bytes in use.
pub struct PayloadView {
    /// 0 for free-form text, else the schema tag of a structured payload.
    pub tag: u8,
    /// The text, or the encoded fields.
    pub data: Seq<u8>,
}

impl PayloadView {
    /// The data fits the payload budget.
    pub open spec fn wf(self) -> bool {
        self.data.len() <= PAYLOAD_BUDGET
    }
}

/// The payload of a record: free-form text or the encoded fields of a
/// registered record type. Both shapes occupy the same fixed buffer, so every
/// payload has the same size in memory.
#[derive(Clone, Copy, Debug, PartialEq, Eq)]
pub struct Payload {
    tag: u8,
    len: u16,
    bytes: [u8; 512],
}

impl View for Payload {
    type V = PayloadView;

    closed spec fn view(&self) -> PayloadView {
        PayloadView { tag: self.tag, data: self.bytes@.subrange(0, self.len as int) }
    }
}

/// A record codec: a record type that knows its schema tag and how to encode
/// its fields. Implement it for each type that is logged as a structured
/// record.
pub trait RecordCodec {
    /// The schema tag of this record type, as it stands in a record. An
    /// implementation that is to be verified states it; where none is
    /// stated, nothing is known of it.
    open spec fn schema(&self) -> u8 {
        arbitrary()
    }

    /// The encoded fields of this record. An implementation that is to be
    /// verified states them; where none are stated, nothing is known of
    /// them.
    open spec fn fields(&self) -> Seq<u8> {
        arbitrary()
    }

    /// The schema tag of this record type.
    fn schema_tag(&self) -> (tag: SchemaTag)
        ensures
            tag.value() == self.schema(),
    ;

    /// Encodes the fields into the front of `buf` and returns their length,
    /// or returns nothing if they need more than the buffer holds. Bytes
    /// behind the fields are left as they were.
    fn encode_fields(&self, buf: &mut [u8; 512]) -> (written: Option<u16>)
        ensures
            self.fields().len() > PAYLOAD_BUDGET <==> written is None,
            written matches Some(len) ==> {
                &&& len == self.fields().len()
                &&& final(buf)@.subrange(0, len as int) == self.fields()
                &&& final(buf)@.subrange(len as int, 512) == old(buf)@.subrange(len as int, 512)
            },
    ;
}

impl Payload {
    #[verifier::type_invariant]
    spec fn canonical(self) -> bool {
        &&& self.len <= 512
        &&& forall|i: int| self.len <= i < 512 ==> self.bytes@[i] == 0u8
    }

    /// Free-form text. Text beyond the payload budget is cut off silently.
    pub fn free_form(text: &[u8]) -> (r: Payload)
        ensures
            r@.tag == FREE_FORM_TAG,
            r@.data == text@.take(
                if text@.len() <= PAYLOAD_BUDGET {
                    text@.len() as int
                } else {
                    PAYLOAD_BUDGET as int
                },
            ),
            r@.wf(),
    {
        let n: usize = if text.len() <= 512 {
            text.len()
        } else {
            512
        };
        let mut buf: [u8; 512] = [0u8; 512];
        let mut i: usize = 0;
        while i < n
            invariant
                i <= n <= 512,
                n <= text@.len(),
                forall|j: int| 0 <= j < i ==> buf@[j] == text@[j],
                forall|j: int| i <= j < 512 ==> buf@[j] == 0u8,
            decreases n - i,
        {
            buf[i] = text[i];
            i += 1;
        }
        let r = Payload { tag: 0, len: n as u16, bytes: buf };
        assert(r@.data =~= text@.take(n as int));
        r
    }

    /// The encoded fields of a record of the type that `tag` identifies.
    /// Fields beyond the payload budget are rejected, never cut.
    pub fn structured(tag: SchemaTag, fields: &[u8]) -> (r: Result<Payload, EncodeError>)
        ensures
            fields@.len() > PAYLOAD_BUDGET <==> r is Err,
            r matches Err(e) ==> e == EncodeError::Oversize,
            r matches Ok(p) ==> p@.tag == tag.value() && p@.data == fields@ && p@.wf(),
    {
        let n: usize = fields.len();
        if n > 512 {
            return Err(EncodeError::Oversize);
        }
        let mut buf: [u8; 512] = [0u8; 512];
        let mut i: usize = 0;
        while i < n
            invariant
                i <= n <= 512,
                n == fields@.len(),
                forall|j: int| 0 <= j < i ==> buf@[j] == fields@[j],
                forall|j: int| i <= j < 512 ==> buf@[j] == 0u8,
            decreases n - i,
        {
            buf[i] = fields[i];
            i += 1;
        }
        let p = Payload { tag: tag.raw(), len: n as u16, bytes: buf };
        assert(p@.data =~= fields@);
        Ok(p)
    }

    /// The structured payload made of what a codec left in `buf`, where
    /// `written` is what the codec returned. Whatever the codec did, the
    /// outcome is well defined: no length, or one beyond the budget, is a
    /// rejection; otherwise the payload holds the first `written` bytes of
    /// the buffer, and what the codec may have left behind them is cleared.
    pub fn from_encoded(tag: SchemaTag, buf: [u8; 512], written: Option<u16>) -> (r: Result<
        Payload,
        EncodeError,
    >)
        ensures
            r is Ok <==> (written matches Some(len) && len <= PAYLOAD_BUDGET),
            r matches Err(e) ==> e == EncodeError::Oversize,
            r matches Ok(p) ==> p@.tag == tag.value() && p@.data == buf@.subrange(
                0,
                written->Some_0 as int,
            ) && p@.wf(),
    {
        let len: u16 = match written {
            None => {
                return Err(EncodeError::Oversize);
            },
            Some(len) => len,
        };
        if len > 512 {
            return Err(EncodeError::Oversize);
        }
        let mut bytes = buf;
        let mut i: usize = len as usize;
        while i < 512
            invariant
                len <= i <= 512,
                forall|j: int| 0 <= j < len ==> bytes@[j] == buf@[j],
                forall|j: int| len <= j < i ==> bytes@[j] == 0u8,
            decreases 512 - i,
        {
            bytes[i] = 0;
            i += 1;
        }
        let p = Payload { tag: tag.raw(), len, bytes };
        assert(p@.data =~= buf@.subrange(0, len as int));
        Ok(p)
    }

    /// The structured payload of `record`, encoded by its codec straight
    /// into a payload buffer. Fields beyond the payload budget are
    /// rejected.
    pub fn of_record<T: RecordCodec>(record: &T) -> (r: Result<Payload, EncodeError>)
        ensures
            record.fields().len() > PAYLOAD_BUDGET <==> r is Err,
            r matches Err(e) ==> e == EncodeError::Oversize,
            r matches Ok(p) ==> p@.tag == record.schema() && p@.data == record.fields()
                && p@.wf(),
    {
        let tag = record.schema_tag();
        let mut buf: [u8; 512] = [0u8; 512];
        let written = record.encode_fields(&mut buf);
        Payload::from_encoded(tag, buf, written)
    }

    /// Whether the payload holds the fields of a registered record type.
    pub fn is_structured(&self) -> (r: bool)
        ensures
            r == (self@.tag != FREE_FORM_TAG),
    {
        self.tag != 0
    }

    /// The schema tag of a structured payload; free-form text has none.
    pub fn schema(&self) -> (r: Option<SchemaTag>)
        ensures
            self@.tag == FREE_FORM_TAG <==> r is None,
            r matches Some(tag) ==> tag.value() == self@.tag,
    {
        SchemaTag::new(self.tag)
    }

    /// How many bytes of the payload are in use.
    pub fn len(&self) -> (n: usize)
        ensures
            n == self@.data.len(),
            n <= PAYLOAD_BUDGET,
    {
        proof {
            use_type_invariant(self);
        }
        self.len as usize
    }

    /// The bytes in use: the text or the encoded fields.
    pub fn data(&self) -> (r: Vec<u8>)
        ensures
            r@ == self@.data,
    {
        proof {
            use_type_invariant(self);
        }
        let n: usize = self.len as usize;
        let mut out: Vec<u8> = Vec::new();
        let mut i: usize = 0;
        while i < n
            invariant
                i <= n <= 512,
                n == self.len,
                out@ == self.bytes@.subrange(0, i as int),
            decreases n - i,
        {
            out.push(self.bytes[i]);
            assert(out@ =~= self.bytes@.subrange(0, i + 1));
            i += 1;
        }
        out
    }
}

/// What a record holds, with its byte fields as sequences.
pub struct EnvelopeView {
    pub timestamp: u64,
    pub severity: Severity,
    pub producer_id: u16,
    pub sequence: u16,
    pub context: Seq<u8>,
    pub payload: PayloadView,
}

impl EnvelopeView {
    /// The context has its fixed size and the payload fits its budget.
    pub open spec fn wf(self) -> bool {
        &&& self.context.len() == CONTEXT_SIZE
        &&& self.payload.wf()
    }
}

/// One unit of telemetry. It has the same size in memory whatever it
/// carries, and holds no pointer.
#[derive(Clone, Copy, Debug, PartialEq, Eq)]
pub struct Envelope {
    /// Monotonic clock reading at emission.
    pub timestamp: u64,
    pub severity: Severity,
    /// The producer thread that emitted the record.
    pub producer_id: u16,
    /// Position of the record among those of its producer; wraps.
    pub sequence: u16,
    /// Caller-supplied correlation data.
    pub context: [u8; 64],
    pub payload: Payload,
}

impl View for Envelope {
    type V = EnvelopeView;

    open spec fn view(&self) -> EnvelopeView {
        EnvelopeView {
            timestamp: self.timestamp,
            severity: self.severity,
            producer_id: self.producer_id,
            sequence: self.sequence,
            context: self.context@,
            payload: self.payload@,
        }
    }
}

/// What each of `envelopes` holds, in order.
pub open spec fn views(envelopes: Seq<Envelope>) -> Seq<EnvelopeView> {
    envelopes.map_values(|e: Envelope| e@)
}

/// `n` zero bytes.
pub open spec fn zeros(n: int) -> Seq<u8> {
    Seq::new(n as nat, |i: int| 0u8)
}

/// The 592 bytes of a record.
pub open spec fn record_bytes(v: EnvelopeView) -> Seq<u8> {
    be64(v.timestamp) + seq![v.severity.rank() as u8] + be16(v.producer_id) + be16(v.sequence)
        + v.context + seq![v.payload.tag] + be16(v.payload.data.len() as u16) + v.payload.data
        + zeros(PAYLOAD_BUDGET - v.payload.data.len())
}

/// The payload length that the bytes of a record state.
pub open spec fn stated_payload_len(bytes: Seq<u8>) -> int {
    be16_value(bytes.subrange(78, 80))
}

/// Whether `bytes` are a record: the right size, a severity byte that names
/// a severity, a payload length within the budget, and zero padding behind
/// the payload.
pub open spec fn valid_record(bytes: Seq<u8>) -> bool {
    &&& bytes.len() == RECORD_SIZE
    &&& bytes[8] <= 4
    &&& stated_payload_len(bytes) <= PAYLOAD_BUDGET
    &&& forall|i: int| 80 + stated_payload_len(bytes) <= i < RECORD_SIZE ==> bytes[i] == 0u8
}

/// What the bytes of a record hold; nothing if they are no record.
pub open spec fn parse_record(bytes: Seq<u8>) -> Option<EnvelopeView> {
    if valid_record(bytes) {
        Some(
            EnvelopeView {
                timestamp: be64_value(bytes.subrange(0, 8)) as u64,
                severity: Severity::of_rank(bytes[8] as int)->Some_0,
                producer_id: be16_value(bytes.subrange(9, 11)) as u16,
                sequence: be16_value(bytes.subrange(11, 13)) as u16,
                context: bytes.subrange(13, 77),
                payload: PayloadView {
                    tag: bytes[77],
                    data: bytes.subrange(80, 80 + stated_payload_len(bytes)),
                },
            },
        )
    } else {
        None
    }
}

/// Where each field stands in the bytes of a record.
pub proof fn lemma_record_layout(v: EnvelopeView)
    requires
        v.wf(),
    ensures
        record_bytes(v).len() == RECORD_SIZE,
        record_bytes(v).subrange(0, 8) == be64(v.timestamp),
        record_bytes(v)[8] == v.severity.rank(),
        record_bytes(v).subrange(9, 11) == be16(v.producer_id),
        record_bytes(v).subrange(11, 13) == be16(v.sequence),
        record_bytes(v).subrange(13, 77) == v.context,
        record_bytes(v)[77] == v.payload.tag,
        record_bytes(v).subrange(78, 80) == be16(v.payload.data.len() as u16),
        record_bytes(v).subrange(80, 80 + v.payload.data.len() as int) == v.payload.data,
        forall|i: int| 80 + v.payload.data.len() <= i < RECORD_SIZE ==> record_bytes(v)[i] == 0u8,
{
    let b = record_bytes(v);
    lemma_be64_roundtrip(v.timestamp, Seq::empty());
    lemma_be16_roundtrip(v.producer_id, Seq::empty());
    lemma_be16_roundtrip(v.sequence, Seq::empty());
    lemma_be16_roundtrip(v.payload.data.len() as u16, Seq::empty());
    lemma_rank_roundtrip(v.severity, 0);
    assert(b.len() == RECORD_SIZE);
    assert(b.subrange(0, 8) =~= be64(v.timestamp));
    assert(b.subrange(9, 11) =~= be16(v.producer_id));
    assert(b.subrange(11, 13) =~= be16(v.sequence));
    assert(b.subrange(13, 77) =~= v.context);
    assert(b.subrange(78, 80) =~= be16(v.payload.data.len() as u16));
    assert(b.subrange(80, 80 + v.payload.data.len() as int) =~= v.payload.data);
}

/// Decoding the bytes of a record gives the record back.
pub proof fn lemma_parse_of_record_bytes(v: EnvelopeView)
    requires
        v.wf(),
    ensures
        valid_record(record_bytes(v)),
        parse_record(record_bytes(v)) == Some(v),
{
    let b = record_bytes(v);
    lemma_record_layout(v);
    lemma_be64_roundtrip(v.timestamp, Seq::empty());
    lemma_be16_roundtrip(v.producer_id, Seq::empty());
    lemma_be16_roundtrip(v.sequence, Seq::empty());
    lemma_be16_roundtrip(v.payload.data.len() as u16, Seq::empty());
    lemma_rank_roundtrip(v.severity, 0);
    assert(stated_payload_len(b) == v.payload.data.len());
    let p = parse_record(b)->Some_0;
    assert(p.payload.data =~= v.payload.data);
    assert(p.context =~= v.context);
}

/// Encoding what a record was decoded to gives the same bytes back, so
/// records and their bytes correspond one to one.
pub proof fn lemma_record_bytes_of_parse(bytes: Seq<u8>)
    requires
        valid_record(bytes),
    ensures
        parse_record(bytes)->Some_0.wf(),
        record_bytes(parse_record(bytes)->Some_0) == bytes,
{
    let v = parse_record(bytes)->Some_0;
    lemma_be64_roundtrip(0, bytes.subrange(0, 8));
    lemma_be16_roundtrip(0, bytes.subrange(9, 11));
    lemma_be16_roundtrip(0, bytes.subrange(11, 13));
    lemma_be16_roundtrip(0, bytes.subrange(78, 80));
    lemma_rank_roundtrip(Severity::Trace, bytes[8] as int);
    assert(v.wf());
    lemma_record_layout(v);
    let b = record_bytes(v);
    assert forall|i: int| 0 <= i < RECORD_SIZE implies b[i] == bytes[i] by {
        if i < 8 {
            assert(b[i] == b.subrange(0, 8)[i]);
            assert(bytes[i] == bytes.subrange(0, 8)[i]);
        } else if i == 8 {
        } else if i < 11 {
            assert(b[i] == b.subrange(9, 11)[i - 9]);
            assert(bytes[i] == bytes.subrange(9, 11)[i - 9]);
        } else if i < 13 {
            assert(b[i] == b.subrange(11, 13)[i - 11]);
            assert(bytes[i] == bytes.subrange(11, 13)[i - 11]);
        } else if i < 77 {
            assert(b[i] == b.subrange(13, 77)[i - 13]);
        } else if i == 77 {
        } else if i < 80 {
            assert(b[i] == b.subrange(78, 80)[i - 78]);
            assert(bytes[i] == bytes.subrange(78, 80)[i - 78]);
        } else if i < 80 + v.payload.data.len() {
            assert(b[i] == b.subrange(80, 80 + v.payload.data.len() as int)[i - 80]);
        } else {
        }
    }
    assert(b =~= bytes);
}

impl Default for Envelope {
    /// The blank record that a logger fills in: time zero, the least
    /// serious level, producer and sequence zero, an all-zero context and
    /// empty free-form text.
    fn default() -> (r: Envelope)
        ensures
            r@ == (EnvelopeView {
                timestamp: 0,
                severity: Severity::Trace,
                producer_id: 0,
                sequence: 0,
                context: zeros(CONTEXT_SIZE as int),
                payload: PayloadView { tag: FREE_FORM_TAG, data: Seq::empty() },
            }),
            r@.wf(),
    {
        let none: [u8; 0] = [];
        let payload = Payload::free_form(none.as_slice());
        let r = Envelope {
            timestamp: 0,
            severity: Severity::Trace,
            producer_id: 0,
            sequence: 0,
            context: [0u8; 64],
            payload,
        };
        assert(r@.context =~= zeros(CONTEXT_SIZE as int));
        assert(r@.payload.data =~= Seq::<u8>::empty());
        r
    }
}

impl Envelope {
    /// Appends the 592 bytes of this record to `out`.
    pub fn encode_into(&self, out: &mut Vec<u8>)
        ensures
            final(out)@ == old(out)@ + record_bytes(self@),
            self@.wf(),
    {
        proof {
            use_type_invariant(&self.payload);
        }
        push_be64(out, self.timestamp);
        out.push(self.severity.to_byte());
        push_be16(out, self.producer_id);
        push_be16(out, self.sequence);
        out.extend_from_slice(self.context.as_slice());
        out.push(self.payload.tag);
        push_be16(out, self.payload.len);
        out.extend_from_slice(self.payload.bytes.as_slice());
        proof {
            let data = self@.payload.data;
            assert(self.payload.bytes@ =~= data + zeros(PAYLOAD_BUDGET - data.len()));
            assert(out@ =~= old(out)@ + record_bytes(self@));
        }
    }

    /// The 592 bytes of this record.
    pub fn encode(&self) -> (r: Vec<u8>)
        ensures
            r@ == record_bytes(self@),
            r@.len() == RECORD_SIZE,
            parse_record(r@) == Some(self@),
    {
        let mut out: Vec<u8> = Vec::new();
        self.encode_into(&mut out);
        proof {
            assert(out@ =~= record_bytes(self@));
            lemma_record_layout(self@);
            lemma_parse_of_record_bytes(self@);
        }
        out
    }

    /// Reads a record back from its bytes. Bytes that are no record give
    /// nothing.
    pub fn decode(bytes: &[u8]) -> (r: Option<Envelope>)
        ensures
            r is Some <==> valid_record(bytes@),
            r matches Some(e) ==> Some(e@) == parse_record(bytes@) && record_bytes(e@) == bytes@,
    {
        if bytes.len() != 592 {
            return None;
        }
        let severity = match Severity::from_byte(bytes[8]) {
            Some(s) => s,
            None => {
                return None;
            },
        };
        let len: u16 = read_be16(bytes, 78);
        if len > 512 {
            return None;
        }
        let used: usize = len as usize;
        let mut k: usize = 80 + used;
        while k < 592
            invariant
                80 + used <= k <= 592,
                bytes@.len() == 592,
                used == stated_payload_len(bytes@),
                forall|j: int| 80 + used <= j < k ==> bytes@[j] == 0u8,
            decreases 592 - k,
        {
            if bytes[k] != 0 {
                return None;
            }
            k += 1;
        }
        let mut context: [u8; 64] = [0u8; 64];
        let mut i: usize = 0;
        while i < 64
            invariant
                i <= 64,
                bytes@.len() == 592,
                forall|j: int| 0 <= j < i ==> context@[j] == bytes@[13 + j],
            decreases 64 - i,
        {
            context[i] = bytes[13 + i];
            i += 1;
        }
        let mut buf: [u8; 512] = [0u8; 512];
        let mut i: usize = 0;
        while i < used
            invariant
                i <= used <= 512,
                bytes@.len() == 592,
                forall|j: int| 0 <= j < i ==> buf@[j] == bytes@[80 + j],
                forall|j: int| i <= j < 512 ==> buf@[j] == 0u8,
            decreases used - i,
        {
            buf[i] = bytes[80 + i];
            i += 1;
        }
        let e = Envelope {
            timestamp: read_be64(bytes, 0),
            severity,
            producer_id: read_be16(bytes, 9),
            sequence: read_be16(bytes, 11),
            context,
            payload: Payload { tag: bytes[77], len, bytes: buf },
        };
        proof {
            let v = parse_record(bytes@)->Some_0;
            assert(e@.context =~= v.context);
            assert(e@.payload.data =~= v.payload.data);
            lemma_rank_roundtrip(severity, bytes@[8] as int);
            lemma_record_bytes_of_parse(bytes@);
        }
        Some(e)
    }
}

} // verus!
