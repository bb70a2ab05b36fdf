//! The persistent store: an append-only log of consumed records, kept in
//! segments of a fixed number of records.
//!
//! A segment file is a header of three 32-bit numbers, most significant byte
//! first (format version, capacity in records, write cursor in records),
//! followed by as many record slots as the capacity says. What a segment
//! holds is a function of its bytes alone. The store decides where a record
//! goes, when a full segment is sealed and when the mapping is flushed; the
//! caller writes the bytes.

use crate::bytes::{be32, be32_value, lemma_be32_roundtrip, push_be32, read_be32};
use crate::envelope::{
    lemma_parse_of_record_bytes, lemma_record_bytes_of_parse, lemma_record_layout, parse_record,
    record_bytes, valid_record, views, zeros, Envelope, EnvelopeView,
};
use vstd::prelude::*;
use vstd::slice::slice_subrange;

verus! {

/// The version of the segment format written here.
pub const FORMAT_VERSION: u32 = 1;

/// Bytes of a segment header.
pub const HEADER_SIZE: usize = 12;

/// The most records that one segment can hold: the greatest number for which
/// a segment file is shorter than 4 GiB.
pub const MAX_SEGMENT_CAPACITY: u32 = 7_000_000;

/// Why bytes are not a segment.
#[derive(Clone, Copy, Debug, PartialEq, Eq, Structural)]
pub enum StoreError {
    /// Fewer bytes than a header.
    Truncated,
    /// A format version other than the one written here.
    BadVersion,
    /// A capacity of zero or beyond the maximum, or a file that is not as
    /// long as its capacity says.
    BadSize,
    /// A write cursor beyond the capacity.
    BadCursor,
    /// Bytes before the write cursor that are no record.
    BadRecord,
}

/// What a segment holds.
pub struct SegmentView {
    /// How many records the segment has room for.
    pub capacity: nat,
    /// The records written, in write order. Their number is the write
    /// cursor.
    pub records: Seq<EnvelopeView>,
}

impl SegmentView {
    /// The capacity is in range and the cursor within it.
    pub open spec fn wf(self) -> bool {
        &&& 0 < self.capacity <= MAX_SEGMENT_CAPACITY
        &&& self.records.len() <= self.capacity
    }

    /// Every record has a context of the fixed size and a payload within
    /// the budget, as every record in memory has.
    pub open spec fn records_wf(self) -> bool {
        forall|i: int| 0 <= i < self.records.len() ==> (#[trigger] self.records[i]).wf()
    }

    /// Whether the segment has no room left.
    pub open spec fn is_full(self) -> bool {
        self.records.len() >= self.capacity
    }
}

/// The bytes of `records`, one record slot after the other.
pub open spec fn records_region(records: Seq<EnvelopeView>) -> Seq<u8> {
    Seq::new(
        (592 * records.len()) as nat,
        |k: int| record_bytes(records[k / 592])[k % 592],
    )
}

/// The header of a segment with the given capacity and write cursor.
pub open spec fn header_bytes(capacity: nat, cursor: nat) -> Seq<u8> {
    be32(FORMAT_VERSION) + be32(capacity as u32) + be32(cursor as u32)
}

/// The bytes of a segment file: the header, the records written, and zero
/// bytes in the slots not yet written.
pub open spec fn segment_bytes(v: SegmentView) -> Seq<u8> {
    header_bytes(v.capacity, v.records.len()) + records_region(v.records) + zeros(
        592 * (v.capacity - v.records.len()),
    )
}

/// The bytes of record slot `i` of a segment file.
pub open spec fn record_at(bytes: Seq<u8>, i: int) -> Seq<u8> {
    bytes.subrange(12 + 592 * i, 12 + 592 * (i + 1))
}

/// What a segment file holds, or why it is no segment file. Bytes behind
/// the write cursor are not looked at.
pub open spec fn parse_segment(bytes: Seq<u8>) -> Result<SegmentView, StoreError> {
    if bytes.len() < HEADER_SIZE {
        Err(StoreError::Truncated)
    } else if be32_value(bytes.subrange(0, 4)) != FORMAT_VERSION {
        Err(StoreError::BadVersion)
    } else {
        let capacity = be32_value(bytes.subrange(4, 8));
        let cursor = be32_value(bytes.subrange(8, 12));
        if capacity <= 0 || capacity > MAX_SEGMENT_CAPACITY || bytes.len() != 12 + 592
            * capacity {
            Err(StoreError::BadSize)
        } else if cursor > capacity {
            Err(StoreError::BadCursor)
        } else if exists|i: int| 0 <= i < cursor && !valid_record(#[trigger] record_at(bytes, i)) {
            Err(StoreError::BadRecord)
        } else {
            Ok(
                SegmentView {
                    capacity: capacity as nat,
                    records: Seq::new(
                        cursor as nat,
                        |i: int| parse_record(record_at(bytes, i))->Some_0,
                    ),
                },
            )
        }
    }
}

/// Whether the header of `bytes` passes every check and states the given
/// capacity and write cursor.
pub open spec fn header_accepted(bytes: Seq<u8>, capacity: int, cursor: int) -> bool {
    &&& bytes.len() >= HEADER_SIZE
    &&& be32_value(bytes.subrange(0, 4)) == FORMAT_VERSION
    &&& be32_value(bytes.subrange(4, 8)) == capacity
    &&& be32_value(bytes.subrange(8, 12)) == cursor
    &&& 0 < capacity <= MAX_SEGMENT_CAPACITY
    &&& bytes.len() == 12 + 592 * capacity
    &&& cursor <= capacity
}

/// A record written behind others occupies the next slot.
pub proof fn lemma_region_push(records: Seq<EnvelopeView>, r: EnvelopeView)
    requires
        r.wf(),
    ensures
        records_region(records.push(r)) == records_region(records) + record_bytes(r),
        records_region(records).len() == 592 * records.len(),
{
    lemma_record_layout(r);
    let whole = records_region(records.push(r));
    let parts = records_region(records) + record_bytes(r);
    assert(whole.len() == parts.len());
    assert forall|k: int| 0 <= k < whole.len() implies whole[k] == parts[k] by {
        if k < 592 * records.len() {
            assert(k / 592 < records.len());
        } else {
            assert(k / 592 == records.len());
            assert(k % 592 == k - 592 * records.len());
        }
    }
    assert(whole =~= parts);
}

/// Where the header and each record stand in the bytes of a segment.
pub proof fn lemma_segment_layout(v: SegmentView)
    requires
        v.wf(),
        v.records_wf(),
    ensures
        segment_bytes(v).len() == 12 + 592 * v.capacity,
        segment_bytes(v).subrange(0, 4) == be32(FORMAT_VERSION),
        segment_bytes(v).subrange(4, 8) == be32(v.capacity as u32),
        segment_bytes(v).subrange(8, 12) == be32(v.records.len() as u32),
        forall|i: int|
            0 <= i < v.records.len() ==> #[trigger] record_at(segment_bytes(v), i) == record_bytes(
                v.records[i],
            ),
{
    let b = segment_bytes(v);
    lemma_be32_roundtrip(FORMAT_VERSION, Seq::empty());
    lemma_be32_roundtrip(v.capacity as u32, Seq::empty());
    lemma_be32_roundtrip(v.records.len() as u32, Seq::empty());
    assert(b.subrange(0, 4) =~= be32(FORMAT_VERSION));
    assert(b.subrange(4, 8) =~= be32(v.capacity as u32));
    assert(b.subrange(8, 12) =~= be32(v.records.len() as u32));
    assert forall|i: int| 0 <= i < v.records.len() implies #[trigger] record_at(b, i)
        == record_bytes(v.records[i]) by {
        let r = v.records[i];
        lemma_record_layout(r);
        let slot = record_at(b, i);
        assert(slot.len() == 592);
        assert forall|k: int| 0 <= k < 592 implies slot[k] == record_bytes(r)[k] by {
            let at = 592 * i + k;
            assert(slot[k] == b[12 + at]);
            assert(b[12 + at] == records_region(v.records)[at]);
            assert(at / 592 == i);
            assert(at % 592 == k);
        }
        assert(slot =~= record_bytes(r));
    }
}

/// Reading a segment file back gives the segment that was written: what a
/// segment holds is a function of its bytes alone.
pub proof fn lemma_parse_of_segment_bytes(v: SegmentView)
    requires
        v.wf(),
        v.records_wf(),
    ensures
        parse_segment(segment_bytes(v)) == Ok::<SegmentView, StoreError>(v),
{
    let b = segment_bytes(v);
    lemma_segment_layout(v);
    lemma_be32_roundtrip(FORMAT_VERSION, Seq::empty());
    lemma_be32_roundtrip(v.capacity as u32, Seq::empty());
    lemma_be32_roundtrip(v.records.len() as u32, Seq::empty());
    assert forall|i: int| 0 <= i < v.records.len() implies valid_record(
        #[trigger] record_at(b, i),
    ) && parse_record(record_at(b, i)) == Some(v.records[i]) by {
        lemma_parse_of_record_bytes(v.records[i]);
    }
    let parsed = parse_segment(b);
    assert(parsed is Ok);
    assert(parsed->Ok_0.records =~= v.records);
}

/// One segment of the store.
#[derive(Debug)]
pub struct Segment {
    capacity: u32,
    records: Vec<Envelope>,
}

impl View for Segment {
    type V = SegmentView;

    closed spec fn view(&self) -> SegmentView {
        SegmentView { capacity: self.capacity as nat, records: views(self.records@) }
    }
}

/// The byte offset of record slot `index` in a segment file.
pub fn record_offset(index: u32) -> (offset: u64)
    ensures
        offset == 12 + 592 * index,
{
    12 + 592 * (index as u64)
}

impl Segment {
    /// An empty segment with room for `capacity` records; nothing if the
    /// capacity is zero or beyond the maximum.
    pub fn new(capacity: u32) -> (r: Option<Segment>)
        ensures
            r is Some <==> 0 < capacity <= MAX_SEGMENT_CAPACITY,
            r matches Some(s) ==> s@ == (SegmentView {
                capacity: capacity as nat,
                records: Seq::empty(),
            }) && s@.wf(),
    {
        if capacity == 0 || capacity > MAX_SEGMENT_CAPACITY {
            return None;
        }
        let s = Segment { capacity, records: Vec::new() };
        assert(s@.records =~= Seq::<EnvelopeView>::empty());
        Some(s)
    }

    /// How many records the segment has room for.
    pub fn capacity(&self) -> (n: u32)
        requires
            self@.wf(),
        ensures
            n == self@.capacity,
    {
        self.capacity
    }

    /// The write cursor: how many records are written.
    pub fn len(&self) -> (n: u32)
        requires
            self@.wf(),
        ensures
            n == self@.records.len(),
    {
        self.records.len() as u32
    }

    /// Whether the segment has no room left.
    pub fn is_full(&self) -> (r: bool)
        requires
            self@.wf(),
        ensures
            r == self@.is_full(),
    {
        self.records.len() >= self.capacity as usize
    }

    /// Writes `envelope` at the write cursor and advances the cursor.
    /// Returns whether it did: a full segment is left as it is.
    pub fn append(&mut self, envelope: Envelope) -> (written: bool)
        requires
            old(self)@.wf(),
        ensures
            written == !old(self)@.is_full(),
            written ==> final(self)@ == (SegmentView {
                records: old(self)@.records.push(envelope@),
                ..old(self)@
            }),
            !written ==> final(self)@ == old(self)@,
            final(self)@.wf(),
    {
        if self.records.len() >= self.capacity as usize {
            return false;
        }
        self.records.push(envelope);
        assert(self@.records =~= old(self)@.records.push(envelope@));
        true
    }

    /// The record in slot `index`, if one is written there.
    pub fn record(&self, index: u32) -> (r: Option<Envelope>)
        ensures
            r is Some <==> index < self@.records.len(),
            r matches Some(e) ==> e@ == self@.records[index as int],
    {
        if (index as usize) < self.records.len() {
            Some(self.records[index as usize])
        } else {
            None
        }
    }

    /// Appends the records of this segment, in write order, to `out`.
    pub fn read_into(&self, out: &mut Vec<Envelope>)
        ensures
            views(final(out)@) == views(old(out)@) + self@.records,
    {
        let n: usize = self.records.len();
        let mut i: usize = 0;
        assert(self@.records.take(0) =~= Seq::<EnvelopeView>::empty());
        assert(views(out@) =~= views(old(out)@) + self@.records.take(0));
        while i < n
            invariant
                i <= n,
                n == self.records@.len(),
                views(out@) == views(old(out)@) + self@.records.take(i as int),
            decreases n - i,
        {
            let ghost before = out@;
            out.push(self.records[i]);
            assert(views(out@) =~= views(before).push(self.records@[i as int]@));
            assert(self@.records.take(i + 1) =~= self@.records.take(i as int).push(
                self.records@[i as int]@,
            ));
            i += 1;
        }
        assert(self@.records.take(n as int) =~= self@.records);
    }

    /// The 12 bytes of the header as it stands now.
    pub fn header(&self) -> (r: Vec<u8>)
        requires
            self@.wf(),
        ensures
            r@ == header_bytes(self@.capacity, self@.records.len()),
    {
        let mut out: Vec<u8> = Vec::new();
        push_be32(&mut out, FORMAT_VERSION);
        push_be32(&mut out, self.capacity);
        push_be32(&mut out, self.records.len() as u32);
        assert(out@ =~= header_bytes(self@.capacity, self@.records.len()));
        out
    }

    /// The bytes of the whole segment file.
    pub fn to_bytes(&self) -> (r: Vec<u8>)
        requires
            self@.wf(),
        ensures
            r@ == segment_bytes(self@),
            parse_segment(r@) == Ok::<SegmentView, StoreError>(self@),
    {
        let mut out = self.header();
        let ghost head = out@;
        let n: usize = self.records.len();
        let mut i: usize = 0;
        assert(records_region(self@.records.take(0)) =~= Seq::<u8>::empty());
        assert(out@ =~= head + records_region(self@.records.take(0)));
        while i < n
            invariant
                i <= n,
                n == self.records@.len(),
                out@ == head + records_region(self@.records.take(i as int)),
                forall|j: int| 0 <= j < i ==> (#[trigger] self@.records[j]).wf(),
            decreases n - i,
        {
            self.records[i].encode_into(&mut out);
            proof {
                let r = self.records@[i as int]@;
                lemma_region_push(self@.records.take(i as int), r);
                assert(self@.records.take(i + 1) =~= self@.records.take(i as int).push(r));
            }
            i += 1;
        }
        assert(self@.records.take(n as int) =~= self@.records);
        let ghost body = out@;
        let fill: usize = 592 * (self.capacity as usize - n);
        let mut k: usize = 0;
        assert(out@ =~= body + zeros(0));
        while k < fill
            invariant
                k <= fill,
                out@ == body + zeros(k as int),
            decreases fill - k,
        {
            out.push(0u8);
            assert(out@ =~= body + zeros(k + 1));
            k += 1;
        }
        proof {
            lemma_parse_of_segment_bytes(self@);
        }
        out
    }

    /// Reads a segment back from the bytes of its file.
    pub fn from_bytes(bytes: &[u8]) -> (r: Result<Segment, StoreError>)
        ensures
            match parse_segment(bytes@) {
                Ok(v) => r is Ok && r->Ok_0@ == v && v.wf() && v.records_wf(),
                Err(e) => r == Err::<Segment, StoreError>(e),
            },
    {
        let n: usize = bytes.len();
        if n < 12 {
            return Err(StoreError::Truncated);
        }
        proof {
            lemma_be32_roundtrip(0, bytes@.subrange(0, 4));
            lemma_be32_roundtrip(0, bytes@.subrange(4, 8));
            lemma_be32_roundtrip(0, bytes@.subrange(8, 12));
        }
        if read_be32(bytes, 0) != FORMAT_VERSION {
            return Err(StoreError::BadVersion);
        }
        let capacity: u32 = read_be32(bytes, 4);
        let cursor: u32 = read_be32(bytes, 8);
        if capacity == 0 || capacity > MAX_SEGMENT_CAPACITY {
            return Err(StoreError::BadSize);
        }
        if n as u64 != 12 + 592 * (capacity as u64) {
            return Err(StoreError::BadSize);
        }
        if cursor > capacity {
            return Err(StoreError::BadCursor);
        }
        let mut records: Vec<Envelope> = Vec::new();
        let mut i: u32 = 0;
        while i < cursor
            invariant
                i <= cursor <= capacity <= MAX_SEGMENT_CAPACITY,
                header_accepted(bytes@, capacity as int, cursor as int),
                n == bytes@.len(),
                records@.len() == i,
                forall|j: int|
                    0 <= j < i ==> {
                        &&& valid_record(#[trigger] record_at(bytes@, j))
                        &&& Some(records@[j]@) == parse_record(record_at(bytes@, j))
                        &&& records@[j]@.wf()
                    },
            decreases cursor - i,
        {
            let start: usize = 12 + 592 * (i as usize);
            let slot = slice_subrange(bytes, start, start + 592);
            assert(slot@ == record_at(bytes@, i as int));
            match Envelope::decode(slot) {
                None => {
                    assert(!valid_record(record_at(bytes@, i as int)));
                    return Err(StoreError::BadRecord);
                },
                Some(e) => {
                    proof {
                        lemma_record_bytes_of_parse(slot@);
                    }
                    let ghost before = records@;
                    records.push(e);
                    assert forall|j: int| 0 <= j < i + 1 implies {
                        &&& valid_record(#[trigger] record_at(bytes@, j))
                        &&& Some(records@[j]@) == parse_record(record_at(bytes@, j))
                        &&& records@[j]@.wf()
                    } by {
                        if j < i {
                            assert(records@[j] == before[j]);
                        }
                    }
                },
            }
            i += 1;
        }
        let s = Segment { capacity, records };
        proof {
            assert(parse_segment(bytes@) is Ok);
            let v = parse_segment(bytes@)->Ok_0;
            assert(s@.records =~= v.records);
        }
        Ok(s)
    }
}

/// The records of `segments`, read segment after segment in creation order
/// and record after record in write order.
pub open spec fn replay_spec(segments: Seq<SegmentView>) -> Seq<EnvelopeView>
    decreases segments.len(),
{
    if segments.len() == 0 {
        Seq::empty()
    } else {
        replay_spec(segments.drop_last()) + segments.last().records
    }
}

/// What each of `segments` holds, in order.
pub open spec fn segment_views(segments: Seq<Segment>) -> Seq<SegmentView> {
    segments.map_values(|s: Segment| s@)
}

/// The records that segment files hold, read file after file, or the reason
/// why the first file that is no segment is none.
pub open spec fn replay_files_spec(files: Seq<Seq<u8>>) -> Result<Seq<EnvelopeView>, StoreError>
    decreases files.len(),
{
    if files.len() == 0 {
        Ok(Seq::empty())
    } else {
        match replay_files_spec(files.drop_last()) {
            Err(e) => Err(e),
            Ok(front) => match parse_segment(files.last()) {
                Err(e) => Err(e),
                Ok(segment) => Ok(front + segment.records),
            },
        }
    }
}

/// The records of all of `segments`, in creation order of the segments and
/// write order within each.
pub fn replay(segments: &Vec<Segment>) -> (records: Vec<Envelope>)
    ensures
        views(records@) == replay_spec(segment_views(segments@)),
{
    let mut out: Vec<Envelope> = Vec::new();
    let n: usize = segments.len();
    let mut i: usize = 0;
    assert(segment_views(segments@).take(0) =~= Seq::<SegmentView>::empty());
    assert(views(out@) =~= Seq::<EnvelopeView>::empty());
    while i < n
        invariant
            i <= n,
            n == segments@.len(),
            views(out@) == replay_spec(segment_views(segments@).take(i as int)),
        decreases n - i,
    {
        segments[i].read_into(&mut out);
        proof {
            let all = segment_views(segments@);
            assert(all.take(i + 1).drop_last() =~= all.take(i as int));
            assert(all.take(i + 1).last() == segments@[i as int]@);
        }
        i += 1;
    }
    assert(segment_views(segments@).take(n as int) =~= segment_views(segments@));
    out
}

/// What each of `files` holds, in order.
pub open spec fn file_views(files: Seq<Vec<u8>>) -> Seq<Seq<u8>> {
    files.map_values(|f: Vec<u8>| f@)
}

/// The records that the given segment files hold, read file after file. If
/// a file is no segment, the reason for the first such file is returned.
pub fn replay_files(files: &Vec<Vec<u8>>) -> (r: Result<Vec<Envelope>, StoreError>)
    ensures
        match replay_files_spec(file_views(files@)) {
            Ok(records) => r is Ok && views(r->Ok_0@) == records,
            Err(e) => r == Err::<Vec<Envelope>, StoreError>(e),
        },
{
    let mut out: Vec<Envelope> = Vec::new();
    let n: usize = files.len();
    let mut i: usize = 0;
    assert(file_views(files@).take(0) =~= Seq::<Seq<u8>>::empty());
    assert(views(out@) =~= Seq::<EnvelopeView>::empty());
    while i < n
        invariant
            i <= n,
            n == files@.len(),
            replay_files_spec(file_views(files@).take(i as int)) == Ok::<
                Seq<EnvelopeView>,
                StoreError,
            >(views(out@)),
        decreases n - i,
    {
        proof {
            let all = file_views(files@);
            assert(all.take(i + 1).drop_last() =~= all.take(i as int));
            assert(all.take(i + 1).last() == files@[i as int]@);
        }
        match Segment::from_bytes(files[i].as_slice()) {
            Err(e) => {
                proof {
                    lemma_replay_files_prefix(file_views(files@), i + 1);
                }
                return Err(e);
            },
            Ok(segment) => {
                segment.read_into(&mut out);
            },
        }
        i += 1;
    }
    assert(file_views(files@).take(n as int) =~= file_views(files@));
    Ok(out)
}

/// A file that is no segment makes the replay of every longer list of files
/// fail in the same way.
pub proof fn lemma_replay_files_prefix(files: Seq<Seq<u8>>, n: int)
    requires
        0 <= n <= files.len(),
        replay_files_spec(files.take(n)) is Err,
    ensures
        replay_files_spec(files) == replay_files_spec(files.take(n)),
    decreases files.len() - n,
{
    if n < files.len() {
        assert(files.take(n + 1).drop_last() =~= files.take(n));
        lemma_replay_files_prefix(files, n + 1);
    } else {
        assert(files.take(n) =~= files);
    }
}

/// What a store holds.
pub struct StoreView {
    /// After how many appends the mapping is flushed.
    pub flush_every: nat,
    /// The sealed segments, in creation order.
    pub sealed: Seq<SegmentView>,
    /// The segment that is written to.
    pub active: SegmentView,
    /// Appends since the last flush.
    pub unflushed: nat,
    /// Failed writes, flushes and rotations reported by the caller, as far
    /// as a `u64` counts.
    pub io_errors: nat,
}

impl StoreView {
    /// The store is consistent: it flushes at least now and then, every
    /// segment is well-formed, and every sealed segment is full.
    pub open spec fn wf(self) -> bool {
        &&& self.flush_every > 0
        &&& self.unflushed < self.flush_every
        &&& self.active.wf()
        &&& forall|i: int|
            0 <= i < self.sealed.len() ==> (#[trigger] self.sealed[i]).wf()
                && self.sealed[i].is_full() && self.sealed[i].capacity == self.active.capacity
    }

    /// Every record appended so far, in the order of the appends: what a
    /// replay of all segments gives.
    pub open spec fn history(self) -> Seq<EnvelopeView> {
        replay_spec(self.sealed.push(self.active))
    }

    /// Whether the next append is the one after which the mapping is
    /// flushed.
    pub open spec fn flush_due(self) -> bool {
        self.unflushed + 1 >= self.flush_every
    }

    /// The store after `e` was appended: at the write cursor of the active
    /// segment, or, if that is full, as the first record of a new segment
    /// behind the sealed one.
    pub open spec fn after_append(self, e: EnvelopeView) -> StoreView {
        StoreView {
            sealed: if self.active.is_full() {
                self.sealed.push(self.active)
            } else {
                self.sealed
            },
            active: if self.active.is_full() {
                SegmentView { capacity: self.active.capacity, records: seq![e] }
            } else {
                SegmentView { records: self.active.records.push(e), ..self.active }
            },
            unflushed: if self.flush_due() {
                0
            } else {
                self.unflushed + 1
            },
            ..self
        }
    }

    /// Which segment the next append goes to, counted from zero in
    /// creation order.
    pub open spec fn next_segment(self) -> nat {
        if self.active.is_full() {
            self.sealed.len() + 1
        } else {
            self.sealed.len()
        }
    }

    /// The store after all of `records` were appended in order.
    pub open spec fn after_append_all(self, records: Seq<EnvelopeView>) -> StoreView
        decreases records.len(),
    {
        if records.len() == 0 {
            self
        } else {
            self.after_append_all(records.drop_last()).after_append(records.last())
        }
    }
}

/// An append adds its record at the end of what a replay gives, whether or
/// not it rotates.
pub proof fn lemma_append_extends_history(s: StoreView, e: EnvelopeView)
    requires
        s.wf(),
    ensures
        s.after_append(e).wf(),
        s.after_append(e).history() == s.history().push(e),
        s.after_append(e).sealed.len() == s.sealed.len() + if s.active.is_full() {
            1nat
        } else {
            0nat
        },
{
    let t = s.after_append(e);
    assert(s.sealed.push(s.active).drop_last() =~= s.sealed);
    assert(t.sealed.push(t.active).drop_last() =~= t.sealed);
    if s.active.is_full() {
        assert(t.sealed.drop_last() =~= s.sealed);
        assert(t.history() =~= s.history().push(e));
    } else {
        assert(t.history() =~= s.history().push(e));
    }
}

/// A replay after any number of appends and rotations reproduces exactly
/// the records appended, in the order of the appends.
///
/// Whatever the store held and however large its segments are, after
/// `records` were appended a replay gives what it gave before, followed by
/// `records`.
pub proof fn lemma_replay_reproduces_appends(s: StoreView, records: Seq<EnvelopeView>)
    requires
        s.wf(),
    ensures
        s.after_append_all(records).wf(),
        s.after_append_all(records).history() == s.history() + records,
    decreases records.len(),
{
    if records.len() == 0 {
        assert(s.history() + records =~= s.history());
    } else {
        lemma_replay_reproduces_appends(s, records.drop_last());
        lemma_append_extends_history(s.after_append_all(records.drop_last()), records.last());
        assert((s.history() + records.drop_last()).push(records.last()) =~= s.history()
            + records);
    }
}

/// The store with no record in it.
pub open spec fn empty_store(segment_capacity: nat, flush_every: nat) -> StoreView {
    StoreView {
        flush_every,
        sealed: Seq::empty(),
        active: SegmentView { capacity: segment_capacity, records: Seq::empty() },
        unflushed: 0,
        io_errors: 0,
    }
}

/// What a replay gives does not depend on where the segments end: two
/// stores with segments of different sizes and different flush cadences,
/// given the same appends, replay the same records.
pub proof fn lemma_replay_independent_of_rotation(
    capacity_a: nat,
    flush_a: nat,
    capacity_b: nat,
    flush_b: nat,
    records: Seq<EnvelopeView>,
)
    requires
        0 < capacity_a <= MAX_SEGMENT_CAPACITY,
        0 < capacity_b <= MAX_SEGMENT_CAPACITY,
        flush_a > 0,
        flush_b > 0,
    ensures
        empty_store(capacity_a, flush_a).after_append_all(records).history() == records,
        empty_store(capacity_b, flush_b).after_append_all(records).history() == records,
{
    let a = empty_store(capacity_a, flush_a);
    let b = empty_store(capacity_b, flush_b);
    lemma_replay_reproduces_appends(a, records);
    lemma_replay_reproduces_appends(b, records);
    assert(a.sealed.push(a.active).drop_last() =~= Seq::<SegmentView>::empty());
    assert(b.sealed.push(b.active).drop_last() =~= Seq::<SegmentView>::empty());
    assert(replay_spec(a.sealed.push(a.active).drop_last()) =~= Seq::<EnvelopeView>::empty());
    assert(replay_spec(b.sealed.push(b.active).drop_last()) =~= Seq::<EnvelopeView>::empty());
    assert(a.history() =~= Seq::<EnvelopeView>::empty());
    assert(b.history() =~= Seq::<EnvelopeView>::empty());
    assert(a.history() + records =~= records);
    assert(b.history() + records =~= records);
}

/// The bytes of the files of well-formed segments replay to the records of
/// the segments: nothing but the file contents is needed.
pub proof fn lemma_replay_files_of_segments(segments: Seq<SegmentView>)
    requires
        forall|i: int|
            0 <= i < segments.len() ==> (#[trigger] segments[i]).wf() && segments[i].records_wf(),
    ensures
        replay_files_spec(segments.map_values(|v: SegmentView| segment_bytes(v))) == Ok::<
            Seq<EnvelopeView>,
            StoreError,
        >(replay_spec(segments)),
    decreases segments.len(),
{
    let files = segments.map_values(|v: SegmentView| segment_bytes(v));
    if segments.len() > 0 {
        lemma_replay_files_of_segments(segments.drop_last());
        assert(files.drop_last() =~= segments.drop_last().map_values(
            |v: SegmentView| segment_bytes(v),
        ));
        lemma_parse_of_segment_bytes(segments.last());
        assert(files.last() == segment_bytes(segments.last()));
    }
}

/// What the caller has to do for one append.
#[derive(Clone, Copy, Debug, PartialEq, Eq, Structural)]
pub struct AppendPlan {
    /// Whether the active segment was full and has been sealed by this
    /// append: its file is to be flushed and released, and a new segment
    /// file opened, before the record is written.
    pub rotate: bool,
    /// Which segment the record goes to, counted from zero in creation
    /// order (stopping at the greatest `u64`).
    pub segment: u64,
    /// The slot of that segment that the record goes to.
    pub slot: u32,
    /// Whether the mapping is to be flushed to stable storage now.
    pub flush: bool,
}

/// The append-only store of consumed records: where the write cursor
/// stands, when to rotate and when to flush. The records themselves are in
/// the segment files.
pub struct PersistentStore {
    segment_capacity: u32,
    flush_every: u32,
    cursor: u32,
    sealed_count: u64,
    unflushed: u32,
    io_errors: u64,
    sealed: Ghost<Seq<SegmentView>>,
    active: Ghost<Seq<EnvelopeView>>,
}

impl View for PersistentStore {
    type V = StoreView;

    closed spec fn view(&self) -> StoreView {
        StoreView {
            flush_every: self.flush_every as nat,
            sealed: self.sealed@,
            active: SegmentView { capacity: self.segment_capacity as nat, records: self.active@ },
            unflushed: self.unflushed as nat,
            io_errors: self.io_errors as nat,
        }
    }
}

/// `count`, as a `u64` that stops at its greatest value counts it.
pub open spec fn counted(count: nat) -> nat {
    if count >= u64::MAX {
        u64::MAX as nat
    } else {
        count
    }
}

impl PersistentStore {
    /// The store is consistent, and its write cursor and segment count are
    /// those of the records it has taken in.
    pub closed spec fn wf(&self) -> bool {
        &&& self@.wf()
        &&& self.cursor == self.active@.len()
        &&& self.sealed_count == counted(self.sealed@.len())
    }

    /// A consistent store has a consistent view.
    pub proof fn lemma_view_wf(&self)
        requires
            self.wf(),
        ensures
            self@.wf(),
    {
    }

    /// An empty store whose segments hold `segment_capacity` records each
    /// and whose mapping is flushed after every `flush_every` appends.
    /// Nothing if the capacity is zero or beyond the maximum, or if
    /// `flush_every` is zero.
    pub fn new(segment_capacity: u32, flush_every: u32) -> (r: Option<PersistentStore>)
        ensures
            r is Some <==> 0 < segment_capacity <= MAX_SEGMENT_CAPACITY && flush_every > 0,
            r matches Some(s) ==> s@ == empty_store(segment_capacity as nat, flush_every as nat)
                && s.wf(),
    {
        if flush_every == 0 || segment_capacity == 0 || segment_capacity > MAX_SEGMENT_CAPACITY {
            return None;
        }
        Some(
            PersistentStore {
                segment_capacity,
                flush_every,
                cursor: 0,
                sealed_count: 0,
                unflushed: 0,
                io_errors: 0,
                sealed: Ghost(Seq::empty()),
                active: Ghost(Seq::empty()),
            },
        )
    }

    /// How many records each segment holds.
    pub fn segment_capacity(&self) -> (n: u32)
        ensures
            n == self@.active.capacity,
    {
        self.segment_capacity
    }

    /// The write cursor: how many records the active segment holds.
    pub fn cursor(&self) -> (n: u32)
        requires
            self.wf(),
        ensures
            n == self@.active.records.len(),
    {
        self.cursor
    }

    /// How many segments have been sealed. The count stops at the greatest
    /// `u64`.
    pub fn sealed_segments(&self) -> (n: u64)
        requires
            self.wf(),
        ensures
            n == counted(self@.sealed.len()),
    {
        self.sealed_count
    }

    /// Appends since the last flush.
    pub fn unflushed(&self) -> (n: u32)
        ensures
            n == self@.unflushed,
    {
        self.unflushed
    }

    /// Failures that the caller reported. The count stops at the greatest
    /// `u64`.
    pub fn io_errors(&self) -> (n: u64)
        ensures
            n == self@.io_errors,
    {
        self.io_errors
    }

    /// Appends `envelope`. If the active segment is full it is sealed, and
    /// the record opens a new segment; records are neither lost nor
    /// reordered by that. Every `flush_every`-th append asks for a flush.
    pub fn append(&mut self, envelope: &Envelope) -> (plan: AppendPlan)
        requires
            old(self).wf(),
        ensures
            final(self).wf(),
            final(self)@ == old(self)@.after_append(envelope@),
            final(self)@.history() == old(self)@.history().push(envelope@),
            plan == plan_of_append(old(self)@),
    {
        let rotate = self.cursor >= self.segment_capacity;
        if rotate {
            proof {
                self.sealed@ = self.sealed@.push(
                    SegmentView { capacity: self.segment_capacity as nat, records: self.active@ },
                );
                self.active@ = Seq::empty();
            }
            self.cursor = 0;
            self.sealed_count = self.sealed_count.saturating_add(1);
        }
        let slot: u32 = self.cursor;
        self.cursor = self.cursor + 1;
        proof {
            self.active@ = self.active@.push(envelope@);
        }
        let flush = self.unflushed + 1 >= self.flush_every;
        self.unflushed = if flush {
            0
        } else {
            self.unflushed + 1
        };
        proof {
            assert(self@.active.records =~= old(self)@.after_append(envelope@).active.records);
            lemma_append_extends_history(old(self)@, envelope@);
        }
        AppendPlan { rotate, segment: self.sealed_count, slot, flush }
    }

    /// Marks everything appended as flushed, for a flush that the caller
    /// makes on its own account, as at shutdown. Returns whether anything
    /// was waiting for a flush.
    pub fn flush_now(&mut self) -> (needed: bool)
        requires
            old(self).wf(),
        ensures
            final(self).wf(),
            needed == (old(self)@.unflushed > 0),
            final(self)@ == (StoreView { unflushed: 0, ..old(self)@ }),
    {
        let needed = self.unflushed > 0;
        self.unflushed = 0;
        needed
    }

    /// Counts a write, flush or rotation that failed on the caller's side.
    /// The store goes on as if it had succeeded.
    pub fn note_io_error(&mut self)
        requires
            old(self).wf(),
        ensures
            final(self).wf(),
            final(self)@ == (StoreView {
                io_errors: crate::queue::counted_up(old(self)@.io_errors),
                ..old(self)@
            }),
    {
        self.io_errors = self.io_errors.saturating_add(1);
    }
}

/// What an append to the store `s` asks of the caller.
pub open spec fn plan_of_append(s: StoreView) -> AppendPlan {
    AppendPlan {
        rotate: s.active.is_full(),
        segment: counted(s.next_segment()) as u64,
        slot: if s.active.is_full() {
            0
        } else {
            s.active.records.len() as u32
        },
        flush: s.flush_due(),
    }
}

} // verus!
