//! The segment file as a mapped region of bytes, written in place.
//!
//! `format` writes the header of a fresh segment; `append` writes a record at
//! the write cursor and advances the cursor in the header. Both touch no
//! other byte, so what was written before is never lost or moved, and both
//! look at the header alone, never at the records, so their cost does not
//! grow with the segment.

use crate::bytes::{be32, be32_value, lemma_be32_roundtrip, read_be32};
use crate::envelope::{
    lemma_parse_of_record_bytes, lemma_record_layout, parse_record, record_bytes, valid_record,
    Envelope, EnvelopeView,
};
use crate::store::{
    header_accepted, parse_segment, record_at, records_region, segment_bytes, SegmentView,
    StoreError, FORMAT_VERSION, MAX_SEGMENT_CAPACITY,
};
use vstd::prelude::*;

verus! {

/// `bytes` with those from `at` on replaced by `patch`, as far as `patch`
/// reaches.
pub open spec fn overwritten(bytes: Seq<u8>, at: int, patch: Seq<u8>) -> Seq<u8> {
    Seq::new(
        bytes.len(),
        |i: int|
            if at <= i < at + patch.len() {
                patch[i - at]
            } else {
                bytes[i]
            },
    )
}

/// The capacity that the header of a region states.
pub open spec fn stated_capacity(bytes: Seq<u8>) -> int {
    be32_value(bytes.subrange(4, 8))
}

/// The write cursor that the header of a region states.
pub open spec fn stated_cursor(bytes: Seq<u8>) -> int {
    be32_value(bytes.subrange(8, 12))
}

/// Whether the header of a region passes every check of a segment header.
pub open spec fn header_ok(bytes: Seq<u8>) -> bool {
    header_accepted(bytes, stated_capacity(bytes), stated_cursor(bytes))
}

/// Whether a region has a good header and room for another record.
pub open spec fn has_room(bytes: Seq<u8>) -> bool {
    header_ok(bytes) && stated_cursor(bytes) < stated_capacity(bytes)
}

/// A region after its header was written for a fresh segment of the given
/// capacity.
pub open spec fn formatted(bytes: Seq<u8>, capacity: u32) -> Seq<u8> {
    overwritten(bytes, 0, be32(FORMAT_VERSION) + be32(capacity) + be32(0))
}

/// A region after `e` was written at its write cursor and the cursor
/// advanced.
pub open spec fn appended(bytes: Seq<u8>, e: EnvelopeView) -> Seq<u8> {
    let cursor = stated_cursor(bytes);
    overwritten(
        overwritten(bytes, 12 + 592 * cursor, record_bytes(e)),
        8,
        be32((cursor + 1) as u32),
    )
}

fn write_at(region: &mut [u8], at: usize, patch: &[u8])
    requires
        at + patch@.len() <= old(region)@.len(),
    ensures
        final(region)@ == overwritten(old(region)@, at as int, patch@),
{
    let n: usize = patch.len();
    let total: usize = region.len();
    let mut k: usize = 0;
    assert(region@ =~= overwritten(old(region)@, at as int, patch@.take(0)));
    while k < n
        invariant
            k <= n,
            n == patch@.len(),
            at + n <= total,
            total == region@.len(),
            region@.len() == old(region)@.len(),
            region@ == overwritten(old(region)@, at as int, patch@.take(k as int)),
        decreases n - k,
    {
        region[at + k] = patch[k];
        assert(region@ =~= overwritten(old(region)@, at as int, patch@.take(k + 1)));
        k += 1;
    }
    assert(patch@.take(n as int) =~= patch@);
}

/// Writes the header of a fresh segment of `capacity` records into a region
/// of exactly the size of such a segment. Returns whether it did: a
/// capacity of zero or beyond the maximum, or a region of another size, is
/// left alone. Bytes behind the header are not touched; with the cursor at
/// zero they are not part of the segment.
pub fn format(region: &mut [u8], capacity: u32) -> (done: bool)
    ensures
        done == (0 < capacity <= MAX_SEGMENT_CAPACITY && old(region)@.len() == 12 + 592
            * capacity),
        done ==> final(region)@ == formatted(old(region)@, capacity),
        done ==> parse_segment(final(region)@) == Ok::<SegmentView, StoreError>(
            SegmentView { capacity: capacity as nat, records: Seq::empty() },
        ),
        !done ==> final(region)@ == old(region)@,
{
    if capacity == 0 || capacity > MAX_SEGMENT_CAPACITY {
        return false;
    }
    if region.len() as u64 != 12 + 592 * (capacity as u64) {
        return false;
    }
    let mut header: Vec<u8> = Vec::new();
    crate::bytes::push_be32(&mut header, FORMAT_VERSION);
    crate::bytes::push_be32(&mut header, capacity);
    crate::bytes::push_be32(&mut header, 0);
    proof {
        lemma_be32_roundtrip(FORMAT_VERSION, Seq::empty());
        lemma_be32_roundtrip(capacity, Seq::empty());
        lemma_be32_roundtrip(0, Seq::empty());
    }
    write_at(region, 0, header.as_slice());
    proof {
        lemma_formatted_parses(old(region)@, capacity);
    }
    true
}

/// A freshly formatted region is an empty segment.
pub proof fn lemma_formatted_parses(bytes: Seq<u8>, capacity: u32)
    requires
        0 < capacity <= MAX_SEGMENT_CAPACITY,
        bytes.len() == 12 + 592 * capacity,
    ensures
        parse_segment(formatted(bytes, capacity)) == Ok::<SegmentView, StoreError>(
            SegmentView { capacity: capacity as nat, records: Seq::empty() },
        ),
        header_ok(formatted(bytes, capacity)),
        stated_capacity(formatted(bytes, capacity)) == capacity,
        stated_cursor(formatted(bytes, capacity)) == 0,
{
    let f = formatted(bytes, capacity);
    lemma_be32_roundtrip(FORMAT_VERSION, Seq::empty());
    lemma_be32_roundtrip(capacity, Seq::empty());
    lemma_be32_roundtrip(0, Seq::empty());
    assert(f.subrange(0, 4) =~= be32(FORMAT_VERSION));
    assert(f.subrange(4, 8) =~= be32(capacity));
    assert(f.subrange(8, 12) =~= be32(0));
    assert(parse_segment(f)->Ok_0.records =~= Seq::<EnvelopeView>::empty());
}

/// Writes `envelope` at the write cursor of a region and advances the
/// cursor. Returns the slot written, or nothing, with the region left
/// alone, if the header is not that of a segment of this size or the
/// segment is full.
pub fn append(region: &mut [u8], envelope: &Envelope) -> (slot: Option<u32>)
    ensures
        has_room(old(region)@) <==> slot is Some,
        slot matches Some(s) ==> s == stated_cursor(old(region)@) && final(region)@ == appended(
            old(region)@,
            envelope@,
        ),
        slot is None ==> final(region)@ == old(region)@,
        slot is Some ==> (parse_segment(old(region)@) matches Ok(v) ==> parse_segment(
            final(region)@,
        ) == Ok::<SegmentView, StoreError>(
            SegmentView { records: v.records.push(envelope@), ..v },
        )),
{
    let n: usize = region.len();
    if n < 12 {
        return None;
    }
    proof {
        lemma_be32_roundtrip(0, region@.subrange(0, 4));
        lemma_be32_roundtrip(0, region@.subrange(4, 8));
        lemma_be32_roundtrip(0, region@.subrange(8, 12));
    }
    if read_be32(region, 0) != FORMAT_VERSION {
        return None;
    }
    let capacity: u32 = read_be32(region, 4);
    let cursor: u32 = read_be32(region, 8);
    if capacity == 0 || capacity > MAX_SEGMENT_CAPACITY {
        return None;
    }
    if n as u64 != 12 + 592 * (capacity as u64) {
        return None;
    }
    if cursor >= capacity {
        return None;
    }
    let record = envelope.encode();
    let mut count: Vec<u8> = Vec::new();
    crate::bytes::push_be32(&mut count, cursor + 1);
    proof {
        lemma_be32_roundtrip((cursor + 1) as u32, Seq::empty());
    }
    write_at(region, 12 + 592 * (cursor as usize), record.as_slice());
    write_at(region, 8, count.as_slice());
    proof {
        lemma_appended_parses(old(region)@, envelope@);
    }
    Some(cursor)
}

/// An append into a region adds its record to what the region holds and
/// changes nothing else: records written before stay where and what they
/// were.
pub proof fn lemma_appended_parses(bytes: Seq<u8>, e: EnvelopeView)
    requires
        has_room(bytes),
        e.wf(),
    ensures
        header_ok(appended(bytes, e)),
        stated_capacity(appended(bytes, e)) == stated_capacity(bytes),
        stated_cursor(appended(bytes, e)) == stated_cursor(bytes) + 1,
        record_at(appended(bytes, e), stated_cursor(bytes)) == record_bytes(e),
        forall|i: int|
            0 <= i < stated_capacity(bytes) && i != stated_cursor(bytes) ==> #[trigger] record_at(
                appended(bytes, e),
                i,
            ) == record_at(bytes, i),
        parse_segment(bytes) matches Ok(v) ==> parse_segment(appended(bytes, e)) == Ok::<
            SegmentView,
            StoreError,
        >(SegmentView { records: v.records.push(e), ..v }),
{
    let capacity = stated_capacity(bytes);
    let cursor = stated_cursor(bytes);
    let a = appended(bytes, e);
    lemma_record_layout(e);
    lemma_be32_roundtrip((cursor + 1) as u32, Seq::empty());
    assert(a.subrange(0, 4) =~= bytes.subrange(0, 4));
    assert(a.subrange(4, 8) =~= bytes.subrange(4, 8));
    assert(a.subrange(8, 12) =~= be32((cursor + 1) as u32));
    assert(record_at(a, cursor) =~= record_bytes(e));
    assert forall|i: int| 0 <= i < capacity && i != cursor implies #[trigger] record_at(a, i)
        == record_at(bytes, i) by {
        assert(record_at(a, i) =~= record_at(bytes, i));
    }
    if let Ok(v) = parse_segment(bytes) {
        lemma_parse_of_record_bytes(e);
        assert forall|i: int| 0 <= i < cursor + 1 implies valid_record(
            #[trigger] record_at(a, i),
        ) by {
            if i < cursor {
                assert(record_at(a, i) == record_at(bytes, i));
                assert(valid_record(record_at(bytes, i)));
            }
        }
        let w = parse_segment(a);
        assert(w is Ok);
        assert(w->Ok_0.records =~= v.records.push(e)) by {
            assert forall|i: int| 0 <= i < cursor + 1 implies w->Ok_0.records[i]
                == v.records.push(e)[i] by {
                if i < cursor {
                    assert(record_at(a, i) == record_at(bytes, i));
                }
            }
        }
    }
}

/// What `append` writes into the file image of a segment is the file image
/// of that segment with the record appended: the region on disk and the
/// segment in memory stay in step.
pub proof fn lemma_appended_follows_segment(v: SegmentView, e: EnvelopeView)
    requires
        v.wf(),
        v.records_wf(),
        !v.is_full(),
        e.wf(),
    ensures
        has_room(segment_bytes(v)),
        appended(segment_bytes(v), e) == segment_bytes(
            SegmentView { records: v.records.push(e), ..v },
        ),
{
    let w = SegmentView { records: v.records.push(e), ..v };
    let before = segment_bytes(v);
    let after = segment_bytes(w);
    let n = v.records.len() as int;
    crate::store::lemma_segment_layout(v);
    lemma_be32_roundtrip(FORMAT_VERSION, Seq::empty());
    lemma_be32_roundtrip(v.capacity as u32, Seq::empty());
    lemma_be32_roundtrip(n as u32, Seq::empty());
    lemma_be32_roundtrip((n + 1) as u32, Seq::empty());
    lemma_record_layout(e);
    crate::store::lemma_region_push(v.records, e);
    assert(stated_cursor(before) == n);
    assert(stated_capacity(before) == v.capacity);
    let a = appended(before, e);
    assert(a.len() == after.len());
    assert forall|i: int| 0 <= i < a.len() implies a[i] == after[i] by {
        if i < 8 {
        } else if i < 12 {
        } else if i < 12 + 592 * n {
            let k = i - 12;
            assert(after[i] == records_region(w.records)[k]);
            assert(before[i] == records_region(v.records)[k]);
            assert(k / 592 < n);
            assert(w.records[k / 592] == v.records[k / 592]);
        } else if i < 12 + 592 * (n + 1) {
            let k = i - 12;
            assert(after[i] == records_region(w.records)[k]);
            assert(k / 592 == n);
            assert(k % 592 == i - 12 - 592 * n);
        } else {
        }
    }
    assert(a =~= after);
}

/// A file of zero bytes, once formatted, is the file image of the empty
/// segment.
pub proof fn lemma_formatted_zeros_is_empty_segment(capacity: u32)
    requires
        0 < capacity <= MAX_SEGMENT_CAPACITY,
    ensures
        formatted(crate::envelope::zeros(12 + 592 * capacity), capacity) == segment_bytes(
            SegmentView { capacity: capacity as nat, records: Seq::empty() },
        ),
{
    let v = SegmentView { capacity: capacity as nat, records: Seq::empty() };
    let f = formatted(crate::envelope::zeros(12 + 592 * capacity), capacity);
    lemma_be32_roundtrip(FORMAT_VERSION, Seq::empty());
    lemma_be32_roundtrip(capacity, Seq::empty());
    lemma_be32_roundtrip(0, Seq::empty());
    assert(records_region(v.records).len() == 0);
    assert(f.len() == segment_bytes(v).len());
    assert(f =~= segment_bytes(v));
}

/// A caller that writes as the plans of the store say keeps the file of the
/// active segment in step with the store.
///
/// Let the region be the file image of the active segment, or, where the
/// plan says to rotate, a fresh file of zero bytes that was formatted.
/// Then `append` writes into the slot that the plan names, and afterwards
/// the region is the file image of the active segment of the store after
/// the append.
pub proof fn lemma_region_in_step_with_store(s: crate::store::StoreView, e: EnvelopeView)
    requires
        s.wf(),
        s.active.records_wf(),
        e.wf(),
    ensures
        ({
            let plan = crate::store::plan_of_append(s);
            let region = if plan.rotate {
                formatted(
                    crate::envelope::zeros(12 + 592 * (s.active.capacity as int)),
                    s.active.capacity as u32,
                )
            } else {
                segment_bytes(s.active)
            };
            &&& has_room(region)
            &&& stated_cursor(region) == plan.slot
            &&& appended(region, e) == segment_bytes(s.after_append(e).active)
        }),
{
    let plan = crate::store::plan_of_append(s);
    if plan.rotate {
        let fresh = SegmentView { capacity: s.active.capacity, records: Seq::empty() };
        lemma_formatted_zeros_is_empty_segment(s.active.capacity as u32);
        lemma_appended_follows_segment(fresh, e);
        crate::store::lemma_segment_layout(fresh);
        lemma_be32_roundtrip(0, Seq::empty());
        assert(fresh.records.push(e) =~= seq![e]);
    } else {
        lemma_appended_follows_segment(s.active, e);
        crate::store::lemma_segment_layout(s.active);
        lemma_be32_roundtrip(s.active.records.len() as u32, Seq::empty());
    }
}

} // verus!
