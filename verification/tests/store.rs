use ert::store::record_offset as offset_of;
use ert::{
    region, replay, replay_files, Envelope, Payload, PersistentStore, Segment, Severity,
    StoreError, FORMAT_VERSION, HEADER_SIZE, MAX_SEGMENT_CAPACITY, RECORD_SIZE,
};

fn record(n: u32) -> Envelope {
    let mut e = Envelope::default();
    e.timestamp = 1_000 + n as u64;
    e.severity = Severity::Info;
    e.producer_id = (n % 3) as u16;
    e.sequence = n as u16;
    e.payload = Payload::free_form(format!("record {}", n).as_bytes());
    e
}

/// Appends `count` records and writes them into segment files as the plans
/// say. Returns the files, and the flush and slot of every plan.
fn append_all(store: &mut PersistentStore, count: u32) -> (Vec<Vec<u8>>, Vec<bool>, Vec<u32>) {
    let size = HEADER_SIZE + store.segment_capacity() as usize * RECORD_SIZE;
    let mut files = vec![vec![0u8; size]];
    assert!(region::format(&mut files[0], store.segment_capacity()));
    let mut flushes = Vec::new();
    let mut slots = Vec::new();
    for n in 0..count {
        let plan = store.append(&record(n));
        if plan.rotate {
            files.push(vec![0u8; size]);
            let last = files.len() - 1;
            assert!(region::format(&mut files[last], store.segment_capacity()));
        }
        assert_eq!(plan.segment as usize, files.len() - 1);
        let last = files.len() - 1;
        assert_eq!(region::append(&mut files[last], &record(n)), Some(plan.slot));
        flushes.push(plan.flush);
        slots.push(plan.slot);
    }
    (files, flushes, slots)
}

#[test]
fn replay_reproduces_appends_across_rotations() {
    let mut store = PersistentStore::new(4, 3).unwrap();
    let (files, _, slots) = append_all(&mut store, 10);
    assert_eq!(files.len(), 3);
    assert_eq!(store.sealed_segments(), 2);
    assert_eq!(store.cursor(), 2);
    assert_eq!(slots, vec![0, 1, 2, 3, 0, 1, 2, 3, 0, 1]);
    let expected: Vec<Envelope> = (0..10).map(record).collect();
    assert_eq!(replay_files(&files).unwrap(), expected);
    let segments: Vec<Segment> = files.iter().map(|f| Segment::from_bytes(f).unwrap()).collect();
    assert_eq!(replay(&segments), expected);
}

#[test]
fn replay_does_not_depend_on_segment_size() {
    let expected: Vec<Envelope> = (0..25).map(record).collect();
    for capacity in [1u32, 2, 5, 24, 25, 26, 1000] {
        let mut store = PersistentStore::new(capacity, 1).unwrap();
        let (files, _, _) = append_all(&mut store, 25);
        assert_eq!(files.len() as u32, 1 + (25 - 1) / capacity);
        assert_eq!(replay_files(&files).unwrap(), expected);
    }
}

#[test]
fn plan_names_segment_and_slot() {
    let mut store = PersistentStore::new(2, 10).unwrap();
    let plans: Vec<(bool, u64, u32)> = (0..5)
        .map(|n| {
            let p = store.append(&record(n));
            (p.rotate, p.segment, p.slot)
        })
        .collect();
    assert_eq!(
        plans,
        vec![(false, 0, 0), (false, 0, 1), (true, 1, 0), (false, 1, 1), (true, 2, 0)]
    );
}

#[test]
fn flush_is_asked_for_periodically() {
    let mut store = PersistentStore::new(100, 4).unwrap();
    let (_, flushes, _) = append_all(&mut store, 9);
    assert_eq!(
        flushes,
        vec![false, false, false, true, false, false, false, true, false]
    );
    assert_eq!(store.unflushed(), 1);
    assert!(store.flush_now());
    assert_eq!(store.unflushed(), 0);
    assert!(!store.flush_now());
}

#[test]
fn flush_on_every_append() {
    let mut store = PersistentStore::new(2, 1).unwrap();
    let (_, flushes, _) = append_all(&mut store, 5);
    assert_eq!(flushes, vec![true; 5]);
}

#[test]
fn store_refuses_bad_configuration() {
    assert!(PersistentStore::new(0, 1).is_none());
    assert!(PersistentStore::new(1, 0).is_none());
    assert!(PersistentStore::new(MAX_SEGMENT_CAPACITY + 1, 1).is_none());
    assert!(PersistentStore::new(MAX_SEGMENT_CAPACITY, 1).is_some());
    assert!(Segment::new(0).is_none());
    assert!(Segment::new(MAX_SEGMENT_CAPACITY + 1).is_none());
}

#[test]
fn io_failures_are_counted_and_do_not_stop_the_store() {
    let mut store = PersistentStore::new(2, 1).unwrap();
    store.note_io_error();
    store.note_io_error();
    assert_eq!(store.io_errors(), 2);
    let plan = store.append(&record(0));
    assert_eq!(plan.slot, 0);
    assert_eq!(store.cursor(), 1);
}

#[test]
fn segment_file_layout_is_byte_exact() {
    let mut s = Segment::new(3).unwrap();
    assert!(s.append(record(0)));
    assert!(s.append(record(1)));
    let bytes = s.to_bytes();
    assert_eq!(bytes.len(), 12 + 3 * 592);
    assert_eq!(&bytes[0..4], &[0, 0, 0, FORMAT_VERSION as u8]);
    assert_eq!(&bytes[4..8], &[0, 0, 0, 3]);
    assert_eq!(&bytes[8..12], &[0, 0, 0, 2]);
    assert_eq!(&bytes[12..604], &record(0).encode()[..]);
    assert_eq!(&bytes[604..1196], &record(1).encode()[..]);
    assert!(bytes[1196..].iter().all(|b| *b == 0));
    assert_eq!(s.header(), bytes[0..12].to_vec());
    assert_eq!(offset_of(0), 12);
    assert_eq!(offset_of(2), 1196);
    assert_eq!(offset_of(u32::MAX), 12 + 592 * (u32::MAX as u64));
}

#[test]
fn segment_round_trips_through_its_bytes() {
    let mut s = Segment::new(4).unwrap();
    for n in 0..3 {
        assert!(s.append(record(n)));
    }
    let back = Segment::from_bytes(&s.to_bytes()).unwrap();
    assert_eq!(back.capacity(), 4);
    assert_eq!(back.len(), 3);
    assert!(!back.is_full());
    for n in 0..3 {
        assert_eq!(back.record(n), Some(record(n)));
    }
    assert_eq!(back.record(3), None);
    assert_eq!(back.to_bytes(), s.to_bytes());
}

#[test]
fn full_segment_refuses_another_record() {
    let mut s = Segment::new(1).unwrap();
    assert!(s.append(record(0)));
    assert!(s.is_full());
    assert!(!s.append(record(1)));
    assert_eq!(s.len(), 1);
    assert_eq!(s.record(0), Some(record(0)));
}

#[test]
fn bytes_behind_the_cursor_are_not_read() {
    let mut s = Segment::new(2).unwrap();
    s.append(record(5));
    let mut bytes = s.to_bytes();
    for b in bytes[604..].iter_mut() {
        *b = 0xFF;
    }
    let back = Segment::from_bytes(&bytes).unwrap();
    assert_eq!(back.len(), 1);
    assert_eq!(back.record(0), Some(record(5)));
}

#[test]
fn each_reason_for_refusing_a_segment() {
    let mut s = Segment::new(2).unwrap();
    s.append(record(0));
    let good = s.to_bytes();
    assert_eq!(Segment::from_bytes(&good[..11]).err(), Some(StoreError::Truncated));
    assert_eq!(Segment::from_bytes(&[]).err(), Some(StoreError::Truncated));
    let mut version = good.clone();
    version[3] = 2;
    assert_eq!(Segment::from_bytes(&version).err(), Some(StoreError::BadVersion));
    let mut zero_capacity = good.clone();
    zero_capacity[7] = 0;
    assert_eq!(Segment::from_bytes(&zero_capacity).err(), Some(StoreError::BadSize));
    let mut wrong_capacity = good.clone();
    wrong_capacity[7] = 3;
    assert_eq!(Segment::from_bytes(&wrong_capacity).err(), Some(StoreError::BadSize));
    assert_eq!(
        Segment::from_bytes(&good[..good.len() - 1]).err(),
        Some(StoreError::BadSize)
    );
    let mut huge = good.clone();
    huge[4] = 0xFF;
    assert_eq!(Segment::from_bytes(&huge).err(), Some(StoreError::BadSize));
    let mut cursor = good.clone();
    cursor[11] = 3;
    assert_eq!(Segment::from_bytes(&cursor).err(), Some(StoreError::BadCursor));
    let mut broken = good.clone();
    broken[12 + 8] = 9;
    assert_eq!(Segment::from_bytes(&broken).err(), Some(StoreError::BadRecord));
    let mut both = good.clone();
    both[3] = 7;
    both[11] = 3;
    assert_eq!(Segment::from_bytes(&both).err(), Some(StoreError::BadVersion));
}

#[test]
fn replay_of_files_stops_at_the_first_bad_file() {
    let mut a = Segment::new(1).unwrap();
    a.append(record(0));
    let good = a.to_bytes();
    let mut bad_cursor = good.clone();
    bad_cursor[11] = 2;
    let truncated = vec![0u8; 3];
    assert_eq!(
        replay_files(&vec![good.clone(), bad_cursor.clone(), truncated.clone()]).err(),
        Some(StoreError::BadCursor)
    );
    assert_eq!(
        replay_files(&vec![truncated, bad_cursor]).err(),
        Some(StoreError::Truncated)
    );
    assert_eq!(replay_files(&vec![]).unwrap(), Vec::<Envelope>::new());
    assert_eq!(replay_files(&vec![good.clone(), good]).unwrap(), vec![record(0), record(0)]);
}
