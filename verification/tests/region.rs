use ert::{region, Envelope, Payload, Segment, Severity, StoreError};

fn record(n: u16) -> Envelope {
    let mut e = Envelope::default();
    e.sequence = n;
    e.severity = Severity::Debug;
    e.payload = Payload::free_form(&[n as u8; 7]);
    e
}

#[test]
fn formatted_region_is_an_empty_segment() {
    let mut region = vec![0xEEu8; 12 + 2 * 592];
    assert!(region::format(&mut region, 2));
    assert_eq!(&region[..12], &[0, 0, 0, 1, 0, 0, 0, 2, 0, 0, 0, 0]);
    assert!(region[12..].iter().all(|b| *b == 0xEE));
    let s = Segment::from_bytes(&region).unwrap();
    assert_eq!(s.capacity(), 2);
    assert_eq!(s.len(), 0);
}

#[test]
fn format_refuses_a_region_of_another_size() {
    let mut region = vec![7u8; 12 + 2 * 592];
    assert!(!region::format(&mut region, 0));
    assert!(!region::format(&mut region, 1));
    assert!(!region::format(&mut region, 3));
    assert!(!region::format(&mut region[..11], 2));
    assert!(region.iter().all(|b| *b == 7));
}

#[test]
fn append_writes_at_the_cursor_and_advances_it() {
    let mut region = vec![0u8; 12 + 3 * 592];
    assert!(region::format(&mut region, 3));
    assert_eq!(region::append(&mut region, &record(0)), Some(0));
    assert_eq!(region::append(&mut region, &record(1)), Some(1));
    assert_eq!(&region[8..12], &[0, 0, 0, 2]);
    assert_eq!(&region[12..604], &record(0).encode()[..]);
    assert_eq!(&region[604..1196], &record(1).encode()[..]);
    let s = Segment::from_bytes(&region).unwrap();
    assert_eq!(s.len(), 2);
    assert_eq!(s.record(0), Some(record(0)));
    assert_eq!(s.record(1), Some(record(1)));
}

#[test]
fn region_stays_in_step_with_the_segment_in_memory() {
    let mut region = vec![0u8; 12 + 4 * 592];
    assert!(region::format(&mut region, 4));
    let mut segment = Segment::new(4).unwrap();
    assert_eq!(region, segment.to_bytes());
    for n in 0..4 {
        assert!(segment.append(record(n)));
        assert_eq!(region::append(&mut region, &record(n)), Some(n as u32));
        assert_eq!(region, segment.to_bytes());
    }
}

#[test]
fn full_region_is_left_alone() {
    let mut region = vec![0u8; 12 + 592];
    assert!(region::format(&mut region, 1));
    assert_eq!(region::append(&mut region, &record(0)), Some(0));
    let full = region.clone();
    assert_eq!(region::append(&mut region, &record(1)), None);
    assert_eq!(region, full);
}

#[test]
fn region_without_a_good_header_is_left_alone() {
    let mut good = vec![0u8; 12 + 2 * 592];
    assert!(region::format(&mut good, 2));
    let mut version = good.clone();
    version[3] = 9;
    let mut capacity = good.clone();
    capacity[7] = 5;
    let mut cursor = good.clone();
    cursor[11] = 3;
    for mut bad in [version, capacity, cursor, vec![0u8; 5], vec![]] {
        let before = bad.clone();
        assert_eq!(region::append(&mut bad, &record(0)), None);
        assert_eq!(bad, before);
    }
    assert_eq!(Segment::from_bytes(&good[..4]).err(), Some(StoreError::Truncated));
}

#[test]
fn append_does_not_look_at_earlier_records() {
    let mut region = vec![0u8; 12 + 2 * 592];
    assert!(region::format(&mut region, 2));
    assert_eq!(region::append(&mut region, &record(0)), Some(0));
    region[12 + 8] = 99;
    let damaged: Vec<u8> = region[12..604].to_vec();
    assert_eq!(region::append(&mut region, &record(1)), Some(1));
    assert_eq!(&region[12..604], &damaged[..]);
    assert_eq!(&region[604..1196], &record(1).encode()[..]);
    assert_eq!(Segment::from_bytes(&region).err(), Some(StoreError::BadRecord));
}
