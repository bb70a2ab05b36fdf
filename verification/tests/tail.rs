use ert::{frame, read_frame, read_frames, Envelope, FrameError, LiveTail, Payload, FRAME_SIZE};

fn record(n: u16) -> Envelope {
    let mut e = Envelope::default();
    e.sequence = n;
    e.timestamp = 77;
    e.payload = Payload::free_form(&[n as u8, 1, 2]);
    e
}

#[test]
fn frame_is_length_prefixed_big_endian() {
    let e = record(3);
    let f = frame(&e);
    assert_eq!(f.len(), FRAME_SIZE);
    assert_eq!(&f[0..4], &[0x00, 0x00, 0x02, 0x50]);
    assert_eq!(&f[4..], &e.encode()[..]);
}

#[test]
fn observer_reads_back_what_was_framed() {
    let e = record(9);
    let mut stream = frame(&e);
    stream.extend_from_slice(&[1, 2, 3]);
    let (back, used) = read_frame(&stream).unwrap();
    assert_eq!(back, e);
    assert_eq!(used, 596);
}

#[test]
fn each_reason_for_not_reading_a_frame() {
    let f = frame(&record(1));
    assert_eq!(read_frame(&[]).err(), Some(FrameError::Incomplete));
    assert_eq!(read_frame(&f[..3]).err(), Some(FrameError::Incomplete));
    assert_eq!(read_frame(&f[..595]).err(), Some(FrameError::Incomplete));
    let mut long = f.clone();
    long[3] = 0x51;
    assert_eq!(read_frame(&long).err(), Some(FrameError::BadLength));
    assert_eq!(read_frame(&long[..4]).err(), Some(FrameError::BadLength));
    let mut broken = f.clone();
    broken[4 + 8] = 200;
    assert_eq!(read_frame(&broken).err(), Some(FrameError::BadRecord));
}

#[test]
fn observer_reads_all_complete_frames_of_a_stream() {
    let mut stream = Vec::new();
    for n in 0..3 {
        stream.extend_from_slice(&frame(&record(n)));
    }
    stream.extend_from_slice(&frame(&record(3))[..100]);
    let (records, used) = read_frames(&stream);
    assert_eq!(records, vec![record(0), record(1), record(2)]);
    assert_eq!(used, 3 * 596);
    let (none, zero) = read_frames(&stream[..10]);
    assert!(none.is_empty());
    assert_eq!(zero, 0);
}

#[test]
fn late_observer_gets_only_what_follows() {
    let mut tail = LiveTail::new();
    let mut streams: Vec<(u64, Vec<u8>)> = vec![(1, vec![]), (2, vec![])];
    assert!(tail.connect(1));
    for n in 0..5u16 {
        if n == 3 {
            assert!(tail.connect(2));
        }
        let out = tail.publish(&record(n));
        for id in out.recipients {
            let s = streams.iter_mut().find(|s| s.0 == id).unwrap();
            s.1.extend_from_slice(&out.frame);
        }
    }
    let (early, _) = read_frames(&streams[0].1);
    let (late, _) = read_frames(&streams[1].1);
    assert_eq!(early, (0..5).map(record).collect::<Vec<Envelope>>());
    assert_eq!(late, vec![record(3), record(4)]);
}

#[test]
fn record_goes_to_every_observer_in_connection_order() {
    let mut tail = LiveTail::new();
    assert_eq!(tail.publish(&record(0)).recipients, Vec::<u64>::new());
    assert!(tail.connect(30));
    assert!(tail.connect(10));
    assert!(tail.connect(20));
    assert_eq!(tail.observer_count(), 3);
    let out = tail.publish(&record(1));
    assert_eq!(out.recipients, vec![30, 10, 20]);
    assert_eq!(out.frame, frame(&record(1)));
}

#[test]
fn connected_name_is_refused() {
    let mut tail = LiveTail::new();
    assert!(tail.connect(5));
    assert!(!tail.connect(5));
    assert_eq!(tail.observer_count(), 1);
    assert!(tail.is_connected(5));
    assert!(!tail.is_connected(6));
}

#[test]
fn failing_observer_is_dropped_and_others_stay() {
    let mut tail = LiveTail::new();
    tail.connect(1);
    tail.connect(2);
    tail.connect(3);
    assert!(tail.disconnect(2));
    assert!(!tail.disconnect(2));
    assert!(!tail.disconnect(99));
    assert_eq!(tail.publish(&record(0)).recipients, vec![1, 3]);
    assert!(tail.connect(2));
    assert_eq!(tail.publish(&record(1)).recipients, vec![1, 3, 2]);
}

#[test]
fn shutdown_releases_every_observer() {
    let mut tail = LiveTail::new();
    tail.connect(8);
    tail.connect(4);
    assert_eq!(tail.disconnect_all(), vec![8, 4]);
    assert_eq!(tail.observer_count(), 0);
    assert!(tail.publish(&record(0)).recipients.is_empty());
    assert!(tail.disconnect_all().is_empty());
}
