use ert::producer::ProducerHandle as Handle;
use ert::{Envelope, Payload, QueueCore, SubmitResult};

fn record(producer: u16, sequence: u16, text: &[u8]) -> Envelope {
    let mut e = Envelope::default();
    e.producer_id = producer;
    e.sequence = sequence;
    e.payload = Payload::free_form(text);
    e
}

#[test]
fn submissions_below_capacity_are_observed_once_in_order() {
    let mut q = QueueCore::new(8);
    let sent: Vec<Envelope> = (0..8u16).map(|i| record(i % 3, i, &[i as u8])).collect();
    for e in &sent {
        assert_eq!(q.submit(*e), SubmitResult::Accepted);
    }
    assert_eq!(q.dropped(), 0);
    let seen = q.drain(100);
    assert_eq!(seen, sent);
    assert_eq!(q.len(), 0);
    assert!(q.take().is_none());
    for p in 0..3u16 {
        let of_p: Vec<u16> = seen.iter().filter(|e| e.producer_id == p).map(|e| e.sequence).collect();
        let sent_p: Vec<u16> = sent.iter().filter(|e| e.producer_id == p).map(|e| e.sequence).collect();
        assert_eq!(of_p, sent_p);
    }
}

#[test]
fn full_queue_drops_the_newest_and_keeps_what_it_holds() {
    let mut q = QueueCore::new(2);
    assert_eq!(q.capacity(), 2);
    assert_eq!(q.submit(record(1, 0, b"a")), SubmitResult::Accepted);
    assert_eq!(q.submit(record(1, 1, b"b")), SubmitResult::Accepted);
    assert!(q.is_full());
    assert_eq!(q.submit(record(1, 2, b"c")), SubmitResult::Dropped);
    assert_eq!(q.submit(record(1, 3, b"d")), SubmitResult::Dropped);
    assert_eq!(q.dropped(), 2);
    assert_eq!(q.len(), 2);
    assert_eq!(q.take().unwrap().payload.data(), b"a".to_vec());
    assert_eq!(q.submit(record(1, 4, b"e")), SubmitResult::Accepted);
    assert_eq!(q.take().unwrap().payload.data(), b"b".to_vec());
    assert_eq!(q.take().unwrap().payload.data(), b"e".to_vec());
    assert!(q.take().is_none());
}

#[test]
fn drops_plus_observed_equal_submissions() {
    let mut q = QueueCore::new(3);
    let mut submitted = 0u64;
    let mut dropped = 0u64;
    let mut observed = 0u64;
    for round in 0..50u16 {
        for k in 0..4u16 {
            submitted += 1;
            if q.submit(record(7, round * 4 + k, &[k as u8])) == SubmitResult::Dropped {
                dropped += 1;
            }
        }
        observed += q.drain(2).len() as u64;
    }
    observed += q.drain(usize::MAX).len() as u64;
    assert_eq!(q.len(), 0);
    assert_eq!(dropped + observed, submitted);
    assert_eq!(q.dropped(), dropped);
    assert!(dropped > 0);
}

#[test]
fn ring_wraps_around_many_times() {
    let mut q = QueueCore::new(3);
    for i in 0..100u16 {
        assert_eq!(q.submit(record(0, i, &[])), SubmitResult::Accepted);
        assert_eq!(q.submit(record(0, i + 1000, &[])), SubmitResult::Accepted);
        assert_eq!(q.take().unwrap().sequence, i);
        assert_eq!(q.take().unwrap().sequence, i + 1000);
    }
    assert_eq!(q.dropped(), 0);
}

#[test]
fn queue_without_slots_drops_everything() {
    let mut q = QueueCore::new(0);
    assert!(q.is_full());
    assert_eq!(q.submit(record(0, 0, b"x")), SubmitResult::Dropped);
    assert!(q.claim().is_none());
    assert_eq!(q.dropped(), 2);
    assert!(q.take().is_none());
    assert!(q.drain(10).is_empty());
}

#[test]
fn consumer_never_sees_a_slot_that_is_only_claimed() {
    let mut q = QueueCore::new(4);
    let first = q.claim().unwrap();
    let second = q.claim().unwrap();
    assert_ne!(first, second);
    assert_eq!(q.len(), 2);
    assert!(q.take().is_none());
    assert!(q.publish(second, record(2, 0, b"late claim, early publish")));
    assert!(q.take().is_none());
    assert!(q.drain(10).is_empty());
    assert!(q.publish(first, record(1, 0, b"early claim, late publish")));
    let seen = q.drain(10);
    assert_eq!(seen.len(), 2);
    assert_eq!(seen[0].producer_id, 1);
    assert_eq!(seen[1].producer_id, 2);
}

#[test]
fn publish_refuses_a_slot_that_is_not_claimed() {
    let mut q = QueueCore::new(2);
    assert!(!q.publish(0, record(0, 0, b"x")));
    assert!(!q.publish(5, record(0, 0, b"x")));
    let t = q.claim().unwrap();
    assert!(q.publish(t, record(0, 0, b"x")));
    assert!(!q.publish(t, record(0, 1, b"again")));
    assert_eq!(q.take().unwrap().sequence, 0);
    assert!(!q.publish(t, record(0, 2, b"freed")));
    assert_eq!(q.len(), 0);
}

#[test]
fn claimed_slots_count_towards_capacity() {
    let mut q = QueueCore::new(2);
    let a = q.claim().unwrap();
    let _b = q.claim().unwrap();
    assert!(q.claim().is_none());
    assert_eq!(q.submit(record(0, 0, b"x")), SubmitResult::Dropped);
    assert_eq!(q.dropped(), 2);
    assert!(q.publish(a, record(0, 1, b"y")));
    assert_eq!(q.take().unwrap().sequence, 1);
    assert_eq!(q.submit(record(0, 2, b"z")), SubmitResult::Accepted);
}

#[test]
fn drain_is_bounded_by_its_batch() {
    let mut q = QueueCore::new(5);
    for i in 0..5u16 {
        q.submit(record(0, i, &[]));
    }
    let first = q.drain(2);
    assert_eq!(first.iter().map(|e| e.sequence).collect::<Vec<u16>>(), vec![0, 1]);
    assert_eq!(q.len(), 3);
    assert!(q.drain(0).is_empty());
    let rest = q.drain(10);
    assert_eq!(rest.iter().map(|e| e.sequence).collect::<Vec<u16>>(), vec![2, 3, 4]);
}

#[test]
fn handle_stamps_producer_and_sequence() {
    let mut q = QueueCore::new(4);
    let mut h = Handle::new(42);
    assert_eq!(h.producer_id(), 42);
    assert_eq!(h.next_sequence(), 0);
    assert_eq!(h.submit(&mut q, record(9, 999, b"a")), SubmitResult::Accepted);
    assert_eq!(h.submit(&mut q, record(9, 999, b"b")), SubmitResult::Accepted);
    assert_eq!(h.next_sequence(), 2);
    let seen = q.drain(10);
    assert_eq!(seen[0].producer_id, 42);
    assert_eq!(seen[0].sequence, 0);
    assert_eq!(seen[1].sequence, 1);
    assert_eq!(seen[1].payload.data(), b"b".to_vec());
}

#[test]
fn sequence_gaps_count_the_drops() {
    let mut q = QueueCore::new(1);
    let mut h = Handle::new(1);
    let mut observed: Vec<u16> = Vec::new();
    let mut drops_since_last = 0u16;
    let mut expected_gaps: Vec<u16> = Vec::new();
    for i in 0..40u32 {
        match h.submit(&mut q, record(0, 0, &[])) {
            SubmitResult::Accepted => {
                expected_gaps.push(drops_since_last);
                drops_since_last = 0;
            }
            SubmitResult::Dropped => drops_since_last += 1,
        }
        if i % 4 == 3 {
            observed.extend(q.drain(10).iter().map(|e| e.sequence));
        }
    }
    observed.extend(q.drain(10).iter().map(|e| e.sequence));
    assert_eq!(observed.len(), 10);
    for k in 1..observed.len() {
        let gap = observed[k].wrapping_sub(observed[k - 1]).wrapping_sub(1);
        assert_eq!(gap, expected_gaps[k]);
        assert_eq!(gap, 3);
    }
}

#[test]
fn sequence_wraps_behind_65535() {
    let mut q = QueueCore::new(1);
    let mut h = Handle::new(3);
    for _ in 0..65535u32 {
        h.submit(&mut q, record(0, 0, &[]));
        q.take();
    }
    assert_eq!(h.next_sequence(), 65535);
    h.submit(&mut q, record(0, 0, &[]));
    assert_eq!(q.take().unwrap().sequence, 65535);
    assert_eq!(h.next_sequence(), 0);
    h.submit(&mut q, record(0, 0, &[]));
    assert_eq!(q.take().unwrap().sequence, 0);
}

#[test]
fn timestamps_of_a_producer_never_go_down() {
    let mut q = QueueCore::new(8);
    let mut h = Handle::new(1);
    assert_eq!(h.last_timestamp(), 0);
    for reading in [5u64, 9, 7, 9, 3, 12] {
        let mut e = record(0, 0, &[]);
        e.timestamp = reading;
        assert_eq!(h.submit(&mut q, e), SubmitResult::Accepted);
    }
    assert_eq!(h.last_timestamp(), 12);
    let seen: Vec<u64> = q.drain(10).iter().map(|e| e.timestamp).collect();
    assert_eq!(seen, vec![5, 9, 9, 9, 9, 12]);
}

#[test]
fn dropped_submission_still_moves_the_clock_on() {
    let mut q = QueueCore::new(1);
    let mut h = Handle::new(1);
    let mut e = record(0, 0, &[]);
    e.timestamp = 4;
    assert_eq!(h.submit(&mut q, e), SubmitResult::Accepted);
    e.timestamp = 8;
    assert_eq!(h.submit(&mut q, e), SubmitResult::Dropped);
    assert_eq!(h.last_timestamp(), 8);
    assert_eq!(q.take().unwrap().timestamp, 4);
    e.timestamp = 6;
    assert_eq!(h.submit(&mut q, e), SubmitResult::Accepted);
    assert_eq!(q.take().unwrap().timestamp, 8);
}
