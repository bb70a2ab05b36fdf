use ert::{
    context_tag, ert_do_struct_log, Envelope, ErtLogger, GoalState, HatchGoalHeight, HatchState,
    LevelFilter, LogOutcome, QueueCore, RecordCodec, SchemaTag, Severity, SubmitResult,
};

struct Blob {
    tag: u8,
    bytes: Vec<u8>,
}

impl RecordCodec for Blob {
    fn schema_tag(&self) -> SchemaTag {
        SchemaTag::new(self.tag).unwrap()
    }

    fn encode_fields(&self, buf: &mut [u8; 512]) -> Option<u16> {
        if self.bytes.len() > 512 {
            return None;
        }
        buf[..self.bytes.len()].copy_from_slice(&self.bytes);
        Some(self.bytes.len() as u16)
    }
}

#[test]
fn oversize_record_never_reaches_the_queue() {
    let mut queue = QueueCore::new(4);
    let mut logger = ErtLogger::new(1, LevelFilter::Trace);
    let big = Blob { tag: 3, bytes: vec![1u8; 513] };
    let r = ert_do_struct_log(&mut logger, &mut queue, 10, Severity::Info, [0u8; 64], &big);
    assert_eq!(r, LogOutcome::Oversize);
    assert_eq!(queue.len(), 0);
    assert_eq!(queue.dropped(), 0);
    assert_eq!(logger.producer().oversize_count(), 1);
    assert_eq!(logger.producer().next_sequence(), 0);
    let r = ert_do_struct_log(&mut logger, &mut queue, 11, Severity::Info, [0u8; 64], &big);
    assert_eq!(r, LogOutcome::Oversize);
    assert_eq!(logger.producer().oversize_count(), 2);
    assert!(queue.take().is_none());
}

#[test]
fn structured_record_is_queued_with_its_fields() {
    let mut queue = QueueCore::new(4);
    let mut logger = ErtLogger::new(6, LevelFilter::Trace);
    let fits = Blob { tag: 3, bytes: (0..=255u8).chain(0..=255u8).collect() };
    let context = context_tag(b"drive src/drive.rs:10");
    let r = ert_do_struct_log(&mut logger, &mut queue, 99, Severity::Warn, context, &fits);
    assert_eq!(r, LogOutcome::Accepted);
    assert_eq!(logger.producer().oversize_count(), 0);
    assert_eq!(logger.producer().next_sequence(), 1);
    let e = queue.take().unwrap();
    assert_eq!(e.timestamp, 99);
    assert_eq!(e.severity, Severity::Warn);
    assert_eq!(e.producer_id, 6);
    assert_eq!(e.sequence, 0);
    assert_eq!(e.context, context);
    assert_eq!(e.payload.schema().unwrap().raw(), 3);
    assert_eq!(e.payload.data(), fits.bytes);
    assert_eq!(Envelope::decode(&e.encode()), Some(e));
}

#[test]
fn structured_record_is_dropped_when_the_queue_is_full() {
    let mut queue = QueueCore::new(1);
    let mut logger = ErtLogger::new(6, LevelFilter::Trace);
    let small = Blob { tag: 1, bytes: vec![1, 2] };
    assert_eq!(
        ert_do_struct_log(&mut logger, &mut queue, 1, Severity::Info, [0u8; 64], &small),
        LogOutcome::Accepted
    );
    assert_eq!(
        ert_do_struct_log(&mut logger, &mut queue, 2, Severity::Info, [0u8; 64], &small),
        LogOutcome::Dropped
    );
    assert_eq!(queue.dropped(), 1);
    assert_eq!(logger.producer().next_sequence(), 2);
    assert_eq!(logger.producer().oversize_count(), 0);
}

#[test]
fn goal_is_logged_as_a_structured_record() {
    let mut queue = QueueCore::new(2);
    let mut logger = ErtLogger::new(2, LevelFilter::Info);
    let goal = GoalState::Hatch(HatchGoalHeight::Med, HatchState::closed());
    assert_eq!(
        ert_do_struct_log(&mut logger, &mut queue, 5, Severity::Info, [0u8; 64], &goal),
        LogOutcome::Accepted
    );
    let e = queue.take().unwrap();
    assert_eq!(e.payload.schema().unwrap().raw(), ert::GOAL_SCHEMA);
    assert_eq!(e.payload.data(), vec![1, 1, 0, 0]);
    assert_eq!(ert::goal_from_fields(&e.payload.data()), Some(goal));
}

#[test]
fn disabled_level_costs_nothing() {
    let mut queue = QueueCore::new(2);
    let mut logger = ErtLogger::new(4, LevelFilter::Warn);
    assert!(!logger.enabled(Severity::Info));
    assert!(logger.enabled(Severity::Warn));
    assert!(logger.enabled(Severity::Error));
    assert_eq!(logger.log(&mut queue, 1, Severity::Info, [0u8; 64], b"quiet"), None);
    assert_eq!(queue.len(), 0);
    assert_eq!(logger.producer().next_sequence(), 0);
    assert_eq!(
        logger.log(&mut queue, 2, Severity::Error, [0u8; 64], b"loud"),
        Some(SubmitResult::Accepted)
    );
    assert_eq!(logger.producer().next_sequence(), 1);
    let e = queue.take().unwrap();
    assert_eq!(e.payload.data(), b"loud".to_vec());
    assert_eq!(e.severity, Severity::Error);
    assert_eq!(e.producer_id, 4);
    assert!(!e.payload.is_structured());
    logger.set_max_level(LevelFilter::Off);
    assert_eq!(logger.log(&mut queue, 3, Severity::Error, [0u8; 64], b"off"), None);
}

#[test]
fn free_form_message_is_cut_at_the_budget() {
    let mut queue = QueueCore::new(2);
    let mut logger = ErtLogger::new(4, LevelFilter::Trace);
    let long = vec![b'z'; 2000];
    assert_eq!(
        logger.log(&mut queue, 1, Severity::Debug, [0u8; 64], &long),
        Some(SubmitResult::Accepted)
    );
    assert_eq!(queue.take().unwrap().payload.data(), vec![b'z'; 512]);
}

#[test]
fn free_form_message_is_dropped_when_the_queue_is_full() {
    let mut queue = QueueCore::new(0);
    let mut logger = ErtLogger::new(4, LevelFilter::Trace);
    assert_eq!(
        logger.log(&mut queue, 1, Severity::Debug, [0u8; 64], b"x"),
        Some(SubmitResult::Dropped)
    );
    assert_eq!(queue.dropped(), 1);
    assert_eq!(logger.producer().next_sequence(), 1);
}

#[test]
fn context_tag_is_cut_or_padded_to_64_bytes() {
    let short = context_tag(b"abc");
    assert_eq!(&short[..3], b"abc");
    assert!(short[3..].iter().all(|b| *b == 0));
    let long: Vec<u8> = (0..100u8).collect();
    let cut = context_tag(&long);
    assert_eq!(&cut[..], &long[..64]);
    assert_eq!(context_tag(&[]), [0u8; 64]);
}
