//! A real-time-safe telemetry pipeline and the fatal-termination path that
//! goes with it, together with the decision logic of the superstructure that
//! feeds it.
//!
//! Records travel from producer handles through a bounded queue to a consumer
//! that persists them in segments and mirrors them to live observers. Every
//! function here is pure state-to-state logic; the caller performs the file,
//! socket and process operations that the returned plans describe.

pub mod bytes;
pub mod consumer;
pub mod die;
pub mod envelope;
pub mod goal_record;
pub mod logging;
pub mod presentation;
pub mod producer;
pub mod queue;
pub mod region;
pub mod severity;
pub mod stats;
pub mod store;
pub mod superstructure;
pub mod tail;
pub mod text;

pub use consumer::{drain_cycle, forward, shutdown, Delivery, Shutdown};
pub use die::{
    dump_report, errno_message, fatal_dump_filename, location_line, message_with_last_errno,
    unwrap_die, DieOnResult, FatalPath, FatalPlan, FatalState, FATAL_EXIT_CODE,
};
pub use envelope::{
    EncodeError, Envelope, Payload, RecordCodec, SchemaRegistry, SchemaTag, CONTEXT_SIZE,
    FREE_FORM_TAG, PAYLOAD_BUDGET, RECORD_SIZE,
};
pub use goal_record::{goal_from_fields, goal_to_fields, GOAL_SCHEMA};
pub use logging::{context_tag, ert_do_struct_log, ErtLogger};
pub use presentation::merge_by_timestamp;
pub use producer::{LogOutcome, ProducerHandle};
pub use queue::{QueueCore, QueueOp, Slot, SubmitResult};
pub use severity::{level_enabled, struct_log_enabled, LevelFilter, Severity};
pub use store::{
    record_offset, replay, replay_files, AppendPlan, PersistentStore, Segment, StoreError,
    FORMAT_VERSION, HEADER_SIZE, MAX_SEGMENT_CAPACITY,
};
pub use superstructure::{
    apply_instruction, cycle_preparation, request_for, resolve_cycle, BallGoalHeight, CyclePlan,
    ElevatorTarget, GoalState, HatchGoalHeight, HatchPneumaticExt, HatchState, Instruction,
    IntakeExt, Preparation, ReportCadence, Request, SolenoidCache, UserElevatorHeights,
};
pub use tail::{
    frame, read_frame, read_frames, Broadcast, FrameError, LiveTail, FRAME_PREFIX, FRAME_SIZE,
};
