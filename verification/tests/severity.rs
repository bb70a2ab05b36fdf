use ert::{level_enabled, struct_log_enabled, LevelFilter, Severity};

#[test]
fn severities_are_ordered_from_trace_to_error() {
    assert!(Severity::Trace < Severity::Debug);
    assert!(Severity::Debug < Severity::Info);
    assert!(Severity::Info < Severity::Warn);
    assert!(Severity::Warn < Severity::Error);
    assert!(Severity::Error.at_least(Severity::Warn));
    assert!(Severity::Info.at_least(Severity::Info));
    assert!(!Severity::Debug.at_least(Severity::Info));
}

#[test]
fn severity_bytes_round_trip() {
    let all = [
        Severity::Trace,
        Severity::Debug,
        Severity::Info,
        Severity::Warn,
        Severity::Error,
    ];
    for (rank, level) in all.iter().enumerate() {
        assert_eq!(level.to_byte() as usize, rank);
        assert_eq!(Severity::from_byte(rank as u8), Some(*level));
    }
    assert_eq!(Severity::from_byte(5), None);
    assert_eq!(Severity::from_byte(255), None);
}

#[test]
fn filter_lets_through_what_is_serious_enough() {
    assert!(!LevelFilter::Off.lets_through(Severity::Error));
    assert!(LevelFilter::Error.lets_through(Severity::Error));
    assert!(!LevelFilter::Error.lets_through(Severity::Warn));
    assert!(LevelFilter::Info.lets_through(Severity::Warn));
    assert!(LevelFilter::Info.lets_through(Severity::Info));
    assert!(!LevelFilter::Info.lets_through(Severity::Debug));
    assert!(LevelFilter::Trace.lets_through(Severity::Trace));
}

#[test]
fn level_is_enabled_only_under_both_limits() {
    assert!(level_enabled(Severity::Warn, LevelFilter::Trace, LevelFilter::Warn));
    assert!(!level_enabled(Severity::Info, LevelFilter::Trace, LevelFilter::Warn));
    assert!(!level_enabled(Severity::Warn, LevelFilter::Error, LevelFilter::Trace));
    assert!(!level_enabled(Severity::Error, LevelFilter::Off, LevelFilter::Trace));
    assert!(level_enabled(Severity::Trace, LevelFilter::Trace, LevelFilter::Trace));
}

#[test]
fn struct_log_guard_follows_the_run_time_limit() {
    log::set_max_level(log::LevelFilter::Warn);
    assert!(struct_log_enabled(Severity::Error));
    assert!(struct_log_enabled(Severity::Warn));
    assert!(!struct_log_enabled(Severity::Info));
    log::set_max_level(log::LevelFilter::Off);
    assert!(!struct_log_enabled(Severity::Error));
    log::set_max_level(log::LevelFilter::Trace);
    assert!(struct_log_enabled(Severity::Trace));
}
