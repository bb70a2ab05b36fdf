use ert::{
    dump_report, errno_message, fatal_dump_filename, location_line, message_with_last_errno,
    unwrap_die, DieOnResult, FatalPath, FatalState, QueueCore, Envelope, SubmitResult,
    FATAL_EXIT_CODE,
};

#[test]
fn dump_file_name_follows_the_pattern() {
    assert_eq!(fatal_dump_filename(0), "/tmp/ert_fatal_error_0.txt");
    assert_eq!(fatal_dump_filename(7), "/tmp/ert_fatal_error_7.txt");
    assert_eq!(
        fatal_dump_filename(1804289383),
        "/tmp/ert_fatal_error_1804289383.txt"
    );
    assert_eq!(
        fatal_dump_filename(i32::MAX),
        "/tmp/ert_fatal_error_2147483647.txt"
    );
    assert_eq!(fatal_dump_filename(-12), "/tmp/ert_fatal_error_-12.txt");
    assert_eq!(
        fatal_dump_filename(i32::MIN),
        "/tmp/ert_fatal_error_-2147483648.txt"
    );
}

#[test]
fn dump_file_name_is_what_formatting_gives() {
    for suffix in [1, 9, 10, 99, 100, 101, 4095, 65536, 1_000_000_007, -1, -10] {
        assert_eq!(
            fatal_dump_filename(suffix),
            format!("/tmp/ert_fatal_error_{}.txt", suffix)
        );
    }
}

#[test]
fn location_line_names_file_and_line() {
    assert_eq!(location_line("src/drive.rs", 42), "At src/drive.rs:42");
    assert_eq!(location_line("", 0), "At :0");
    assert_eq!(location_line("a.rs", u32::MAX), "At a.rs:4294967295");
}

#[test]
fn first_invocation_yields_the_one_plan() {
    let mut path = FatalPath::new();
    assert_eq!(path.state(), FatalState::Normal);
    let plan = path.die("src/main.rs", 17, "talon 3 does not answer", 4711).unwrap();
    assert_eq!(path.state(), FatalState::Terminating);
    assert_eq!(plan.dump_path, "/tmp/ert_fatal_error_4711.txt");
    assert_eq!(plan.dump_contents, "At src/main.rs:17\ntalon 3 does not answer\n");
    assert_eq!(
        plan.announcement,
        "ERT encountered a fatal error! Info to follow:\nAt src/main.rs:17\ntalon 3 does not answer\n"
    );
    assert_eq!(plan.exit_code, -1);
    assert_eq!(plan.exit_code, FATAL_EXIT_CODE);
    assert_ne!(plan.exit_code, 0);
    assert!(plan.dump_contents.contains("talon 3 does not answer"));
}

#[test]
fn terminating_is_never_left() {
    let mut path = FatalPath::new();
    assert!(path.die("a.rs", 1, "first", 1).is_some());
    assert!(path.die("b.rs", 2, "second", 2).is_none());
    assert!(path.die_with_errno("c.rs", 3, "third", 3).is_none());
    assert_eq!(path.state(), FatalState::Terminating);
}

#[test]
fn fatal_path_works_beside_a_saturated_queue() {
    let mut queue = QueueCore::new(1);
    assert_eq!(queue.submit(Envelope::default()), SubmitResult::Accepted);
    assert_eq!(queue.submit(Envelope::default()), SubmitResult::Dropped);
    assert!(queue.is_full());
    let mut path = FatalPath::new();
    let plan = path.die("src/queue.rs", 9, "queue is stuck", 55).unwrap();
    assert_eq!(plan.dump_path, "/tmp/ert_fatal_error_55.txt");
    assert!(plan.dump_contents.contains("queue is stuck"));
    assert_ne!(plan.exit_code, 0);
    assert_eq!(queue.len(), 1);
}

#[test]
fn report_says_where_the_dump_went_or_why_not() {
    assert_eq!(
        dump_report("/tmp/ert_fatal_error_3.txt", None),
        "Info reproduced to /tmp/ert_fatal_error_3.txt"
    );
    assert_eq!(
        dump_report("/tmp/x.txt", Some("Err(PermissionDenied)")),
        "Failed to write error info to /tmp/x.txt: Err(PermissionDenied)"
    );
}

#[test]
fn errno_message_is_exact() {
    assert_eq!(
        errno_message("open failed", 2, "ENOENT: No such file or directory"),
        "open failed (caused by error code 2, ENOENT: No such file or directory)"
    );
    assert_eq!(errno_message("", -5, ""), " (caused by error code -5, )");
}

#[test]
fn last_errno_is_captured_with_its_description() {
    nix::errno::Errno::set_raw(2);
    let m = message_with_last_errno("mmap failed");
    assert_eq!(
        m,
        "mmap failed (caused by error code 2, ENOENT: No such file or directory)"
    );
    nix::errno::Errno::set_raw(13);
    let m = message_with_last_errno("mmap failed");
    assert_eq!(
        m,
        format!(
            "mmap failed (caused by error code 13, {})",
            nix::errno::Errno::EACCES
        )
    );
}

#[test]
fn die_with_errno_puts_the_code_into_the_dump() {
    nix::errno::Errno::set_raw(12);
    let mut path = FatalPath::new();
    let plan = path.die_with_errno("src/store.rs", 88, "could not map segment", 9).unwrap();
    assert_eq!(
        plan.dump_contents,
        format!(
            "At src/store.rs:88\ncould not map segment (caused by error code 12, {})\n",
            nix::errno::Errno::ENOMEM
        )
    );
    assert_eq!(plan.dump_path, "/tmp/ert_fatal_error_9.txt");
    assert_eq!(plan.exit_code, -1);
}

#[test]
fn unwrap_die_joins_expectation_and_error() {
    assert_eq!(unwrap_die("no HAL", "Timeout"), "no HAL: Timeout");
    assert_eq!(unwrap_die("", ""), ": ");
}

#[test]
fn ok_results_pass_through() {
    let r: Result<u32, String> = Ok(5);
    assert_eq!(r.clone().expect_or_die("never"), Ok(5));
    assert_eq!(r.unwrap_or_die(), Ok(5));
}

#[test]
fn err_results_give_the_message_to_die_with() {
    let r: Result<u32, &str> = Err("bus fault");
    assert_eq!(
        r.expect_or_die("talon init"),
        Err("talon init: \"bus fault\"".to_string())
    );
    let r: Result<(), i32> = Err(-3);
    assert_eq!(
        r.unwrap_or_die(),
        Err("called `Result::unwrap()` on an `Err` value: -3".to_string())
    );
}
