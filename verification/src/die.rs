//! The fatal-termination path: what to dump, where, and with which exit
//! code, when a thread decides that going on is unsafe.
//!
//! The path has two states. In `Normal` an invocation yields the one dump
//! plan of the process and moves to `Terminating`, which is never left. The
//! plan is built without the queue, so that a saturated or broken pipeline
//! cannot hold termination up. The caller prints the plan, writes the dump
//! file, and exits without running destructors.

use crate::text::{decimal, push_decimal};
use vstd::prelude::*;
use vstd::string::StringExecFns;

verus! {

/// The exit code of a process that ends on the fatal-termination path.
pub const FATAL_EXIT_CODE: i32 = -1;

/// The name of the dump file for the given random suffix.
pub open spec fn dump_name(suffix: int) -> Seq<char> {
    "/tmp/ert_fatal_error_"@ + decimal(suffix) + ".txt"@
}

/// The line that says where in the source the process died.
pub open spec fn location_text(file: Seq<char>, line: int) -> Seq<char> {
    "At "@ + file + ":"@ + decimal(line)
}

/// What is written to the dump file: the source location line, then the
/// diagnostic message.
pub open spec fn dump_text(location: Seq<char>, message: Seq<char>) -> Seq<char> {
    location + "\n"@ + message + "\n"@
}

/// What is printed to the standard error stream before the dump is
/// written.
pub open spec fn announcement_text(location: Seq<char>, message: Seq<char>) -> Seq<char> {
    "ERT encountered a fatal error! Info to follow:\n"@ + dump_text(location, message)
}

/// What is printed once the dump was tried: where it went, or that it
/// could not be written and why.
pub open spec fn report_text(name: Seq<char>, failure: Option<Seq<char>>) -> Seq<char> {
    match failure {
        None => "Info reproduced to "@ + name,
        Some(why) => "Failed to write error info to "@ + name + ": "@ + why,
    }
}

/// A diagnostic message with the error code of a failed system call and its
/// description behind it.
pub open spec fn errno_text_of(message: Seq<char>, code: int, description: Seq<char>) -> Seq<
    char,
> {
    message + " (caused by error code "@ + decimal(code) + ", "@ + description + ")"@
}

/// The message with which a process dies over a failed result.
pub open spec fn unwrap_text(msg: Seq<char>, error: Seq<char>) -> Seq<char> {
    msg + ": "@ + error
}

/// The name of the dump file: `/tmp/ert_fatal_error_`, the suffix in
/// decimal, and `.txt`. The caller draws the suffix at random for every
/// invocation.
pub fn fatal_dump_filename(suffix: i32) -> (name: String)
    ensures
        name@ == dump_name(suffix as int),
{
    let mut name = String::from_str("/tmp/ert_fatal_error_");
    push_decimal(&mut name, suffix as i64);
    name.append(".txt");
    name
}

/// The line that says where in the source the process died.
pub fn location_line(file: &str, line: u32) -> (r: String)
    ensures
        r@ == location_text(file@, line as int),
{
    let mut r = String::from_str("At ");
    r.append(file);
    r.append(":");
    push_decimal(&mut r, line as i64);
    r
}

/// What is printed once the dump was tried. `failure` is the reason why the
/// dump file could not be written, if it could not.
pub fn dump_report(name: &str, failure: Option<&str>) -> (r: String)
    ensures
        r@ == report_text(
            name@,
            match failure {
                None => None,
                Some(why) => Some(why@),
            },
        ),
{
    match failure {
        None => {
            let mut r = String::from_str("Info reproduced to ");
            r.append(name);
            r
        },
        Some(why) => {
            let mut r = String::from_str("Failed to write error info to ");
            r.append(name);
            r.append(": ");
            r.append(why);
            r
        },
    }
}

/// A diagnostic message with the error code of a failed system call and its
/// description behind it.
pub fn errno_message(message: &str, code: i32, description: &str) -> (r: String)
    ensures
        r@ == errno_text_of(message@, code as int, description@),
{
    let mut r = String::from_str(message);
    r.append(" (caused by error code ");
    push_decimal(&mut r, code as i64);
    r.append(", ");
    r.append(description);
    r.append(")");
    r
}

/// What `nix` prints for an error code: the name of the code, a colon, and
/// its description.
pub uninterp spec fn errno_display(code: int) -> Seq<char>;

/// Trusted: `nix::errno::Errno::last_raw`, the error code that the last
/// failed system call of this thread left behind. Nothing is claimed of its
/// value.
#[verifier::external_body]
fn last_errno() -> (code: i32) {
    nix::errno::Errno::last_raw()
}

/// Trusted: the `Display` of `nix::errno::Errno::from_raw(code)`. The text
/// depends on the code alone, by a table in `nix`; it is named, not spelled
/// out.
#[verifier::external_body]
fn errno_description(code: i32) -> (text: String)
    ensures
        text@ == errno_display(code as int),
{
    format!("{}", nix::errno::Errno::from_raw(code))
}

/// `message` with the error code that the last failed system call left
/// behind, and what `nix` prints for that code. To be called first thing
/// on the failure, before anything else can overwrite the code.
pub fn message_with_last_errno(message: &str) -> (r: String)
    ensures
        exists|code: int| r@ == errno_text_of(message@, code, #[trigger] errno_display(code)),
{
    let code = last_errno();
    let description = errno_description(code);
    let r = errno_message(message, code, description.as_str());
    assert(r@ == errno_text_of(message@, code as int, errno_display(code as int)));
    r
}

/// The message with which a process dies over a failed result: what was
/// expected, a colon, and the error.
pub fn unwrap_die(msg: &str, error: &str) -> (r: String)
    ensures
        r@ == unwrap_text(msg@, error@),
{
    let mut r = String::from_str(msg);
    r.append(": ");
    r.append(error);
    r
}

/// Trusted: the `Debug` text of a value, as `format!("{:?}", ..)` gives it.
/// Nothing is claimed of the text.
#[verifier::external_body]
fn debug_text<E: core::fmt::Debug>(error: &E) -> (text: String) {
    format!("{:?}", error)
}

/// Results that a process does not want to recover from. Both methods hand
/// an `Ok` value through; for an `Err` they give the message to die with,
/// which the caller passes to the fatal-termination path.
pub trait DieOnResult<T> {
    /// The value, or the message to die with: `msg`, a colon, and the
    /// error.
    fn expect_or_die(self, msg: &'static str) -> (r: Result<T, String>);

    /// The value, or the message to die with: a standard text, a colon,
    /// and the error.
    fn unwrap_or_die(self) -> (r: Result<T, String>);
}

impl<T, E: core::fmt::Debug> DieOnResult<T> for Result<T, E> {
    fn expect_or_die(self, msg: &'static str) -> (r: Result<T, String>)
        ensures
            self matches Ok(t) ==> r == Ok::<T, String>(t),
            self is Err ==> r is Err && exists|error: Seq<char>|
                r->Err_0@ == #[trigger] unwrap_text(msg@, error),
    {
        match self {
            Ok(t) => Ok(t),
            Err(e) => {
                let text = debug_text(&e);
                let m = unwrap_die(msg, text.as_str());
                assert(m@ == unwrap_text(msg@, text@));
                Err(m)
            },
        }
    }

    fn unwrap_or_die(self) -> (r: Result<T, String>)
        ensures
            self matches Ok(t) ==> r == Ok::<T, String>(t),
            self is Err ==> r is Err && exists|error: Seq<char>|
                r->Err_0@ == #[trigger] unwrap_text(
                    "called `Result::unwrap()` on an `Err` value"@,
                    error,
                ),
    {
        match self {
            Ok(t) => Ok(t),
            Err(e) => {
                let text = debug_text(&e);
                let m = unwrap_die("called `Result::unwrap()` on an `Err` value", text.as_str());
                assert(m@ == unwrap_text(
                    "called `Result::unwrap()` on an `Err` value"@,
                    text@,
                ));
                Err(m)
            },
        }
    }
}

/// The two states of the fatal-termination path.
#[derive(Clone, Copy, Debug, PartialEq, Eq, Structural)]
pub enum FatalState {
    /// Nothing fatal has happened.
    Normal,
    /// The process is being brought down. There is no way back.
    Terminating,
}

/// What the caller has to do to bring the process down.
#[derive(Debug, PartialEq, Eq)]
pub struct FatalPlan {
    /// What to print to the standard error stream first.
    pub announcement: String,
    /// The dump file to create.
    pub dump_path: String,
    /// What to write to the dump file.
    pub dump_contents: String,
    /// The code to exit with, at once and without cleanup.
    pub exit_code: i32,
}

/// What a plan holds, as text.
pub struct FatalPlanView {
    pub announcement: Seq<char>,
    pub dump_path: Seq<char>,
    pub dump_contents: Seq<char>,
    pub exit_code: int,
}

impl View for FatalPlan {
    type V = FatalPlanView;

    open spec fn view(&self) -> FatalPlanView {
        FatalPlanView {
            announcement: self.announcement@,
            dump_path: self.dump_path@,
            dump_contents: self.dump_contents@,
            exit_code: self.exit_code as int,
        }
    }
}

/// The plan for a death at `file`:`line` with `message`, dumped under the
/// given random suffix.
pub open spec fn plan_for(file: Seq<char>, line: int, message: Seq<char>, suffix: int) -> FatalPlanView {
    FatalPlanView {
        announcement: announcement_text(location_text(file, line), message),
        dump_path: dump_name(suffix),
        dump_contents: dump_text(location_text(file, line), message),
        exit_code: FATAL_EXIT_CODE as int,
    }
}

/// How many dump plans `invocations` invocations yield, starting in
/// `state`.
pub open spec fn plans_issued(state: FatalState, invocations: nat) -> nat
    decreases invocations,
{
    if invocations == 0 {
        0
    } else {
        (if state is Normal {
            1nat
        } else {
            0nat
        }) + plans_issued(FatalState::Terminating, (invocations - 1) as nat)
    }
}

/// However often the path is invoked, and by however many threads, it
/// yields exactly one dump plan: the first invocation gets it, and
/// `Terminating` is never left.
pub proof fn lemma_exactly_one_dump(invocations: nat)
    ensures
        plans_issued(FatalState::Terminating, invocations) == 0,
        invocations > 0 ==> plans_issued(FatalState::Normal, invocations) == 1,
    decreases invocations,
{
    if invocations > 0 {
        lemma_exactly_one_dump((invocations - 1) as nat);
    }
}

/// The fatal-termination path of a process.
#[derive(Debug)]
pub struct FatalPath {
    state: FatalState,
}

impl FatalPath {
    /// The state of the path.
    pub closed spec fn state_spec(&self) -> FatalState {
        self.state
    }

    /// The path of a process in which nothing fatal has happened.
    pub fn new() -> (p: FatalPath)
        ensures
            p.state_spec() == FatalState::Normal,
    {
        FatalPath { state: FatalState::Normal }
    }

    /// The state of the path.
    pub fn state(&self) -> (s: FatalState)
        ensures
            s == self.state_spec(),
    {
        self.state
    }

    /// Invokes the path with a diagnostic message. The first invocation
    /// moves to `Terminating` and yields the plan: the announcement, the
    /// dump file named after `suffix` holding the source location and the
    /// message, and a non-zero exit code. Any later invocation yields
    /// nothing, for the process is already on its way down.
    pub fn die(&mut self, file: &str, line: u32, message: &str, suffix: i32) -> (plan: Option<
        FatalPlan,
    >)
        ensures
            final(self).state_spec() == FatalState::Terminating,
            old(self).state_spec() is Normal <==> plan is Some,
            plan matches Some(p) ==> p@ == plan_for(file@, line as int, message@, suffix as int)
                && p.exit_code != 0,
    {
        match self.state {
            FatalState::Terminating => None,
            FatalState::Normal => {
                self.state = FatalState::Terminating;
                let location = location_line(file, line);
                let mut dump_contents = String::from_str(location.as_str());
                dump_contents.append("\n");
                dump_contents.append(message);
                dump_contents.append("\n");
                let mut announcement = String::from_str(
                    "ERT encountered a fatal error! Info to follow:\n",
                );
                announcement.append(dump_contents.as_str());
                Some(
                    FatalPlan {
                        announcement,
                        dump_path: fatal_dump_filename(suffix),
                        dump_contents,
                        exit_code: FATAL_EXIT_CODE,
                    },
                )
            },
        }
    }

    /// Invokes the path for a failure rooted in a system call: like `die`,
    /// with the error code that the call left behind and its description
    /// added to the message. To be called first thing on the failure.
    pub fn die_with_errno(&mut self, file: &str, line: u32, message: &str, suffix: i32) -> (plan:
        Option<FatalPlan>)
        ensures
            final(self).state_spec() == FatalState::Terminating,
            old(self).state_spec() is Normal <==> plan is Some,
            plan matches Some(p) ==> p.exit_code != 0 && exists|code: int|
                p@ == plan_for(
                    file@,
                    line as int,
                    errno_text_of(message@, code, #[trigger] errno_display(code)),
                    suffix as int,
                ),
    {
        let full = message_with_last_errno(message);
        self.die(file, line, full.as_str(), suffix)
    }
}

} // verus!
