//! Severity of a record, and the filters that decide whether a severity is
//! worth encoding at all.

use vstd::prelude::*;

verus! {

/// How serious a record is. The order of the variants is the order of
/// severity: `Trace` is the least serious, `Error` the most.
#[derive(Clone, Copy, Debug, PartialEq, Eq, PartialOrd, Ord, Hash, Structural)]
pub enum Severity {
    Trace,
    Debug,
    Info,
    Warn,
    Error,
}

/// The most verbose severity that is let through. `Off` lets nothing
/// through, `Trace` everything.
#[derive(Clone, Copy, Debug, PartialEq, Eq, Hash, Structural)]
pub enum LevelFilter {
    Off,
    Error,
    Warn,
    Info,
    Debug,
    Trace,
}

impl Severity {
    /// Position in the order of severity, from 0 for `Trace` to 4 for `Error`.
    /// This is the severity byte of a record.
    pub open spec fn rank(self) -> int {
        match self {
            Severity::Trace => 0,
            Severity::Debug => 1,
            Severity::Info => 2,
            Severity::Warn => 3,
            Severity::Error => 4,
        }
    }

    /// How much detail the severity stands for, from 1 for `Error` to 5 for
    /// `Trace`: the scale on which a `LevelFilter` is compared.
    pub open spec fn verbosity(self) -> int {
        5 - self.rank()
    }

    /// The severity with the given rank, if there is one.
    pub open spec fn of_rank(rank: int) -> Option<Severity> {
        if rank == 0 {
            Some(Severity::Trace)
        } else if rank == 1 {
            Some(Severity::Debug)
        } else if rank == 2 {
            Some(Severity::Info)
        } else if rank == 3 {
            Some(Severity::Warn)
        } else if rank == 4 {
            Some(Severity::Error)
        } else {
            None
        }
    }

    /// The severity byte of a record.
    pub fn to_byte(self) -> (b: u8)
        ensures
            b == self.rank(),
    {
        match self {
            Severity::Trace => 0,
            Severity::Debug => 1,
            Severity::Info => 2,
            Severity::Warn => 3,
            Severity::Error => 4,
        }
    }

    /// Reads a severity byte; bytes above 4 name no severity.
    pub fn from_byte(b: u8) -> (r: Option<Severity>)
        ensures
            r == Severity::of_rank(b as int),
            r is Some <==> b <= 4,
    {
        match b {
            0 => Some(Severity::Trace),
            1 => Some(Severity::Debug),
            2 => Some(Severity::Info),
            3 => Some(Severity::Warn),
            4 => Some(Severity::Error),
            _ => None,
        }
    }

    /// Whether `self` is at least as serious as `other`.
    pub fn at_least(self, other: Severity) -> (r: bool)
        ensures
            r == (self.rank() >= other.rank()),
    {
        self.to_byte() >= other.to_byte()
    }
}

impl LevelFilter {
    /// The greatest verbosity that the filter lets through, 0 for `Off`.
    pub open spec fn verbosity(self) -> int {
        match self {
            LevelFilter::Off => 0,
            LevelFilter::Error => 1,
            LevelFilter::Warn => 2,
            LevelFilter::Info => 3,
            LevelFilter::Debug => 4,
            LevelFilter::Trace => 5,
        }
    }

    /// Whether the filter lets `level` through.
    pub open spec fn admits(self, level: Severity) -> bool {
        level.verbosity() <= self.verbosity()
    }

    /// Whether the filter lets `level` through.
    pub fn lets_through(self, level: Severity) -> (r: bool)
        ensures
            r == self.admits(level),
    {
        let limit: u8 = match self {
            LevelFilter::Off => 0,
            LevelFilter::Error => 1,
            LevelFilter::Warn => 2,
            LevelFilter::Info => 3,
            LevelFilter::Debug => 4,
            LevelFilter::Trace => 5,
        };
        5 - level.to_byte() <= limit
    }
}

/// Ranks and severities correspond one to one.
pub proof fn lemma_rank_roundtrip(level: Severity, rank: int)
    ensures
        Severity::of_rank(level.rank()) == Some(level),
        0 <= level.rank() <= 4,
        Severity::of_rank(rank) matches Some(s) ==> s.rank() == rank,
        Severity::of_rank(rank) is Some <==> 0 <= rank <= 4,
{
}

/// A filter that lets a severity through lets every more serious one
/// through as well.
pub proof fn lemma_filter_monotone(filter: LevelFilter, low: Severity, high: Severity)
    requires
        filter.admits(low),
        high.rank() >= low.rank(),
    ensures
        filter.admits(high),
{
}

/// The guard to test before a record is built: a level is enabled when both
/// the limit fixed at build time and the limit set at run time let it
/// through.
pub fn level_enabled(level: Severity, static_max: LevelFilter, runtime_max: LevelFilter) -> (r:
    bool)
    ensures
        r == (static_max.admits(level) && runtime_max.admits(level)),
{
    static_max.lets_through(level) && runtime_max.lets_through(level)
}

/// Trusted: `log::STATIC_MAX_LEVEL`, the limit that the `log` crate was built
/// with, variant for variant. Nothing is claimed of which limit it is.
#[verifier::external_body]
fn static_max_level() -> (r: LevelFilter) {
    match log::STATIC_MAX_LEVEL {
        log::LevelFilter::Off => LevelFilter::Off,
        log::LevelFilter::Error => LevelFilter::Error,
        log::LevelFilter::Warn => LevelFilter::Warn,
        log::LevelFilter::Info => LevelFilter::Info,
        log::LevelFilter::Debug => LevelFilter::Debug,
        log::LevelFilter::Trace => LevelFilter::Trace,
    }
}

/// Trusted: `log::max_level()`, the limit last stored by
/// `log::set_max_level`, variant for variant. It is process-wide state, so
/// nothing is claimed of which limit it is.
#[verifier::external_body]
fn runtime_max_level() -> (r: LevelFilter) {
    match log::max_level() {
        log::LevelFilter::Off => LevelFilter::Off,
        log::LevelFilter::Error => LevelFilter::Error,
        log::LevelFilter::Warn => LevelFilter::Warn,
        log::LevelFilter::Info => LevelFilter::Info,
        log::LevelFilter::Debug => LevelFilter::Debug,
        log::LevelFilter::Trace => LevelFilter::Trace,
    }
}

/// Whether a structured record of the given level is currently worth
/// encoding, by the limits of the `log` crate. The answer is that of
/// `level_enabled` for the two limits in force at the time of the call.
pub fn struct_log_enabled(level: Severity) -> (r: bool)
    ensures
        exists|static_max: LevelFilter, runtime_max: LevelFilter|
            r == (#[trigger] static_max.admits(level) && #[trigger] runtime_max.admits(level)),
{
    let static_max = static_max_level();
    let runtime_max = runtime_max_level();
    level_enabled(level, static_max, runtime_max)
}

} // verus!
