//! Decisions of the superstructure: which goal it pursues, how an
//! instruction from the operator changes that goal, and what each control
//! cycle asks of the hardware.
//!
//! The functions here move no hardware. For every instruction the caller
//! first asks `request_for` what to do on the hardware side, does it, and
//! hands the answer to `apply_instruction`; once per cycle it does the same
//! with `cycle_preparation` and `resolve_cycle`.

use vstd::prelude::*;
use vstd::std_specs::convert::FromSpecImpl;

verus! {

/// Position of one hatch pneumatic.
#[derive(Debug, Copy, Clone, PartialEq, Eq, Structural)]
pub enum HatchPneumaticExt {
    Extended,
    Retracted,
}

/// Position of the intake pneumatic.
#[derive(Debug, Copy, Clone, PartialEq, Eq, Structural)]
pub enum IntakeExt {
    Ext,
    Retr,
}

impl From<IntakeExt> for bool {
    /// The solenoid value of an intake position: on when extended.
    fn from(intake: IntakeExt) -> (r: bool) {
        match intake {
            IntakeExt::Ext => true,
            IntakeExt::Retr => false,
        }
    }
}

impl FromSpecImpl<IntakeExt> for bool {
    open spec fn obeys_from_spec() -> bool {
        true
    }

    open spec fn from_spec(intake: IntakeExt) -> bool {
        intake == IntakeExt::Ext
    }
}

/// Positions of the two hatch pneumatics.
#[derive(Debug, Copy, Clone, PartialEq, Eq, Structural)]
pub struct HatchState {
    pub extend: HatchPneumaticExt,
    pub outtake: HatchPneumaticExt,
}

impl HatchState {
    /// Both pneumatics retracted.
    pub open spec fn closed_spec() -> HatchState {
        HatchState { extend: HatchPneumaticExt::Retracted, outtake: HatchPneumaticExt::Retracted }
    }

    /// The state in which the hatch mechanism rests: both pneumatics
    /// retracted.
    pub fn closed() -> (r: HatchState)
        ensures
            r == HatchState::closed_spec(),
    {
        HatchState { extend: HatchPneumaticExt::Retracted, outtake: HatchPneumaticExt::Retracted }
    }
}

/// Elevator heights that a ball can be brought to.
#[derive(Debug, Copy, Clone, PartialEq, Eq, Structural)]
pub enum BallGoalHeight {
    /// No height asked for yet: where the elevator waits while a ball is
    /// taken in.
    Unset,
    Cargo,
    Low,
    Med,
    High,
}

/// Elevator heights that a hatch can be brought to.
#[derive(Debug, Copy, Clone, PartialEq, Eq, Structural)]
pub enum HatchGoalHeight {
    Low,
    Med,
    High,
}

impl BallGoalHeight {
    /// Encoder ticks of the elevator at this height, before the fixed
    /// offsets of the carriage are added.
    pub fn ticks(self) -> (t: u32)
        ensures
            t == match self {
                BallGoalHeight::Unset => 100u32,
                BallGoalHeight::Low => 5325u32,
                BallGoalHeight::Cargo => 17100u32,
                BallGoalHeight::Med => 24000u32,
                BallGoalHeight::High => 35100u32,
            },
    {
        match self {
            BallGoalHeight::Unset => 100,
            BallGoalHeight::Low => 5325,
            BallGoalHeight::Cargo => 17100,
            BallGoalHeight::Med => 24000,
            BallGoalHeight::High => 35100,
        }
    }
}

impl HatchGoalHeight {
    /// Encoder ticks of the elevator at this height, before the fixed
    /// offsets of the carriage are added.
    pub fn ticks(self) -> (t: u32)
        ensures
            t == match self {
                HatchGoalHeight::Low => 700u32,
                HatchGoalHeight::Med => 17900u32,
                HatchGoalHeight::High => 35100u32,
            },
    {
        match self {
            HatchGoalHeight::Low => 700,
            HatchGoalHeight::Med => 17900,
            HatchGoalHeight::High => 35100,
        }
    }
}

/// What the superstructure is working towards.
#[derive(Debug, Copy, Clone, PartialEq, Eq, Structural)]
pub enum GoalState {
    Ball(BallGoalHeight),
    Hatch(HatchGoalHeight, HatchState),
}

/// Heights that the operator can ask for.
#[derive(Debug, Copy, Clone, PartialEq, Eq, Structural)]
pub enum UserElevatorHeights {
    Low,
    Med,
    High,
    Cargo,
}

impl UserElevatorHeights {
    /// The hatch height for a requested height. There is no hatch at cargo
    /// height: it is served at the low one.
    pub open spec fn hatch_height(self) -> HatchGoalHeight {
        match self {
            UserElevatorHeights::Cargo => HatchGoalHeight::Low,
            UserElevatorHeights::Low => HatchGoalHeight::Low,
            UserElevatorHeights::Med => HatchGoalHeight::Med,
            UserElevatorHeights::High => HatchGoalHeight::High,
        }
    }

    /// The ball height for a requested height.
    pub open spec fn ball_height(self) -> BallGoalHeight {
        match self {
            UserElevatorHeights::Cargo => BallGoalHeight::Cargo,
            UserElevatorHeights::Low => BallGoalHeight::Low,
            UserElevatorHeights::Med => BallGoalHeight::Med,
            UserElevatorHeights::High => BallGoalHeight::High,
        }
    }

    /// The hatch height for a requested height.
    pub fn into_hatch(self) -> (r: HatchGoalHeight)
        ensures
            r == self.hatch_height(),
    {
        match self {
            UserElevatorHeights::Cargo => HatchGoalHeight::Low,
            UserElevatorHeights::Low => HatchGoalHeight::Low,
            UserElevatorHeights::Med => HatchGoalHeight::Med,
            UserElevatorHeights::High => HatchGoalHeight::High,
        }
    }

    /// The ball height for a requested height.
    pub fn into_ball(self) -> (r: BallGoalHeight)
        ensures
            r == self.ball_height(),
    {
        match self {
            UserElevatorHeights::Cargo => BallGoalHeight::Cargo,
            UserElevatorHeights::Low => BallGoalHeight::Low,
            UserElevatorHeights::Med => BallGoalHeight::Med,
            UserElevatorHeights::High => BallGoalHeight::High,
        }
    }
}

/// What the operator can tell the superstructure.
#[derive(Debug, Copy, Clone, PartialEq, Eq, Structural)]
pub enum Instruction {
    SetElevatorHeight(UserElevatorHeights),
    Unjam(bool),
    BallOuttake(bool),
    BallIntake(bool),
    ForceAbortBall,
    HatchExtend(HatchPneumaticExt),
    HatchOuttake(HatchPneumaticExt),
    Climb(bool),
    BeginElevatorPanic,
    ForceElevatorZero,
}

/// What an instruction asks of the hardware side before the goal is
/// updated. `TryAbortIntake` and `QueryInCarriage` give an answer that
/// `apply_instruction` needs; the others give none that matters.
#[derive(Debug, Copy, Clone, PartialEq, Eq, Structural)]
pub enum Request {
    /// The instruction touches the goal alone.
    Nothing,
    /// Switch the unjam routine on or off.
    SetUnjam(bool),
    /// Try to abort the ball intake; the answer is whether it was aborted.
    TryAbortIntake,
    /// Ask the channel whether the ball is in the carriage.
    QueryInCarriage,
    /// Try to start the ball outtake.
    TryInitOuttake,
    /// Try to stop the ball outtake.
    TryStopOuttake,
    /// Abort whatever the channel does.
    ForceAbort,
    /// Set the climb solenoid.
    Climb(bool),
    /// Try to start the elevator's panic routine.
    ElevatorPanic,
    /// Force the elevator to find its zero again.
    ElevatorZero,
}

impl GoalState {
    /// The goal at start-up, and the goal that every abort falls back to: a
    /// hatch at the low height with the mechanism closed.
    pub open spec fn rest() -> GoalState {
        GoalState::Hatch(HatchGoalHeight::Low, HatchState::closed_spec())
    }

    /// The goal at start-up.
    pub fn initial() -> (r: GoalState)
        ensures
            r == GoalState::rest(),
    {
        GoalState::Hatch(HatchGoalHeight::Low, HatchState::closed())
    }
}

/// What `msg` asks of the hardware side while the goal is `goal`.
pub open spec fn request_spec(goal: GoalState, msg: Instruction) -> Request {
    match msg {
        Instruction::HatchExtend(_) => Request::Nothing,
        Instruction::HatchOuttake(_) => Request::Nothing,
        Instruction::Unjam(on) => Request::SetUnjam(on),
        Instruction::BallIntake(true) => Request::Nothing,
        Instruction::BallIntake(false) => Request::TryAbortIntake,
        Instruction::SetElevatorHeight(_) => match goal {
            GoalState::Hatch(_, _) => Request::Nothing,
            GoalState::Ball(_) => Request::QueryInCarriage,
        },
        Instruction::BallOuttake(true) => Request::TryInitOuttake,
        Instruction::BallOuttake(false) => Request::TryStopOuttake,
        Instruction::ForceAbortBall => Request::ForceAbort,
        Instruction::Climb(extend) => Request::Climb(extend),
        Instruction::BeginElevatorPanic => Request::ElevatorPanic,
        Instruction::ForceElevatorZero => Request::ElevatorZero,
    }
}

/// The goal after `msg`, where `answer` is what the hardware side answered
/// to the request that `msg` made.
pub open spec fn next_goal(goal: GoalState, msg: Instruction, answer: bool) -> GoalState {
    match msg {
        Instruction::HatchExtend(ext) => match goal {
            GoalState::Hatch(height, state) => GoalState::Hatch(
                height,
                HatchState { extend: ext, outtake: state.outtake },
            ),
            GoalState::Ball(_) => goal,
        },
        Instruction::HatchOuttake(ext) => match goal {
            GoalState::Hatch(height, state) => GoalState::Hatch(
                height,
                HatchState { extend: state.extend, outtake: ext },
            ),
            GoalState::Ball(_) => goal,
        },
        Instruction::BallIntake(true) => GoalState::Ball(BallGoalHeight::Unset),
        Instruction::BallIntake(false) => if answer {
            GoalState::rest()
        } else {
            goal
        },
        Instruction::SetElevatorHeight(wanted) => match goal {
            GoalState::Hatch(_, state) => GoalState::Hatch(wanted.hatch_height(), state),
            GoalState::Ball(_) => if answer {
                GoalState::Ball(wanted.ball_height())
            } else {
                goal
            },
        },
        Instruction::ForceAbortBall => GoalState::rest(),
        _ => goal,
    }
}

/// What `msg` asks of the hardware side while the goal is `goal`.
pub fn request_for(goal: &GoalState, msg: &Instruction) -> (r: Request)
    ensures
        r == request_spec(*goal, *msg),
{
    match *msg {
        Instruction::HatchExtend(_) => Request::Nothing,
        Instruction::HatchOuttake(_) => Request::Nothing,
        Instruction::Unjam(on) => Request::SetUnjam(on),
        Instruction::BallIntake(start) => if start {
            Request::Nothing
        } else {
            Request::TryAbortIntake
        },
        Instruction::SetElevatorHeight(_) => match *goal {
            GoalState::Hatch(_, _) => Request::Nothing,
            GoalState::Ball(_) => Request::QueryInCarriage,
        },
        Instruction::BallOuttake(start) => if start {
            Request::TryInitOuttake
        } else {
            Request::TryStopOuttake
        },
        Instruction::ForceAbortBall => Request::ForceAbort,
        Instruction::Climb(extend) => Request::Climb(extend),
        Instruction::BeginElevatorPanic => Request::ElevatorPanic,
        Instruction::ForceElevatorZero => Request::ElevatorZero,
    }
}

/// The goal after `msg`, where `answer` is what the hardware side answered
/// to the request that `msg` made (for a request without an answer, either
/// value).
pub fn apply_instruction(goal: GoalState, msg: Instruction, answer: bool) -> (r: GoalState)
    ensures
        r == next_goal(goal, msg, answer),
{
    match msg {
        Instruction::HatchExtend(ext) => match goal {
            GoalState::Hatch(height, state) => GoalState::Hatch(
                height,
                HatchState { extend: ext, outtake: state.outtake },
            ),
            GoalState::Ball(_) => goal,
        },
        Instruction::HatchOuttake(ext) => match goal {
            GoalState::Hatch(height, state) => GoalState::Hatch(
                height,
                HatchState { extend: state.extend, outtake: ext },
            ),
            GoalState::Ball(_) => goal,
        },
        Instruction::BallIntake(start) => if start {
            GoalState::Ball(BallGoalHeight::Unset)
        } else if answer {
            GoalState::initial()
        } else {
            goal
        },
        Instruction::SetElevatorHeight(wanted) => match goal {
            GoalState::Hatch(_, state) => GoalState::Hatch(wanted.into_hatch(), state),
            GoalState::Ball(_) => if answer {
                GoalState::Ball(wanted.into_ball())
            } else {
                goal
            },
        },
        Instruction::ForceAbortBall => GoalState::initial(),
        _ => goal,
    }
}

/// An instruction to the hatch pneumatics never changes a ball goal, and no
/// instruction but a ball intake turns a hatch goal into a ball goal.
pub proof fn lemma_goal_kind(goal: GoalState, msg: Instruction, answer: bool)
    ensures
        goal is Ball && (msg is HatchExtend || msg is HatchOuttake) ==> next_goal(
            goal,
            msg,
            answer,
        ) == goal,
        goal is Hatch && next_goal(goal, msg, answer) is Ball ==> msg == Instruction::BallIntake(
            true,
        ),
        request_spec(goal, msg) != Request::Nothing && request_spec(goal, msg)
            != Request::TryAbortIntake && request_spec(goal, msg) != Request::QueryInCarriage
            && msg != Instruction::ForceAbortBall ==> next_goal(goal, msg, answer) == goal,
{
}

/// Where the elevator is sent in a cycle.
#[derive(Debug, Copy, Clone, PartialEq, Eq, Structural)]
pub enum ElevatorTarget {
    /// The bottom: no height was asked for in this cycle.
    Floor,
    Hatch(HatchGoalHeight),
    Ball(BallGoalHeight),
}

/// What a cycle starts with on the hardware side, before the channel is
/// asked whether it is done.
#[derive(Debug, Copy, Clone, PartialEq, Eq, Structural)]
pub enum Preparation {
    /// A hatch goal needs nothing first.
    Nothing,
    /// A ball goal closes the hatch mechanism and makes sure the channel
    /// runs; then the channel is asked whether it is done.
    CloseHatchAndStartChannel,
}

/// What a cycle does on the hardware side once the goal is settled.
#[derive(Debug, Copy, Clone, PartialEq, Eq, Structural)]
pub struct CyclePlan {
    /// Where the elevator goes.
    pub elevator: ElevatorTarget,
    /// The hatch state to set, where the goal is a hatch.
    pub hatch: Option<HatchState>,
    /// Whether the channel is reset because its ball is handled.
    pub reset_channel: bool,
    /// Whether the channel reads its sensors in this cycle.
    pub process_sensors: bool,
    /// Whether the channel, reading its sensors, is told whether the
    /// elevator holds its position (else it is told that it does not).
    pub report_holding: bool,
}

/// What a cycle starts with for `goal`.
pub fn cycle_preparation(goal: &GoalState) -> (r: Preparation)
    ensures
        r == match *goal {
            GoalState::Hatch(_, _) => Preparation::Nothing,
            GoalState::Ball(_) => Preparation::CloseHatchAndStartChannel,
        },
{
    match *goal {
        GoalState::Hatch(_, _) => Preparation::Nothing,
        GoalState::Ball(_) => Preparation::CloseHatchAndStartChannel,
    }
}

/// The goal after a cycle in which the channel answered `channel_done`.
pub open spec fn goal_after_cycle(goal: GoalState, channel_done: bool) -> GoalState {
    match goal {
        GoalState::Hatch(_, _) => goal,
        GoalState::Ball(_) => if channel_done {
            GoalState::rest()
        } else {
            goal
        },
    }
}

/// The plan of a cycle in which the channel answered `channel_done`.
pub open spec fn plan_of_cycle(goal: GoalState, channel_done: bool) -> CyclePlan {
    match goal {
        GoalState::Hatch(height, state) => CyclePlan {
            elevator: ElevatorTarget::Hatch(height),
            hatch: Some(state),
            reset_channel: false,
            process_sensors: true,
            report_holding: false,
        },
        GoalState::Ball(height) => if channel_done {
            CyclePlan {
                elevator: ElevatorTarget::Floor,
                hatch: None,
                reset_channel: true,
                process_sensors: false,
                report_holding: false,
            }
        } else {
            CyclePlan {
                elevator: ElevatorTarget::Ball(height),
                hatch: None,
                reset_channel: false,
                process_sensors: true,
                report_holding: true,
            }
        },
    }
}

/// Settles a cycle: with a hatch goal the elevator goes to the hatch height
/// and the hatch state is set; with a ball goal whose channel is done the
/// goal falls back to rest and the channel is reset; with a ball goal still
/// under way the elevator goes to the ball height. `channel_done` is read
/// only for a ball goal.
pub fn resolve_cycle(goal: &mut GoalState, channel_done: bool) -> (plan: CyclePlan)
    ensures
        *final(goal) == goal_after_cycle(*old(goal), channel_done),
        plan == plan_of_cycle(*old(goal), channel_done),
{
    match *goal {
        GoalState::Hatch(height, state) => CyclePlan {
            elevator: ElevatorTarget::Hatch(height),
            hatch: Some(state),
            reset_channel: false,
            process_sensors: true,
            report_holding: false,
        },
        GoalState::Ball(height) => {
            if channel_done {
                *goal = GoalState::initial();
                CyclePlan {
                    elevator: ElevatorTarget::Floor,
                    hatch: None,
                    reset_channel: true,
                    process_sensors: false,
                    report_holding: false,
                }
            } else {
                CyclePlan {
                    elevator: ElevatorTarget::Ball(height),
                    hatch: None,
                    reset_channel: false,
                    process_sensors: true,
                    report_holding: true,
                }
            }
        },
    }
}

/// Remembers what a solenoid was last set to, so that it is written only
/// when the value changes.
#[derive(Debug, Copy, Clone, PartialEq, Eq, Structural)]
pub struct SolenoidCache {
    /// The value last written.
    pub state: bool,
}

impl SolenoidCache {
    /// The cache of a solenoid that was just switched off.
    pub fn new() -> (r: SolenoidCache)
        ensures
            r.state == false,
    {
        SolenoidCache { state: false }
    }

    /// Records that the solenoid is to be `value` and says whether it has to
    /// be written: only when it was something else.
    pub fn set(&mut self, value: bool) -> (write: bool)
        ensures
            write == (value != old(self).state),
            final(self).state == value,
    {
        if value == self.state {
            return false;
        }
        self.state = value;
        true
    }
}

/// Counts control cycles and says when the pressure report is due: in the
/// first cycle after more than 100 cycles without one.
#[derive(Debug, Copy, Clone, PartialEq, Eq)]
pub struct ReportCadence {
    count: u32,
}

impl ReportCadence {
    #[verifier::type_invariant]
    spec fn bounded(self) -> bool {
        self.count <= 101
    }

    /// Cycles counted since the last report.
    pub closed spec fn cycles(self) -> int {
        self.count as int
    }

    /// A cadence that has counted no cycle.
    pub fn new() -> (r: ReportCadence)
        ensures
            r.cycles() == 0,
    {
        ReportCadence { count: 0 }
    }

    /// Counts one cycle and says whether the report is due in it.
    pub fn tick(&mut self) -> (due: bool)
        ensures
            due == (old(self).cycles() > 100),
            final(self).cycles() == if due {
                1
            } else {
                old(self).cycles() + 1
            },
    {
        proof {
            use_type_invariant(&*self);
        }
        let due = self.count > 100;
        if due {
            self.count = 1;
        } else {
            self.count = self.count + 1;
        }
        due
    }
}

} // verus!
