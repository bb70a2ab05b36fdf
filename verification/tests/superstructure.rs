use ert::{
    apply_instruction, cycle_preparation, goal_from_fields, goal_to_fields, request_for,
    resolve_cycle, BallGoalHeight, ElevatorTarget, GoalState, HatchGoalHeight, HatchPneumaticExt,
    HatchState, Instruction, IntakeExt, Preparation, ReportCadence, Request, SolenoidCache,
    UserElevatorHeights,
};

fn open_hatch() -> HatchState {
    HatchState { extend: HatchPneumaticExt::Extended, outtake: HatchPneumaticExt::Retracted }
}

#[test]
fn requested_heights_map_to_hatch_heights() {
    assert_eq!(UserElevatorHeights::Cargo.into_hatch(), HatchGoalHeight::Low);
    assert_eq!(UserElevatorHeights::Low.into_hatch(), HatchGoalHeight::Low);
    assert_eq!(UserElevatorHeights::Med.into_hatch(), HatchGoalHeight::Med);
    assert_eq!(UserElevatorHeights::High.into_hatch(), HatchGoalHeight::High);
}

#[test]
fn requested_heights_map_to_ball_heights() {
    assert_eq!(UserElevatorHeights::Cargo.into_ball(), BallGoalHeight::Cargo);
    assert_eq!(UserElevatorHeights::Low.into_ball(), BallGoalHeight::Low);
    assert_eq!(UserElevatorHeights::Med.into_ball(), BallGoalHeight::Med);
    assert_eq!(UserElevatorHeights::High.into_ball(), BallGoalHeight::High);
}

#[test]
fn intake_position_as_solenoid_value() {
    assert!(bool::from(IntakeExt::Ext));
    assert!(!bool::from(IntakeExt::Retr));
    let on: bool = IntakeExt::Ext.into();
    assert!(on);
}

#[test]
fn heights_in_encoder_ticks() {
    assert_eq!(BallGoalHeight::Unset.ticks(), 100);
    assert_eq!(BallGoalHeight::Low.ticks(), 5325);
    assert_eq!(BallGoalHeight::Cargo.ticks(), 17100);
    assert_eq!(BallGoalHeight::Med.ticks(), 24000);
    assert_eq!(BallGoalHeight::High.ticks(), 35100);
    assert_eq!(HatchGoalHeight::Low.ticks(), 700);
    assert_eq!(HatchGoalHeight::Med.ticks(), 17900);
    assert_eq!(HatchGoalHeight::High.ticks(), 35100);
}

#[test]
fn superstructure_starts_at_rest() {
    assert_eq!(
        GoalState::initial(),
        GoalState::Hatch(
            HatchGoalHeight::Low,
            HatchState {
                extend: HatchPneumaticExt::Retracted,
                outtake: HatchPneumaticExt::Retracted
            }
        )
    );
    assert_eq!(HatchState::closed().extend, HatchPneumaticExt::Retracted);
}

#[test]
fn hatch_instructions_change_a_hatch_goal_only() {
    let hatch = GoalState::initial();
    let ball = GoalState::Ball(BallGoalHeight::Med);
    let extend = Instruction::HatchExtend(HatchPneumaticExt::Extended);
    let outtake = Instruction::HatchOuttake(HatchPneumaticExt::Extended);
    assert_eq!(request_for(&hatch, &extend), Request::Nothing);
    assert_eq!(
        apply_instruction(hatch, extend, false),
        GoalState::Hatch(HatchGoalHeight::Low, open_hatch())
    );
    assert_eq!(
        apply_instruction(hatch, outtake, true),
        GoalState::Hatch(
            HatchGoalHeight::Low,
            HatchState {
                extend: HatchPneumaticExt::Retracted,
                outtake: HatchPneumaticExt::Extended
            }
        )
    );
    assert_eq!(apply_instruction(ball, extend, true), ball);
    assert_eq!(apply_instruction(ball, outtake, false), ball);
}

#[test]
fn ball_intake_starts_and_aborts() {
    let hatch = GoalState::Hatch(HatchGoalHeight::High, open_hatch());
    let start = Instruction::BallIntake(true);
    let stop = Instruction::BallIntake(false);
    assert_eq!(request_for(&hatch, &start), Request::Nothing);
    let ball = apply_instruction(hatch, start, false);
    assert_eq!(ball, GoalState::Ball(BallGoalHeight::Unset));
    assert_eq!(request_for(&ball, &stop), Request::TryAbortIntake);
    assert_eq!(apply_instruction(ball, stop, false), ball);
    assert_eq!(apply_instruction(ball, stop, true), GoalState::initial());
    assert_eq!(apply_instruction(hatch, stop, true), GoalState::initial());
    assert_eq!(apply_instruction(hatch, stop, false), hatch);
}

#[test]
fn elevator_height_follows_the_kind_of_goal() {
    let hatch = GoalState::Hatch(HatchGoalHeight::Low, open_hatch());
    let ball = GoalState::Ball(BallGoalHeight::Unset);
    let up = Instruction::SetElevatorHeight(UserElevatorHeights::High);
    let cargo = Instruction::SetElevatorHeight(UserElevatorHeights::Cargo);
    assert_eq!(request_for(&hatch, &up), Request::Nothing);
    assert_eq!(request_for(&ball, &up), Request::QueryInCarriage);
    assert_eq!(
        apply_instruction(hatch, up, false),
        GoalState::Hatch(HatchGoalHeight::High, open_hatch())
    );
    assert_eq!(
        apply_instruction(GoalState::Hatch(HatchGoalHeight::High, open_hatch()), cargo, false),
        GoalState::Hatch(HatchGoalHeight::Low, open_hatch())
    );
    assert_eq!(apply_instruction(ball, up, false), ball);
    assert_eq!(apply_instruction(ball, up, true), GoalState::Ball(BallGoalHeight::High));
    assert_eq!(apply_instruction(ball, cargo, true), GoalState::Ball(BallGoalHeight::Cargo));
}

#[test]
fn force_abort_falls_back_to_rest() {
    let ball = GoalState::Ball(BallGoalHeight::High);
    assert_eq!(request_for(&ball, &Instruction::ForceAbortBall), Request::ForceAbort);
    assert_eq!(apply_instruction(ball, Instruction::ForceAbortBall, false), GoalState::initial());
    let hatch = GoalState::Hatch(HatchGoalHeight::Med, open_hatch());
    assert_eq!(apply_instruction(hatch, Instruction::ForceAbortBall, true), GoalState::initial());
}

#[test]
fn hardware_only_instructions_leave_the_goal() {
    let goals = [GoalState::Ball(BallGoalHeight::Low), GoalState::Hatch(HatchGoalHeight::Med, open_hatch())];
    let cases = [
        (Instruction::Unjam(true), Request::SetUnjam(true)),
        (Instruction::Unjam(false), Request::SetUnjam(false)),
        (Instruction::BallOuttake(true), Request::TryInitOuttake),
        (Instruction::BallOuttake(false), Request::TryStopOuttake),
        (Instruction::Climb(true), Request::Climb(true)),
        (Instruction::Climb(false), Request::Climb(false)),
        (Instruction::BeginElevatorPanic, Request::ElevatorPanic),
        (Instruction::ForceElevatorZero, Request::ElevatorZero),
    ];
    for goal in goals {
        for (msg, request) in cases {
            assert_eq!(request_for(&goal, &msg), request);
            assert_eq!(apply_instruction(goal, msg, true), goal);
            assert_eq!(apply_instruction(goal, msg, false), goal);
        }
    }
}

#[test]
fn hatch_cycle_sets_height_and_hatch() {
    let mut goal = GoalState::Hatch(HatchGoalHeight::Med, open_hatch());
    assert_eq!(cycle_preparation(&goal), Preparation::Nothing);
    let plan = resolve_cycle(&mut goal, true);
    assert_eq!(goal, GoalState::Hatch(HatchGoalHeight::Med, open_hatch()));
    assert_eq!(plan.elevator, ElevatorTarget::Hatch(HatchGoalHeight::Med));
    assert_eq!(plan.hatch, Some(open_hatch()));
    assert!(!plan.reset_channel);
    assert!(plan.process_sensors);
    assert!(!plan.report_holding);
}

#[test]
fn ball_cycle_runs_until_the_channel_is_done() {
    let mut goal = GoalState::Ball(BallGoalHeight::Cargo);
    assert_eq!(cycle_preparation(&goal), Preparation::CloseHatchAndStartChannel);
    let plan = resolve_cycle(&mut goal, false);
    assert_eq!(goal, GoalState::Ball(BallGoalHeight::Cargo));
    assert_eq!(plan.elevator, ElevatorTarget::Ball(BallGoalHeight::Cargo));
    assert_eq!(plan.hatch, None);
    assert!(!plan.reset_channel);
    assert!(plan.process_sensors);
    assert!(plan.report_holding);
    let plan = resolve_cycle(&mut goal, true);
    assert_eq!(goal, GoalState::initial());
    assert_eq!(plan.elevator, ElevatorTarget::Floor);
    assert_eq!(plan.hatch, None);
    assert!(plan.reset_channel);
    assert!(!plan.process_sensors);
    assert!(!plan.report_holding);
}

#[test]
fn solenoid_is_written_only_on_change() {
    let mut cache = SolenoidCache::new();
    assert!(!cache.state);
    assert!(!cache.set(false));
    assert!(cache.set(true));
    assert!(cache.state);
    assert!(!cache.set(true));
    assert!(cache.set(false));
    assert!(!cache.state);
}

#[test]
fn pressure_report_is_due_every_101_cycles() {
    let mut cadence = ReportCadence::new();
    let mut due_at: Vec<u32> = Vec::new();
    for cycle in 1..=400u32 {
        if cadence.tick() {
            due_at.push(cycle);
        }
    }
    assert_eq!(due_at, vec![102, 203, 304]);
}

#[test]
fn goal_fields_round_trip() {
    let heights = [HatchGoalHeight::Low, HatchGoalHeight::Med, HatchGoalHeight::High];
    let positions = [HatchPneumaticExt::Extended, HatchPneumaticExt::Retracted];
    for h in heights {
        for e in positions {
            for o in positions {
                let goal = GoalState::Hatch(h, HatchState { extend: e, outtake: o });
                assert_eq!(goal_from_fields(&goal_to_fields(&goal)), Some(goal));
            }
        }
    }
    for h in [
        BallGoalHeight::Unset,
        BallGoalHeight::Cargo,
        BallGoalHeight::Low,
        BallGoalHeight::Med,
        BallGoalHeight::High,
    ] {
        let goal = GoalState::Ball(h);
        assert_eq!(goal_from_fields(&goal_to_fields(&goal)), Some(goal));
    }
}

#[test]
fn goal_fields_are_byte_exact() {
    assert_eq!(goal_to_fields(&GoalState::Ball(BallGoalHeight::High)), [0, 4, 0, 0]);
    assert_eq!(goal_to_fields(&GoalState::Ball(BallGoalHeight::Unset)), [0, 0, 0, 0]);
    assert_eq!(
        goal_to_fields(&GoalState::Hatch(HatchGoalHeight::High, open_hatch())),
        [1, 2, 1, 0]
    );
    assert_eq!(goal_from_fields(&[0, 5, 0, 0]), None);
    assert_eq!(goal_from_fields(&[0, 1, 1, 0]), None);
    assert_eq!(goal_from_fields(&[1, 3, 0, 0]), None);
    assert_eq!(goal_from_fields(&[1, 0, 2, 0]), None);
    assert_eq!(goal_from_fields(&[2, 0, 0, 0]), None);
    assert_eq!(goal_from_fields(&[1, 0, 0]), None);
    assert_eq!(goal_from_fields(&[1, 0, 0, 0, 0]), None);
}
