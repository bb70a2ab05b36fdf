//! The goal of the superstructure as a structured record: the one record
//! type that the library itself logs.
//!
//! Its fields are four bytes: the kind of goal (0 for a ball, 1 for a
//! hatch), the height (counted from the lowest), and, for a hatch, the
//! positions of the extend and outtake pneumatics (1 for extended).

use crate::envelope::{RecordCodec, SchemaTag};
use crate::superstructure::{
    BallGoalHeight, GoalState, HatchGoalHeight, HatchPneumaticExt, HatchState,
};
use vstd::prelude::*;

verus! {

/// The schema tag of a goal record: the one tag that no registry hands out.
pub const GOAL_SCHEMA: u8 = 255;

/// The byte that stands for a ball height.
pub open spec fn ball_height_byte(height: BallGoalHeight) -> u8 {
    match height {
        BallGoalHeight::Unset => 0,
        BallGoalHeight::Cargo => 1,
        BallGoalHeight::Low => 2,
        BallGoalHeight::Med => 3,
        BallGoalHeight::High => 4,
    }
}

/// The byte that stands for a hatch height.
pub open spec fn hatch_height_byte(height: HatchGoalHeight) -> u8 {
    match height {
        HatchGoalHeight::Low => 0,
        HatchGoalHeight::Med => 1,
        HatchGoalHeight::High => 2,
    }
}

/// The byte that stands for the position of a pneumatic.
pub open spec fn pneumatic_byte(position: HatchPneumaticExt) -> u8 {
    match position {
        HatchPneumaticExt::Extended => 1,
        HatchPneumaticExt::Retracted => 0,
    }
}

/// The four field bytes of a goal.
pub open spec fn goal_fields(goal: GoalState) -> Seq<u8> {
    match goal {
        GoalState::Ball(height) => seq![0u8, ball_height_byte(height), 0u8, 0u8],
        GoalState::Hatch(height, state) => seq![
            1u8,
            hatch_height_byte(height),
            pneumatic_byte(state.extend),
            pneumatic_byte(state.outtake),
        ],
    }
}

/// The goal that field bytes stand for, if they stand for one.
pub open spec fn parse_goal(fields: Seq<u8>) -> Option<GoalState> {
    if fields.len() != 4 {
        None
    } else if fields[0] == 0 && fields[1] <= 4 && fields[2] == 0 && fields[3] == 0 {
        Some(
            GoalState::Ball(
                if fields[1] == 0 {
                    BallGoalHeight::Unset
                } else if fields[1] == 1 {
                    BallGoalHeight::Cargo
                } else if fields[1] == 2 {
                    BallGoalHeight::Low
                } else if fields[1] == 3 {
                    BallGoalHeight::Med
                } else {
                    BallGoalHeight::High
                },
            ),
        )
    } else if fields[0] == 1 && fields[1] <= 2 && fields[2] <= 1 && fields[3] <= 1 {
        Some(
            GoalState::Hatch(
                if fields[1] == 0 {
                    HatchGoalHeight::Low
                } else if fields[1] == 1 {
                    HatchGoalHeight::Med
                } else {
                    HatchGoalHeight::High
                },
                HatchState {
                    extend: if fields[2] == 1 {
                        HatchPneumaticExt::Extended
                    } else {
                        HatchPneumaticExt::Retracted
                    },
                    outtake: if fields[3] == 1 {
                        HatchPneumaticExt::Extended
                    } else {
                        HatchPneumaticExt::Retracted
                    },
                },
            ),
        )
    } else {
        None
    }
}

/// Goals and their field bytes correspond one to one.
pub proof fn lemma_goal_fields_roundtrip(goal: GoalState, fields: Seq<u8>)
    ensures
        goal_fields(goal).len() == 4,
        parse_goal(goal_fields(goal)) == Some(goal),
        parse_goal(fields) matches Some(g) ==> goal_fields(g) == fields,
{
    if let Some(g) = parse_goal(fields) {
        assert(goal_fields(g) =~= fields);
    }
}

fn pneumatic_to_byte(position: HatchPneumaticExt) -> (b: u8)
    ensures
        b == pneumatic_byte(position),
{
    match position {
        HatchPneumaticExt::Extended => 1,
        HatchPneumaticExt::Retracted => 0,
    }
}

fn pneumatic_of_byte(b: u8) -> (position: HatchPneumaticExt)
    ensures
        position == if b == 1 {
            HatchPneumaticExt::Extended
        } else {
            HatchPneumaticExt::Retracted
        },
{
    if b == 1 {
        HatchPneumaticExt::Extended
    } else {
        HatchPneumaticExt::Retracted
    }
}

/// The four field bytes of `goal`.
pub fn goal_to_fields(goal: &GoalState) -> (fields: [u8; 4])
    ensures
        fields@ == goal_fields(*goal),
{
    let fields: [u8; 4] = match *goal {
        GoalState::Ball(height) => {
            let h: u8 = match height {
                BallGoalHeight::Unset => 0,
                BallGoalHeight::Cargo => 1,
                BallGoalHeight::Low => 2,
                BallGoalHeight::Med => 3,
                BallGoalHeight::High => 4,
            };
            [0u8, h, 0u8, 0u8]
        },
        GoalState::Hatch(height, state) => {
            let h: u8 = match height {
                HatchGoalHeight::Low => 0,
                HatchGoalHeight::Med => 1,
                HatchGoalHeight::High => 2,
            };
            [1u8, h, pneumatic_to_byte(state.extend), pneumatic_to_byte(state.outtake)]
        },
    };
    assert(fields@ =~= goal_fields(*goal));
    fields
}

/// Reads a goal back from the fields of a goal record. Bytes that stand
/// for no goal give nothing.
pub fn goal_from_fields(fields: &[u8]) -> (goal: Option<GoalState>)
    ensures
        goal == parse_goal(fields@),
{
    if fields.len() != 4 {
        return None;
    }
    let kind = fields[0];
    let height = fields[1];
    let extend = fields[2];
    let outtake = fields[3];
    if kind == 0 && height <= 4 && extend == 0 && outtake == 0 {
        let h = if height == 0 {
            BallGoalHeight::Unset
        } else if height == 1 {
            BallGoalHeight::Cargo
        } else if height == 2 {
            BallGoalHeight::Low
        } else if height == 3 {
            BallGoalHeight::Med
        } else {
            BallGoalHeight::High
        };
        Some(GoalState::Ball(h))
    } else if kind == 1 && height <= 2 && extend <= 1 && outtake <= 1 {
        let h = if height == 0 {
            HatchGoalHeight::Low
        } else if height == 1 {
            HatchGoalHeight::Med
        } else {
            HatchGoalHeight::High
        };
        Some(
            GoalState::Hatch(
                h,
                HatchState {
                    extend: pneumatic_of_byte(extend),
                    outtake: pneumatic_of_byte(outtake),
                },
            ),
        )
    } else {
        None
    }
}

impl RecordCodec for GoalState {
    open spec fn schema(&self) -> u8 {
        GOAL_SCHEMA
    }

    open spec fn fields(&self) -> Seq<u8> {
        goal_fields(*self)
    }

    fn schema_tag(&self) -> (tag: SchemaTag) {
        SchemaTag::new(GOAL_SCHEMA).unwrap()
    }

    fn encode_fields(&self, buf: &mut [u8; 512]) -> (written: Option<u16>) {
        let fields = goal_to_fields(self);
        buf[0] = fields[0];
        buf[1] = fields[1];
        buf[2] = fields[2];
        buf[3] = fields[3];
        assert(buf@.subrange(0, 4) =~= goal_fields(*self));
        assert(buf@.subrange(4, 512) =~= old(buf)@.subrange(4, 512));
        Some(4)
    }
}

} // verus!
