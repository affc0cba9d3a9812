//! From resolved key actions to reducer messages.

use vstd::prelude::*;

use crate::action::{Action, Direction, Motion};
use crate::msg::{JumpDirection, Msg, SelectionJump};

verus! {

/// A count as a selection delta, capped at `i32::MAX`.
pub open spec fn count_delta(count: usize) -> i32 {
    if count > i32::MAX {
        i32::MAX
    } else {
        count as i32
    }
}

/// The message an action maps to, if any. Vertical motions move the
/// selection, `gg`/`G` jump to the ends, `l`/`h` go into / back out of a
/// screen; other motions and operators are unbound here.
pub open spec fn action_msg(action: Action) -> Option<Msg> {
    match action {
        Action::Quit => Some(Msg::Quit),
        Action::Open => Some(Msg::OpenSelectedPr),
        Action::OpenDiff => Some(Msg::OpenDiff),
        Action::ToggleSplitView => Some(Msg::ToggleDiffViewMode),
        Action::Back => Some(Msg::Back),
        Action::JumpSection { count, direction } => Some(
            Msg::SectionJump {
                count,
                direction: match direction {
                    Direction::Next => JumpDirection::Next,
                    Direction::Prev => JumpDirection::Prev,
                },
            },
        ),
        Action::Unbound => None,
        Action::Move { count, motion } => match motion {
            Motion::Down => Some(Msg::SelectionDelta(count_delta(count))),
            Motion::Up => Some(Msg::SelectionDelta((-count_delta(count)) as i32)),
            Motion::DocStart => Some(Msg::SelectionJump(SelectionJump::First)),
            Motion::DocEnd => Some(Msg::SelectionJump(SelectionJump::Last)),
            Motion::Right => Some(Msg::OpenSelectedPr),
            Motion::Left => Some(Msg::Back),
            _ => None,
        },
        Action::Operate { .. } => None,
    }
}

fn delta_of(count: usize) -> (d: i32)
    ensures
        d == count_delta(count),
{
    if count > 2147483647 {
        2147483647
    } else {
        count as i32
    }
}

/// Map a resolved action to a domain message, where one applies.
pub fn action_to_msg(action: Action) -> (m: Option<Msg>)
    ensures
        m == action_msg(action),
{
    match action {
        Action::Quit => Some(Msg::Quit),
        Action::Open => Some(Msg::OpenSelectedPr),
        Action::OpenDiff => Some(Msg::OpenDiff),
        Action::ToggleSplitView => Some(Msg::ToggleDiffViewMode),
        Action::Back => Some(Msg::Back),
        Action::JumpSection { count, direction } => Some(
            Msg::SectionJump {
                count,
                direction: match direction {
                    Direction::Next => JumpDirection::Next,
                    Direction::Prev => JumpDirection::Prev,
                },
            },
        ),
        Action::Unbound => None,
        Action::Move { count, motion } => match motion {
            Motion::Down => Some(Msg::SelectionDelta(delta_of(count))),
            Motion::Up => Some(Msg::SelectionDelta(-delta_of(count))),
            Motion::DocStart => Some(Msg::SelectionJump(SelectionJump::First)),
            Motion::DocEnd => Some(Msg::SelectionJump(SelectionJump::Last)),
            Motion::Right => Some(Msg::OpenSelectedPr),
            Motion::Left => Some(Msg::Back),
            _ => None,
        },
        Action::Operate { .. } => None,
    }
}

} // verus!
