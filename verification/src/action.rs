//! The action vocabulary the key resolver emits.

use vstd::prelude::*;

verus! {

#[derive(Debug, Clone, Copy, PartialEq, Eq, Hash, Structural)]
pub enum Operator {
    Delete,
    Yank,
    Change,
}

impl Operator {
    pub open spec fn key_spec(self) -> char {
        match self {
            Operator::Delete => 'd',
            Operator::Yank => 'y',
            Operator::Change => 'c',
        }
    }

    /// The key that types this operator.
    pub fn key(self) -> (c: char)
        ensures
            c == self.key_spec(),
    {
        match self {
            Operator::Delete => 'd',
            Operator::Yank => 'y',
            Operator::Change => 'c',
        }
    }
}

#[derive(Debug, Clone, Copy, PartialEq, Eq, Hash)]
pub enum Motion {
    Down,
    Up,
    Left,
    Right,
    WordForward,
    WordBackward,
    DocStart,
    /// Last line; with a count, the line to jump to.
    DocEnd,
    LineStart,
    LineEnd,
    /// Target of the linewise operators (`dd`, `yy`, `cc`).
    CurrentLine,
}

#[derive(Debug, Clone, Copy, PartialEq, Eq)]
pub enum Action {
    /// Quit the application.
    Quit,
    /// Bare motion.
    Move { count: usize, motion: Motion },
    /// Operator applied to a motion; `count` is the product of the counts
    /// typed before and after the operator (`2d3w` deletes 6 words).
    Operate { count: usize, op: Operator, motion: Motion },
    /// Activate the current selection.
    Open,
    /// Open the diff from PR detail.
    OpenDiff,
    /// Flip the diff between unified and split layouts.
    ToggleSplitView,
    /// Pop one screen.
    Back,
    /// Jump to the next/previous section.
    JumpSection { count: usize, direction: Direction },
    /// No effect: the key is not bound.
    Unbound,
}

#[derive(Debug, Clone, Copy, PartialEq, Eq)]
pub enum Direction {
    Next,
    Prev,
}

} // verus!
