//! Vim-style key resolver: key sequences to [`Action`]s through a small
//! grammar with counts, operators and a `g` prefix.
//!
//! ```text
//! command   := count? ( motion | operator count? motion-or-self )
//! count     := digit+ ; a bare `0` is the line-start motion
//! motion    := h | j | k | l | w | b | gg | G | 0 | $
//! operator  := d | y | c
//! ```
//!
//! `<op><op>` operates on the current line; `<count1><op><count2><motion>`
//! multiplies the counts.

use vstd::prelude::*;

use crate::action::{Action, Motion, Operator};
use crate::keys::{KeyCode, KeyEvent};
use crate::text::{decimal, push_char, push_decimal};

verus! {

#[derive(Debug, Clone, Copy, PartialEq, Eq)]
pub enum Resolution {
    /// More input is expected.
    Pending,
    /// A complete command resolved.
    Action(Action),
    /// A partial command was aborted; the resolver is empty again.
    Cancel,
}

/// The partially typed command.
#[derive(Debug, Clone, Copy, PartialEq, Eq)]
pub struct PendingCommand {
    pub count1: Option<usize>,
    pub operator: Option<Operator>,
    pub count2: Option<usize>,
    /// `g` was pressed once; waiting for the second key.
    pub g_partial: bool,
}

impl PendingCommand {
    pub open spec fn empty() -> PendingCommand {
        PendingCommand { count1: None, operator: None, count2: None, g_partial: false }
    }

    pub open spec fn is_empty_spec(self) -> bool {
        self.count1 is None && self.operator is None && self.count2 is None && !self.g_partial
    }

    pub fn new() -> (p: PendingCommand)
        ensures
            p == PendingCommand::empty(),
    {
        PendingCommand { count1: None, operator: None, count2: None, g_partial: false }
    }

    pub fn is_empty(&self) -> (b: bool)
        ensures
            b == self.is_empty_spec(),
    {
        self.count1.is_none() && self.operator.is_none() && self.count2.is_none()
            && !self.g_partial
    }
}

/// `count.unwrap_or(1)`.
pub open spec fn count_or_one(c: Option<usize>) -> int {
    match c {
        Some(n) => n as int,
        None => 1,
    }
}

/// The counts multiply without overflow.
pub open spec fn complete_fits(p: PendingCommand) -> bool {
    p.operator is Some ==> count_or_one(p.count1) * count_or_one(p.count2) <= usize::MAX
}

/// The action a motion completes with.
pub open spec fn completed(p: PendingCommand, m: Motion) -> Action {
    match p.operator {
        Some(op) => Action::Operate {
            count: (count_or_one(p.count1) * count_or_one(p.count2)) as usize,
            op,
            motion: m,
        },
        None => Action::Move { count: count_or_one(p.count1) as usize, motion: m },
    }
}

pub open spec fn is_digit(c: char) -> bool {
    '0' <= c <= '9'
}

pub open spec fn digit_value(c: char) -> int {
    c as int - '0' as int
}

/// The single-key motions.
pub open spec fn motion_of(code: KeyCode) -> Option<Motion> {
    match code {
        KeyCode::Char('h') | KeyCode::Left => Some(Motion::Left),
        KeyCode::Char('j') | KeyCode::Down => Some(Motion::Down),
        KeyCode::Char('k') | KeyCode::Up => Some(Motion::Up),
        KeyCode::Char('l') | KeyCode::Right => Some(Motion::Right),
        KeyCode::Char('w') => Some(Motion::WordForward),
        KeyCode::Char('b') => Some(Motion::WordBackward),
        KeyCode::Char('G') => Some(Motion::DocEnd),
        KeyCode::Char('$') => Some(Motion::LineEnd),
        _ => None,
    }
}

pub open spec fn operator_of(code: KeyCode) -> Option<Operator> {
    match code {
        KeyCode::Char('d') => Some(Operator::Delete),
        KeyCode::Char('y') => Some(Operator::Yank),
        KeyCode::Char('c') => Some(Operator::Change),
        _ => None,
    }
}

/// Typing digit `d`: it extends the count before or after the operator;
/// a `0` that would start a count is the line-start motion.
pub open spec fn digit_step(p: PendingCommand, d: int) -> (PendingCommand, Resolution) {
    let target = if p.operator is None {
        p.count1
    } else {
        p.count2
    };
    if d == 0 && target is None {
        (PendingCommand::empty(), Resolution::Action(completed(p, Motion::LineStart)))
    } else {
        let n = (count_or_zero(target) * 10 + d) as usize;
        if p.operator is None {
            (PendingCommand { count1: Some(n), ..p }, Resolution::Pending)
        } else {
            (PendingCommand { count2: Some(n), ..p }, Resolution::Pending)
        }
    }
}

pub open spec fn count_or_zero(c: Option<usize>) -> int {
    match c {
        Some(n) => n as int,
        None => 0,
    }
}

/// Typing an operator: the same operator again means the current line, a
/// different one cancels.
pub open spec fn operator_step(p: PendingCommand, op: Operator) -> (PendingCommand, Resolution) {
    match p.operator {
        Some(existing) => if existing == op {
            (PendingCommand::empty(), Resolution::Action(completed(p, Motion::CurrentLine)))
        } else {
            (PendingCommand::empty(), Resolution::Cancel)
        },
        None => (PendingCommand { operator: Some(op), ..p }, Resolution::Pending),
    }
}

/// One step of the grammar: the pending command after `key`, and what
/// the key resolved to.
pub open spec fn feed_step(p: PendingCommand, key: KeyEvent) -> (PendingCommand, Resolution) {
    if key.code == KeyCode::Esc {
        (
            PendingCommand::empty(),
            if p.is_empty_spec() {
                Resolution::Action(Action::Unbound)
            } else {
                Resolution::Cancel
            },
        )
    } else if key.code == KeyCode::Char('c') && key.modifiers.control {
        (PendingCommand::empty(), Resolution::Action(Action::Quit))
    } else if p.g_partial {
        if key.code == KeyCode::Char('g') {
            (
                PendingCommand::empty(),
                Resolution::Action(
                    completed(PendingCommand { g_partial: false, ..p }, Motion::DocStart),
                ),
            )
        } else {
            (PendingCommand::empty(), Resolution::Cancel)
        }
    } else {
        match key.code {
            KeyCode::Char(c) => if is_digit(c) {
                digit_step(p, digit_value(c))
            } else if c == 'q' && !key.modifiers.control && !key.modifiers.alt {
                (PendingCommand::empty(), Resolution::Action(Action::Quit))
            } else if operator_of(key.code) is Some {
                operator_step(p, operator_of(key.code).unwrap())
            } else if c == 'g' {
                (PendingCommand { g_partial: true, ..p }, Resolution::Pending)
            } else {
                other_step(p, key.code)
            },
            _ => other_step(p, key.code),
        }
    }
}

/// A motion key completes the command; any other key is unbound (on an
/// empty resolver) or cancels.
pub open spec fn other_step(p: PendingCommand, code: KeyCode) -> (PendingCommand, Resolution) {
    match motion_of(code) {
        Some(m) => (PendingCommand::empty(), Resolution::Action(completed(p, m))),
        None => if p.is_empty_spec() {
            (p, Resolution::Action(Action::Unbound))
        } else {
            (PendingCommand::empty(), Resolution::Cancel)
        },
    }
}

/// The counts of `feed_step(p, key)` stay within `usize`.
pub open spec fn feed_fits(p: PendingCommand, key: KeyEvent) -> bool {
    if key.code == KeyCode::Esc || (key.code == KeyCode::Char('c') && key.modifiers.control) {
        true
    } else if p.g_partial {
        key.code == KeyCode::Char('g') ==> complete_fits(p)
    } else {
        match key.code {
            KeyCode::Char(c) => if is_digit(c) {
                let target = if p.operator is None {
                    p.count1
                } else {
                    p.count2
                };
                if digit_value(c) == 0 && target is None {
                    complete_fits(p)
                } else {
                    count_or_zero(target) * 10 + digit_value(c) <= usize::MAX
                }
            } else if c == 'q' && !key.modifiers.control && !key.modifiers.alt {
                true
            } else if operator_of(key.code) is Some {
                p.operator == operator_of(key.code) ==> complete_fits(p)
            } else {
                motion_of(key.code) is Some ==> complete_fits(p)
            },
            _ => motion_of(key.code) is Some ==> complete_fits(p),
        }
    }
}

/// The status-bar rendering of a pending command.
pub open spec fn display_of(p: PendingCommand) -> Seq<char> {
    (match p.count1 {
        Some(c) => decimal(c as nat),
        None => Seq::empty(),
    }) + (match p.operator {
        Some(op) => seq![op.key_spec()],
        None => Seq::empty(),
    }) + (match p.count2 {
        Some(c) => decimal(c as nat),
        None => Seq::empty(),
    }) + (if p.g_partial {
        seq!['g']
    } else {
        Seq::empty()
    })
}

#[derive(Debug, Clone)]
pub struct Resolver {
    pending: PendingCommand,
}

impl View for Resolver {
    type V = PendingCommand;

    closed spec fn view(&self) -> PendingCommand {
        self.pending
    }
}

impl Resolver {
    pub fn new() -> (r: Resolver)
        ensures
            r@ == PendingCommand::empty(),
    {
        Resolver { pending: PendingCommand::new() }
    }

    /// The pending buffer for the status bar; empty when no command is in
    /// progress.
    pub fn pending_display(&self) -> (s: String)
        ensures
            s@ == display_of(self@),
    {
        let mut s = String::new();
        if let Some(c) = self.pending.count1 {
            push_decimal(&mut s, c as u64);
        }
        if let Some(op) = self.pending.operator {
            push_char(&mut s, op.key());
        }
        if let Some(c) = self.pending.count2 {
            push_decimal(&mut s, c as u64);
        }
        if self.pending.g_partial {
            push_char(&mut s, 'g');
        }
        proof {
            assert(s@ =~= display_of(self@));
        }
        s
    }

    /// Whether `feed(key)` keeps its counts within `usize`.
    pub fn can_feed(&self, key: KeyEvent) -> (b: bool)
        ensures
            b == feed_fits(self@, key),
    {
        let p = self.pending;
        if matches!(key.code, KeyCode::Esc) || (matches!(key.code, KeyCode::Char('c'))
            && key.modifiers.control) {
            return true;
        }
        if p.g_partial {
            return !matches!(key.code, KeyCode::Char('g')) || fits_complete(&p);
        }
        match key.code {
            KeyCode::Char(c) => {
                if '0' <= c && c <= '9' {
                    let d = (c as u32 - '0' as u32) as usize;
                    let target = if p.operator.is_none() {
                        p.count1
                    } else {
                        p.count2
                    };
                    if d == 0 && target.is_none() {
                        fits_complete(&p)
                    } else {
                        let t = match target {
                            Some(n) => n,
                            None => 0,
                        };
                        t <= (usize::MAX - d) / 10
                    }
                } else if c == 'q' && !key.modifiers.control && !key.modifiers.alt {
                    true
                } else if c == 'd' || c == 'y' || c == 'c' {
                    let op = if c == 'd' {
                        Operator::Delete
                    } else if c == 'y' {
                        Operator::Yank
                    } else {
                        Operator::Change
                    };
                    match p.operator {
                        Some(e) => e != op || fits_complete(&p),
                        None => true,
                    }
                } else {
                    match motion_for(key.code) {
                        Some(_) => fits_complete(&p),
                        None => true,
                    }
                }
            },
            _ => match motion_for(key.code) {
                Some(_) => fits_complete(&p),
                None => true,
            },
        }
    }

    /// Feed one key to the resolver.
    pub fn feed(&mut self, key: KeyEvent) -> (r: Resolution)
        requires
            feed_fits(old(self)@, key),
        ensures
            (final(self)@, r) == feed_step(old(self)@, key),
    {
        if matches!(key.code, KeyCode::Esc) {
            let was_empty = self.pending.is_empty();
            self.reset();
            return if was_empty {
                Resolution::Action(Action::Unbound)
            } else {
                Resolution::Cancel
            };
        }
        if matches!(key.code, KeyCode::Char('c')) && key.modifiers.control {
            self.reset();
            return Resolution::Action(Action::Quit);
        }
        if self.pending.g_partial {
            self.pending.g_partial = false;
            return match key.code {
                KeyCode::Char('g') => self.complete_motion(Motion::DocStart),
                _ => self.cancel_pending(),
            };
        }
        match key.code {
            KeyCode::Char(c) => {
                if '0' <= c && c <= '9' {
                    let d = (c as u32 - '0' as u32) as usize;
                    self.feed_digit(d)
                } else if c == 'q' && !key.modifiers.control && !key.modifiers.alt {
                    self.reset();
                    Resolution::Action(Action::Quit)
                } else if c == 'd' {
                    self.feed_operator(Operator::Delete)
                } else if c == 'y' {
                    self.feed_operator(Operator::Yank)
                } else if c == 'c' {
                    self.feed_operator(Operator::Change)
                } else if c == 'g' {
                    self.pending.g_partial = true;
                    Resolution::Pending
                } else {
                    self.feed_other(key.code)
                }
            },
            _ => self.feed_other(key.code),
        }
    }

    fn feed_other(&mut self, code: KeyCode) -> (r: Resolution)
        requires
            motion_of(code) is Some ==> complete_fits(old(self)@),
        ensures
            (final(self)@, r) == other_step(old(self)@, code),
    {
        match motion_for(code) {
            Some(m) => self.complete_motion(m),
            None => {
                if self.pending.is_empty() {
                    Resolution::Action(Action::Unbound)
                } else {
                    self.cancel_pending()
                }
            },
        }
    }

    /// Typing digit `d` (see [`digit_step`]).
    pub fn feed_digit(&mut self, d: usize) -> (r: Resolution)
        requires
            d < 10,
            ({
                let target = if old(self)@.operator is None {
                    old(self)@.count1
                } else {
                    old(self)@.count2
                };
                if d == 0 && target is None {
                    complete_fits(old(self)@)
                } else {
                    count_or_zero(target) * 10 + d <= usize::MAX
                }
            }),
        ensures
            (final(self)@, r) == digit_step(old(self)@, d as int),
    {
        let target = if self.pending.operator.is_none() {
            self.pending.count1
        } else {
            self.pending.count2
        };
        if d == 0 && target.is_none() {
            return self.complete_motion(Motion::LineStart);
        }
        let prior = match target {
            Some(n) => n,
            None => 0,
        };
        let n = prior * 10 + d;
        if self.pending.operator.is_none() {
            self.pending.count1 = Some(n);
        } else {
            self.pending.count2 = Some(n);
        }
        Resolution::Pending
    }

    /// Typing an operator (see [`operator_step`]).
    pub fn feed_operator(&mut self, op: Operator) -> (r: Resolution)
        requires
            old(self)@.operator == Some(op) ==> complete_fits(old(self)@),
        ensures
            (final(self)@, r) == operator_step(old(self)@, op),
    {
        match self.pending.operator {
            Some(existing) => {
                if existing == op {
                    self.complete_motion(Motion::CurrentLine)
                } else {
                    self.cancel_pending()
                }
            },
            None => {
                self.pending.operator = Some(op);
                Resolution::Pending
            },
        }
    }

    /// Finish the command with `motion` and reset.
    pub fn complete_motion(&mut self, motion: Motion) -> (r: Resolution)
        requires
            complete_fits(old(self)@),
        ensures
            final(self)@ == PendingCommand::empty(),
            r == Resolution::Action(completed(old(self)@, motion)),
    {
        let count1 = match self.pending.count1 {
            Some(n) => n,
            None => 1,
        };
        let action = match self.pending.operator {
            Some(op) => {
                let count2 = match self.pending.count2 {
                    Some(n) => n,
                    None => 1,
                };
                Action::Operate { count: count1 * count2, op, motion }
            },
            None => Action::Move { count: count1, motion },
        };
        self.reset();
        Resolution::Action(action)
    }

    /// Abort the command.
    pub fn cancel_pending(&mut self) -> (r: Resolution)
        ensures
            final(self)@ == PendingCommand::empty(),
            r == Resolution::Cancel,
    {
        self.reset();
        Resolution::Cancel
    }

    /// Clear the pending command.
    pub fn reset(&mut self)
        ensures
            final(self)@ == PendingCommand::empty(),
    {
        self.pending = PendingCommand::new();
    }
}

fn fits_complete(p: &PendingCommand) -> (b: bool)
    ensures
        b == complete_fits(*p),
{
    match p.operator {
        Some(_) => {
            let c1 = match p.count1 {
                Some(n) => n,
                None => 1,
            };
            let c2 = match p.count2 {
                Some(n) => n,
                None => 1,
            };
            if c1 == 0 {
                assert(c1 * c2 == 0) by (nonlinear_arith)
                    requires
                        c1 == 0,
                ;
                true
            } else {
                let ok = c2 <= usize::MAX / c1;
                proof {
                    lemma_mul_fits(c1 as int, c2 as int, usize::MAX as int);
                }
                ok
            }
        },
        None => true,
    }
}

proof fn lemma_mul_fits(a: int, b: int, m: int)
    requires
        a > 0,
        b >= 0,
        m >= 0,
    ensures
        (b <= m / a) == (a * b <= m),
{
    assert((b <= m / a) == (a * b <= m)) by (nonlinear_arith)
        requires
            a > 0,
            b >= 0,
            m >= 0,
    ;
}

fn motion_for(code: KeyCode) -> (m: Option<Motion>)
    ensures
        m == motion_of(code),
{
    match code {
        KeyCode::Char('h') | KeyCode::Left => Some(Motion::Left),
        KeyCode::Char('j') | KeyCode::Down => Some(Motion::Down),
        KeyCode::Char('k') | KeyCode::Up => Some(Motion::Up),
        KeyCode::Char('l') | KeyCode::Right => Some(Motion::Right),
        KeyCode::Char('w') => Some(Motion::WordForward),
        KeyCode::Char('b') => Some(Motion::WordBackward),
        KeyCode::Char('G') => Some(Motion::DocEnd),
        KeyCode::Char('$') => Some(Motion::LineEnd),
        _ => None,
    }
}

} // verus!
