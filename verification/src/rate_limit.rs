//! Primary rate-limit window reported by GitHub's API.

use vstd::prelude::*;

use crate::pulls::Timestamp;

verus! {

#[derive(Debug, Clone, Copy, PartialEq, Eq)]
pub struct RateLimit {
    pub remaining: u32,
    pub limit: u32,
    pub reset_at: Timestamp,
}

/// Severity bucket of the remaining budget.
#[derive(Debug, Clone, Copy, PartialEq, Eq)]
pub enum Tier {
    Healthy,
    Warning,
    Critical,
}

impl RateLimit {
    /// `< 20` critical, `20..=100` warning, `> 100` healthy.
    pub fn tier(&self) -> (t: Tier)
        ensures
            t == (if self.remaining < 20 {
                Tier::Critical
            } else if self.remaining <= 100 {
                Tier::Warning
            } else {
                Tier::Healthy
            }),
    {
        if self.remaining <= 19 {
            Tier::Critical
        } else if self.remaining <= 100 {
            Tier::Warning
        } else {
            Tier::Healthy
        }
    }
}

} // verus!
