//! Top-level application state.

use vstd::prelude::*;

use crate::auth::AuthState;
use crate::pulls::{FilePatch, PrDetail, PrSummary, RepoRef, ReviewThread};
use crate::rate_limit::RateLimit;

verus! {

#[derive(Debug, Clone, Copy, PartialEq, Eq)]
pub enum Mode {
    Normal,
    Insert,
    Command,
}

impl Default for Mode {
    fn default() -> (r: Mode)
        ensures
            r == Mode::Normal,
    {
        Mode::Normal
    }
}

impl Mode {
    pub fn label(self) -> (r: &'static str)
        ensures
            r@ == match self {
                Mode::Normal => "NORMAL"@,
                Mode::Insert => "INSERT"@,
                Mode::Command => "COMMAND"@,
            },
    {
        match self {
            Mode::Normal => "NORMAL",
            Mode::Insert => "INSERT",
            Mode::Command => "COMMAND",
        }
    }
}

/// Unified (one column) or split (side by side) diff layout.
#[derive(Debug, Clone, Copy, PartialEq, Eq)]
pub enum DiffViewMode {
    Unified,
    Split,
}

impl Default for DiffViewMode {
    fn default() -> (r: DiffViewMode)
        ensures
            r == DiffViewMode::Unified,
    {
        DiffViewMode::Unified
    }
}

impl DiffViewMode {
    pub open spec fn flip(self) -> DiffViewMode {
        match self {
            DiffViewMode::Unified => DiffViewMode::Split,
            DiffViewMode::Split => DiffViewMode::Unified,
        }
    }

    pub fn toggled(self) -> (r: DiffViewMode)
        ensures
            r == self.flip(),
    {
        match self {
            DiffViewMode::Unified => DiffViewMode::Split,
            DiffViewMode::Split => DiffViewMode::Unified,
        }
    }
}

/// A diff that arrived while the PR detail screen was still showing.
#[derive(Debug, Clone)]
pub struct PrefetchedDiff {
    pub files: Vec<FilePatch>,
    pub threads: Vec<ReviewThread>,
    pub file_offsets: Vec<u16>,
    pub total_lines: u16,
}

/// What the body of the screen is showing.
#[derive(Debug, Clone)]
pub enum Screen {
    /// Before a repository is known.
    Welcome,
    /// Repository known, waiting for the first page of PRs.
    Loading { repo: RepoRef },
    /// The PR list.
    PrList {
        repo: RepoRef,
        items: Vec<PrSummary>,
        selected: usize,
        /// Highest page index already appended (1-based).
        pages_loaded: u32,
        /// Whether the last page said more pages exist.
        has_more: bool,
        /// A next-page fetch is in flight.
        loading_next: bool,
    },
    /// Waiting for a PR's detail.
    LoadingDetail { repo: RepoRef, number: u64 },
    /// PR detail; `review_offsets` are the line offsets of the reviews.
    PrDetail {
        repo: RepoRef,
        detail: PrDetail,
        scroll: u16,
        total_lines: u16,
        review_offsets: Vec<u16>,
        prefetched_diff: Option<PrefetchedDiff>,
    },
    /// Waiting for a PR's diff.
    LoadingDiff { repo: RepoRef, number: u64 },
    /// The diff; `file_offsets` are the line offsets of the file headers.
    DiffView {
        repo: RepoRef,
        number: u64,
        files: Vec<FilePatch>,
        threads: Vec<ReviewThread>,
        scroll: u16,
        total_lines: u16,
        file_offsets: Vec<u16>,
        view_mode: DiffViewMode,
    },
    /// An error with an optional hint.
    Error { message: String, hint: Option<String> },
}

impl Default for Screen {
    fn default() -> (r: Screen)
        ensures
            r == Screen::Welcome,
    {
        Screen::Welcome
    }
}

#[derive(Debug, Clone)]
pub struct State {
    pub mode: Mode,
    pub pending: String,
    pub auth: AuthState,
    pub screen: Screen,
    /// Prior screens for back-navigation; `Back` pops one, and an empty
    /// stack returns to `Welcome`.
    pub nav_stack: Vec<Screen>,
    pub rate_limit: Option<RateLimit>,
    pub should_quit: bool,
}

impl Default for State {
    fn default() -> (r: State)
        ensures
            r.mode == Mode::Normal,
            r.pending@ == Seq::<char>::empty(),
            r.auth == AuthState::Unknown,
            r.screen == Screen::Welcome,
            r.nav_stack@ == Seq::<Screen>::empty(),
            r.rate_limit == None::<RateLimit>,
            !r.should_quit,
    {
        State {
            mode: Mode::Normal,
            pending: String::new(),
            auth: AuthState::Unknown,
            screen: Screen::Welcome,
            nav_stack: Vec::new(),
            rate_limit: None,
            should_quit: false,
        }
    }
}

} // verus!
