//! Messages dispatched to the reducer: domain events, not raw key presses.

use vstd::prelude::*;

use crate::pulls::{FilePatch, PrDetail, PrSummary, RepoRef, ReviewThread};
use crate::rate_limit::RateLimit;

verus! {

#[derive(Debug, Clone)]
pub enum Msg {
    Tick,
    AuthReady { host: String, user: Option<String> },
    AuthMissing { reason: String },
    /// The key resolver's pending-buffer display changed.
    PendingChanged(String),
    /// The repository was named on the command line or found from the cwd.
    RepoResolved(RepoRef),
    /// No repository could be determined.
    RepoResolveFailed(String),
    /// One page of the PR list arrived.
    PrPageReady { repo: RepoRef, page: u32, items: Vec<PrSummary>, has_more: bool },
    /// The PR list fetch failed.
    PrListFailed(String),
    /// The screen's primary forward action (Enter / `l`).
    OpenSelectedPr,
    /// Pop one screen.
    Back,
    /// PR detail landed; `body_lines` is the rendered height of the body,
    /// `image_urls` the images it references, `mermaid_blocks` the
    /// `(hash, source)` of each Mermaid diagram in it.
    PrDetailReady {
        detail: PrDetail,
        body_lines: u16,
        image_urls: Vec<String>,
        mermaid_blocks: Vec<(String, String)>,
    },
    PrDetailFailed(String),
    /// Open the diff from the PR detail screen (Tab).
    OpenDiff,
    /// The per-file diff landed, with inline review threads, the rendered
    /// offset of each file and the total rendered line count.
    DiffReady {
        repo: RepoRef,
        number: u64,
        files: Vec<FilePatch>,
        threads: Vec<ReviewThread>,
        file_offsets: Vec<u16>,
        total_lines: u16,
    },
    DiffFailed(String),
    /// An image or diagram finished loading; only wakes the event loop.
    ImageReady { url: String },
    /// Flip the diff view between unified and split layouts.
    ToggleDiffViewMode,
    /// Move the selection (or scroll) by a signed amount.
    SelectionDelta(i32),
    /// Jump to the first or last item.
    SelectionJump(SelectionJump),
    /// Jump `count` sections forward or back.
    SectionJump { count: usize, direction: JumpDirection },
    /// Fresh rate-limit reading from response headers.
    RateLimitUpdate(RateLimit),
    Quit,
}

#[derive(Debug, Clone, Copy, PartialEq, Eq)]
pub enum SelectionJump {
    First,
    Last,
}

#[derive(Debug, Clone, Copy, PartialEq, Eq)]
pub enum JumpDirection {
    Next,
    Prev,
}

} // verus!
