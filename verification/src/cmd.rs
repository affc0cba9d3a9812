//! Commands emitted by the reducer; the application's workers run them.

use vstd::prelude::*;

use crate::pulls::RepoRef;

verus! {

#[derive(Debug, Clone)]
pub enum Cmd {
    /// Detect the active GitHub auth context.
    AuthenticateFromGh,
    /// Ask `gh repo view` which repository the working directory belongs to.
    ResolveRepoFromCwd,
    /// Fetch one page of open PRs (1-based page index).
    FetchPrPage { repo: RepoRef, page: u32 },
    /// Fetch the detail of one PR.
    FetchPrDetail { repo: RepoRef, number: u64 },
    /// Fetch the per-file diff of one PR.
    FetchPrDiff { repo: RepoRef, number: u64 },
    /// Fetch and decode a remote image referenced by a PR body.
    FetchImage { url: String },
    /// Render a Mermaid diagram (keyed by the hash of its source).
    RenderMermaid { hash: String, source: String },
}

} // verus!
