//! The changed files of a PR (REST `GET /repos/{owner}/{repo}/pulls/{n}/files`)
//! mapped onto [`FilePatch`].

use vstd::prelude::*;

use crate::api::ApiError;
use crate::pulls::{FilePatch, PatchStatus, RepoRef};
use crate::text::{decimal, push_decimal, str_eq};

verus! {

#[derive(Debug, Clone, PartialEq, Eq)]
pub enum PrFilesError {
    /// The PR does not exist or is not visible.
    NotFound(u64),
    Api(ApiError),
}

pub open spec fn files_message(e: PrFilesError) -> Seq<char> {
    match e {
        PrFilesError::NotFound(n) => "PR #"@ + decimal(n as nat) + " not found or no access"@,
        PrFilesError::Api(a) => "api error: "@ + crate::api::api_message(a),
    }
}

impl PrFilesError {
    /// The error's text.
    pub fn message(&self) -> (r: String)
        ensures
            r@ == files_message(*self),
    {
        match self {
            PrFilesError::NotFound(n) => {
                let mut s = "PR #".to_owned();
                push_decimal(&mut s, *n);
                s.append(" not found or no access");
                s
            },
            PrFilesError::Api(a) => {
                let mut s = "api error: ".to_owned();
                let m = a.message();
                s.append(m.as_str());
                s
            },
        }
    }
}

/// One element of the REST response, as decoded.
#[derive(Debug, Clone, PartialEq, Eq)]
pub struct RawPrFile {
    pub sha: String,
    pub filename: String,
    pub previous_filename: Option<String>,
    pub status: String,
    pub additions: u32,
    pub deletions: u32,
    pub patch: Option<String>,
}

/// GitHub's seven documented status strings; anything else reads as
/// `Modified`.
pub open spec fn status_of(s: Seq<char>) -> PatchStatus {
    if s == "added"@ {
        PatchStatus::Added
    } else if s == "removed"@ {
        PatchStatus::Removed
    } else if s == "renamed"@ {
        PatchStatus::Renamed
    } else if s == "copied"@ {
        PatchStatus::Copied
    } else if s == "changed"@ {
        PatchStatus::Changed
    } else if s == "unchanged"@ {
        PatchStatus::Unchanged
    } else {
        PatchStatus::Modified
    }
}

pub fn parse_status(s: &str) -> (r: PatchStatus)
    ensures
        r == status_of(s@),
{
    if str_eq(s, "added") {
        PatchStatus::Added
    } else if str_eq(s, "removed") {
        PatchStatus::Removed
    } else if str_eq(s, "renamed") {
        PatchStatus::Renamed
    } else if str_eq(s, "copied") {
        PatchStatus::Copied
    } else if str_eq(s, "changed") {
        PatchStatus::Changed
    } else if str_eq(s, "unchanged") {
        PatchStatus::Unchanged
    } else {
        PatchStatus::Modified
    }
}

/// The patch text, with an empty one read as absent.
pub open spec fn patch_of(p: Option<String>) -> Option<Seq<char>> {
    match p {
        Some(t) => if t@.len() == 0 {
            None
        } else {
            Some(t@)
        },
        None => None,
    }
}

pub open spec fn opt_text(p: Option<String>) -> Option<Seq<char>> {
    match p {
        Some(t) => Some(t@),
        None => None,
    }
}

/// The file patch of one response element: fields carried over, the status
/// parsed, an empty patch normalised to `None`.
pub fn into_file_patch(raw: RawPrFile) -> (f: FilePatch)
    ensures
        f.path@ == raw.filename@,
        opt_text(f.previous_path) == opt_text(raw.previous_filename),
        f.status == status_of(raw.status@),
        f.additions == raw.additions,
        f.deletions == raw.deletions,
        opt_text(f.patch) == patch_of(raw.patch),
        f.blob_sha@ == raw.sha@,
{
    let status = parse_status(raw.status.as_str());
    let patch = match raw.patch {
        Some(p) => if p.as_str().is_empty() {
            None
        } else {
            Some(p)
        },
        None => None,
    };
    FilePatch {
        path: raw.filename,
        previous_path: raw.previous_filename,
        status,
        additions: raw.additions,
        deletions: raw.deletions,
        patch,
        blob_sha: raw.sha,
    }
}

/// All elements of a page, in order.
pub fn into_file_patches(raw: Vec<RawPrFile>) -> (v: Vec<FilePatch>)
    ensures
        v@.len() == raw@.len(),
        forall|k: int|
            0 <= k < raw@.len() ==> {
                let f = #[trigger] v@[k];
                let r = raw@[k];
                &&& f.path@ == r.filename@
                &&& opt_text(f.previous_path) == opt_text(r.previous_filename)
                &&& f.status == status_of(r.status@)
                &&& f.additions == r.additions
                &&& f.deletions == r.deletions
                &&& opt_text(f.patch) == patch_of(r.patch)
                &&& f.blob_sha@ == r.sha@
            },
{
    let ghost all = raw@;
    let mut out: Vec<FilePatch> = Vec::new();
    for r in it: raw.into_iter()
        invariant
            it.seq() == all,
            out@.len() == it.index(),
            forall|k: int|
                0 <= k < out@.len() ==> {
                    let f = #[trigger] out@[k];
                    let r = all[k];
                    &&& f.path@ == r.filename@
                    &&& opt_text(f.previous_path) == opt_text(r.previous_filename)
                    &&& f.status == status_of(r.status@)
                    &&& f.additions == r.additions
                    &&& f.deletions == r.deletions
                    &&& opt_text(f.patch) == patch_of(r.patch)
                    &&& f.blob_sha@ == r.sha@
                },
    {
        let f = into_file_patch(r);
        out.push(f);
    }
    out
}

/// `/repos/{owner}/{name}/pulls/{number}/files?per_page=100`.
pub open spec fn files_path(owner: Seq<char>, name: Seq<char>, number: nat) -> Seq<char> {
    "/repos/"@ + owner + "/"@ + name + "/pulls/"@ + decimal(number) + "/files?per_page=100"@
}

pub fn pr_files_path(repo: &RepoRef, number: u64) -> (p: String)
    ensures
        p@ == files_path(repo.owner@, repo.name@, number as nat),
{
    let mut p = "/repos/".to_owned();
    p.append(repo.owner.as_str());
    p.append("/");
    p.append(repo.name.as_str());
    p.append("/pulls/");
    push_decimal(&mut p, number);
    p.append("/files?per_page=100");
    p
}

/// Page `page` of the changed files; the pages are fetched in turn while
/// each announces a next one (see [`crate::pull_list::has_next_link`]).
pub fn pr_files_page_path(repo: &RepoRef, number: u64, page: u32) -> (p: String)
    ensures
        p@ == files_path(repo.owner@, repo.name@, number as nat) + "&page="@ + decimal(page as nat),
{
    let mut p = pr_files_path(repo, number);
    p.append("&page=");
    push_decimal(&mut p, page as u64);
    p
}

/// A 404 becomes `NotFound(number)`; other errors pass through.
pub fn files_error(e: ApiError, number: u64) -> (r: PrFilesError)
    ensures
        e == ApiError::NotFound ==> r == PrFilesError::NotFound(number),
        e != ApiError::NotFound ==> r == PrFilesError::Api(e),
{
    match e {
        ApiError::NotFound => PrFilesError::NotFound(number),
        other => PrFilesError::Api(other),
    }
}

} // verus!
