//! What the background workers report: the message each finished command
//! becomes. The workers themselves (processes, HTTP, terminal images) run
//! outside the library and hand their results to these functions.

use vstd::prelude::*;

use crate::auth::AuthOutcome;
use crate::diff::{
    file_line_layout, header_index, header_line, diff_lines, layout_fits, lemma_rows_before_monotone,
    line_count, rows_before, rows_count, sat32, thread_anchor, thread_anchor_rows, thread_lines_for,
    thread_rows, comments_rows, comment_rows,
};
use crate::markdown::{BodyChunk, ChunkV, chunks_view};
use crate::msg::Msg;
use crate::pulls::{FilePatch, PrDetail, RepoRef, ReviewThread};
use crate::repo::RepoResolveError;
use crate::text::{lines, str_eq};

verus! {

/// The message for a finished auth detection: a token whose client could
/// be built is `AuthReady`; a client that failed to build, or no token, is
/// `AuthMissing` with the reason.
pub fn auth_message(outcome: AuthOutcome, client_error: Option<String>) -> (m: Msg)
    ensures
        match outcome {
            AuthOutcome::Token { host, user, .. } => match client_error {
                None => m matches Msg::AuthReady { host: h, user: u } && h@ == host@ && u == user,
                Some(e) => m matches Msg::AuthMissing { reason } && reason@ == "client init failed: "@
                    + e@,
            },
            AuthOutcome::Missing { reason } => m matches Msg::AuthMissing { reason: r } && r@
                == reason@,
        },
{
    match outcome {
        AuthOutcome::Token { host, user, .. } => match client_error {
            None => Msg::AuthReady { host, user },
            Some(e) => {
                let mut reason = "client init failed: ".to_owned();
                reason.append(e.as_str());
                Msg::AuthMissing { reason }
            },
        },
        AuthOutcome::Missing { reason } => Msg::AuthMissing { reason },
    }
}

/// The message for a finished repository lookup.
pub fn repo_message(res: Result<RepoRef, RepoResolveError>) -> (m: Msg)
    ensures
        match res {
            Ok(r) => m == Msg::RepoResolved(r),
            Err(e) => m matches Msg::RepoResolveFailed(t) && t@ == crate::repo::resolve_message(e),
        },
{
    match res {
        Ok(r) => Msg::RepoResolved(r),
        Err(e) => Msg::RepoResolveFailed(e.message()),
    }
}

pub open spec fn chunk_height(c: ChunkV) -> int {
    match c {
        ChunkV::Text(ls) => if ls.len() > u16::MAX {
            u16::MAX as int
        } else {
            ls.len() as int
        },
        ChunkV::Image(..) => 12,
        ChunkV::Mermaid(..) => 16,
    }
}

/// Sum of the heights of `cs[..k]`.
pub open spec fn heights_sum(cs: Seq<ChunkV>, k: int) -> int
    decreases k,
{
    if k <= 0 {
        0
    } else {
        heights_sum(cs, k - 1) + chunk_height(cs[k - 1])
    }
}

/// URLs of the image chunks, in order.
pub open spec fn chunk_images(cs: Seq<ChunkV>) -> Seq<Seq<char>>
    decreases cs.len(),
{
    if cs.len() == 0 {
        Seq::empty()
    } else {
        let head = chunk_images(cs.drop_last());
        match cs.last() {
            ChunkV::Image(url, _) => head.push(url),
            _ => head,
        }
    }
}

/// The rows a rendered body takes (its chunks' heights summed, at most
/// `u16::MAX`) and the URLs of its images.
pub fn body_layout(chunks: &Vec<BodyChunk>) -> (r: (u16, Vec<String>))
    ensures
        r.0 == (if heights_sum(chunks_view(chunks@), chunks@.len() as int) > u16::MAX {
            u16::MAX as int
        } else {
            heights_sum(chunks_view(chunks@), chunks@.len() as int)
        }),
        r.1@.map_values(|s: String| s@) == chunk_images(chunks_view(chunks@)),
{
    let ghost cv = chunks_view(chunks@);
    let mut total: u32 = 0;
    let mut urls: Vec<String> = Vec::new();
    let mut k: usize = 0;
    while k < chunks.len()
        invariant
            k <= chunks.len(),
            cv == chunks_view(chunks@),
            total == (if heights_sum(cv, k as int) > u16::MAX {
                65536
            } else {
                heights_sum(cv, k as int)
            }),
            urls@.map_values(|s: String| s@) == chunk_images(cv.take(k as int)),
        decreases chunks.len() - k,
    {
        assert(cv.take(k + 1).drop_last() =~= cv.take(k as int));
        assert(cv[k as int] == chunks@[k as int]@);
        let h = chunks[k].height();
        total = if total + h as u32 > 65535 {
            65536
        } else {
            total + h as u32
        };
        match &chunks[k] {
            BodyChunk::Image { url, .. } => {
                let ghost before = urls@.map_values(|s: String| s@);
                urls.push(url.clone());
                assert(urls@.map_values(|s: String| s@) =~= before.push(url@));
            },
            _ => {},
        }
        k = k + 1;
    }
    assert(cv.take(k as int) =~= cv);
    let body_lines: u16 = if total > 65535 {
        65535
    } else {
        total as u16
    };
    (body_lines, urls)
}

/// The message for a fetched PR detail and its rendered body.
pub fn detail_message(
    detail: PrDetail,
    chunks: &Vec<BodyChunk>,
    mermaid_blocks: Vec<(String, String)>,
) -> (m: Msg)
    ensures
        m matches Msg::PrDetailReady { detail: d, body_lines, image_urls, mermaid_blocks: mb } && d
            == detail && mb == mermaid_blocks && body_lines == (if heights_sum(
            chunks_view(chunks@),
            chunks@.len() as int,
        ) > u16::MAX {
            u16::MAX as int
        } else {
            heights_sum(chunks_view(chunks@), chunks@.len() as int)
        }) && image_urls@.map_values(|s: String| s@) == chunk_images(chunks_view(chunks@)),
{
    let (body_lines, image_urls) = body_layout(chunks);
    Msg::PrDetailReady { detail, body_lines, image_urls, mermaid_blocks }
}

// ── diff layout ─────────────────────────────────────────────────────────

/// [`thread_rows`], exactly.
fn thread_rows_wide(t: &ReviewThread) -> (r: u128)
    ensures
        r == thread_rows(*t),
{
    if t.line.is_none() {
        return 0;
    }
    let mut total: u128 = 0;
    let mut k: usize = 0;
    while k < t.comments.len()
        invariant
            k <= t.comments.len(),
            t.line is Some,
            total == comments_rows(t.comments@, k as int),
            total <= k * 18446744073709551616,
        decreases t.comments.len() - k,
    {
        let c = line_count(t.comments[k].body.as_str());
        let c = if c == 0 {
            1
        } else {
            c
        };
        total = total + c as u128;
        k = k + 1;
    }
    total
}

/// [`thread_lines_for`] of file `j`, exactly.
fn file_thread_lines_wide(
    files: &Vec<FilePatch>,
    j: usize,
    rows: &Vec<Option<usize>>,
    threads: &Vec<ReviewThread>,
    lo: usize,
    hi: usize,
) -> (r: u128)
    requires
        j < files.len(),
        lo == header_index(files@, j as int) + 2,
        hi == rows_before(files@, j + 1),
        rows.len() == threads.len(),
        forall|k: int|
            0 <= k < threads.len() ==> match #[trigger] rows@[k] {
                Some(r) => thread_anchor(files@, threads@[k]) == Some(r as int),
                None => thread_anchor(files@, threads@[k]) is None,
            },
    ensures
        r == thread_lines_for(files@, j as int, threads@, threads.len() as int),
{
    let mut total: u128 = 0;
    let mut k: usize = 0;
    while k < threads.len()
        invariant
            k <= threads.len(),
            j < files.len(),
            lo == header_index(files@, j as int) + 2,
            hi == rows_before(files@, j + 1),
            rows.len() == threads.len(),
            forall|q: int|
                0 <= q < threads.len() ==> match #[trigger] rows@[q] {
                    Some(r) => thread_anchor(files@, threads@[q]) == Some(r as int),
                    None => thread_anchor(files@, threads@[q]) is None,
                },
            total == thread_lines_for(files@, j as int, threads@, k as int),
            total <= k * 4294967296,
        decreases threads.len() - k,
    {
        assert(match rows@[k as int] {
            Some(r) => thread_anchor(files@, threads@[k as int]) == Some(r as int),
            None => thread_anchor(files@, threads@[k as int]) is None,
        });
        let placed = match rows[k] {
            Some(r) => lo <= r && r < hi,
            None => false,
        };
        if placed {
            let n = thread_rows_wide(&threads[k]);
            let capped: u128 = if n > 4294967295 {
                4294967295
            } else {
                n
            };
            total = total + capped;
        }
        k = k + 1;
    }
    total
}

/// Whether the layout of `files` with `threads` can be counted (see
/// [`layout_fits`]).
pub fn fits_layout(files: &Vec<FilePatch>, threads: &Vec<ReviewThread>) -> (b: bool)
    ensures
        b == layout_fits(files@, threads@),
{
    if rows_count(files).is_none() {
        return false;
    }
    let mut k: usize = 0;
    while k < threads.len()
        invariant
            k <= threads.len(),
            forall|q: int| 0 <= q < k ==> thread_rows(#[trigger] threads@[q]) <= usize::MAX,
        decreases threads.len() - k,
    {
        if thread_rows_wide(&threads[k]) > usize::MAX as u128 {
            return false;
        }
        k = k + 1;
    }
    let rows = thread_anchor_rows(files, threads);
    let mut idx: usize = 0;
    let mut i: usize = 0;
    while i < files.len()
        invariant
            i <= files.len(),
            rows_before(files@, files.len() as int) <= usize::MAX,
            idx == rows_before(files@, i as int),
            rows.len() == threads.len(),
            forall|k: int|
                0 <= k < threads.len() ==> match #[trigger] rows@[k] {
                    Some(r) => thread_anchor(files@, threads@[k]) == Some(r as int),
                    None => thread_anchor(files@, threads@[k]) is None,
                },
            forall|q: int| 0 <= q < threads.len() ==> thread_rows(#[trigger] threads@[q]) <= usize::MAX,
            forall|q: int|
                0 <= q < i ==> #[trigger] thread_lines_for(files@, q, threads@, threads.len() as int)
                    <= u32::MAX,
        decreases files.len() - i,
    {
        proof {
            lemma_rows_before_monotone(files@, (i + 1) as int, files.len() as int);
        }
        let exact = match &files[i].patch {
            Some(p) => if p.as_str().is_empty() {
                1
            } else {
                line_count(p.as_str())
            },
            None => 1,
        };
        let hdr = if i > 0 {
            idx + 1
        } else {
            idx
        };
        let next = hdr + 2 + exact;
        assert(next == rows_before(files@, i + 1));
        if file_thread_lines_wide(files, i, &rows, threads, hdr + 2, next) > 4294967295 {
            return false;
        }
        idx = next;
        i = i + 1;
    }
    true
}

/// The message for a fetched diff: the files with their layout and the
/// threads (none when fetching them failed), or `DiffFailed`.
pub fn diff_message(
    repo: RepoRef,
    number: u64,
    files: Result<Vec<FilePatch>, String>,
    threads: Option<Vec<ReviewThread>>,
) -> (m: Msg)
    requires
        files matches Ok(fs) ==> layout_fits(
            fs@,
            match threads {
                Some(t) => t@,
                None => Seq::empty(),
            },
        ),
    ensures
        match files {
            Err(e) => m == Msg::DiffFailed(e),
            Ok(fs) => {
                let ts = match threads {
                    Some(t) => t@,
                    None => Seq::<ReviewThread>::empty(),
                };
                m matches Msg::DiffReady {
                    repo: r,
                    number: n,
                    files: f,
                    threads: t,
                    file_offsets,
                    total_lines,
                } && r == repo && n == number && f == fs && t@ == ts && file_offsets@.len()
                    == fs@.len() && (forall|i: int|
                    0 <= i < fs@.len() ==> #[trigger] file_offsets@[i] == crate::reducer::sat16(
                        sat32(header_line(fs@, ts, i)),
                    )) && total_lines == crate::reducer::sat16(sat32(diff_lines(fs@, ts)))
            },
        },
{
    match files {
        Err(e) => Msg::DiffFailed(e),
        Ok(fs) => {
            let ts = match threads {
                Some(t) => t,
                None => Vec::new(),
            };
            let (file_offsets, total_lines) = file_line_layout(&fs, &ts);
            Msg::DiffReady { repo, number, files: fs, threads: ts, file_offsets, total_lines }
        },
    }
}

} // verus!
