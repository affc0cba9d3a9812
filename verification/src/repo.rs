//! Finding the repository from the working directory: what the output of
//! `gh repo view --json owner,name --jq '.owner.login + "/" + .name'` means.

use vstd::prelude::*;

use crate::auth::trimmed;
use crate::pulls::{parse_repo_ref, RepoParse, RepoRef};
use crate::text::{to_chars, trim};

verus! {

#[derive(Debug, Clone, PartialEq, Eq)]
pub enum RepoResolveError {
    /// `gh` is not installed.
    GhMissing,
    /// The working directory has no GitHub remote.
    NotInRepo,
    /// `gh repo view` failed with this message.
    GhFailed(String),
    /// The output was not `owner/name`.
    ParseFailed(String),
}

pub open spec fn resolve_message(e: RepoResolveError) -> Seq<char> {
    match e {
        RepoResolveError::GhMissing => "`gh` is not installed"@,
        RepoResolveError::NotInRepo => "not in a GitHub repo (cwd has no GitHub remote)"@,
        RepoResolveError::GhFailed(m) => "`gh repo view` failed: "@ + m@,
        RepoResolveError::ParseFailed(raw) => "could not parse `"@ + raw@ + "` as `owner/name`"@,
    }
}

impl RepoResolveError {
    /// The error's text.
    pub fn message(&self) -> (r: String)
        ensures
            r@ == resolve_message(*self),
    {
        match self {
            RepoResolveError::GhMissing => "`gh` is not installed".to_owned(),
            RepoResolveError::NotInRepo => "not in a GitHub repo (cwd has no GitHub remote)".to_owned(),
            RepoResolveError::GhFailed(m) => {
                let mut s = "`gh repo view` failed: ".to_owned();
                s.append(m.as_str());
                s
            },
            RepoResolveError::ParseFailed(raw) => {
                let mut s = "could not parse `".to_owned();
                s.append(raw.as_str());
                s.append("` as `owner/name`");
                s
            },
        }
    }
}

/// `p` occurs in `s`.
pub open spec fn contains(s: Seq<char>, p: Seq<char>) -> bool {
    exists|i: int| 0 <= i && i + p.len() <= s.len() && #[trigger] s.subrange(i, i + p.len()) == p
}

pub fn contains_text(s: &str, p: &str) -> (r: bool)
    ensures
        r == contains(s@, p@),
{
    let cs = to_chars(s);
    let ps = to_chars(p);
    if ps.len() > cs.len() {
        proof {
            assert forall|i: int| !(0 <= i && i + ps@.len() <= cs@.len() && #[trigger] cs@.subrange(i, i + ps@.len()) == ps@) by {}
        }
        return false;
    }
    if ps.len() == 0 {
        assert(cs@.subrange(0, 0) =~= ps@);
        assert(s@.subrange(0int, 0int + p@.len()) == p@);
        return true;
    }
    let mut i: usize = 0;
    let last = cs.len() - ps.len();
    while i <= last
        invariant
            last == cs.len() - ps.len(),
            ps.len() >= 1,
            cs@ == s@,
            ps@ == p@,
            ps.len() <= cs.len(),
            i <= last + 1,
            forall|q: int| 0 <= q < i ==> #[trigger] cs@.subrange(q, q + ps@.len()) != ps@,
        decreases cs.len() - i,
    {
        let mut k: usize = 0;
        let mut same = true;
        assert(cs@.subrange(i as int, i as int) =~= ps@.take(0));
        while k < ps.len()
            invariant
                k <= ps.len(),
                i + ps.len() <= cs.len(),
                same == (cs@.subrange(i as int, i + k) == ps@.take(k as int)),
            decreases ps.len() - k,
        {
            if same && cs[i + k] != ps[k] {
                same = false;
            } else if same {
                assert(cs@.subrange(i as int, i + k + 1) =~= ps@.take(k + 1));
            }
            if !same {
                assert(cs@.subrange(i as int, i + k + 1) != ps@.take(k + 1)) by {
                    if cs@.subrange(i as int, i + k + 1) == ps@.take(k + 1) {
                        if cs@[i + k] != ps@[k as int] {
                            assert(cs@.subrange(i as int, i + k + 1)[k as int] == cs@[i + k]);
                        } else {
                            assert(cs@.subrange(i as int, i + k) =~= cs@.subrange(i as int, i + k + 1).take(k as int));
                            assert(ps@.take(k as int) =~= ps@.take(k + 1).take(k as int));
                        }
                    }
                }
            }
            k = k + 1;
        }
        assert(ps@.take(ps.len() as int) =~= ps@);
        if same {
            return true;
        }
        i = i + 1;
    }
    proof {
        assert forall|q: int| !(0 <= q && q + p@.len() <= s@.len() && #[trigger] s@.subrange(q, q + p@.len()) == p@) by {
            if 0 <= q && q + p@.len() <= s@.len() {
                assert(q <= last);
            }
        }
    }
    false
}

/// Reads the output of `gh repo view`: when it failed, a stderr that
/// mentions `no git remotes` or `not a github` means no repository, any
/// other failure carries the trimmed stderr (or `exit <status>` when that
/// is empty); on success the trimmed stdout must parse as `owner/name`.
pub fn repo_from_gh_output(success: bool, status: &str, stdout: &str, stderr: &str) -> (r: Result<
    RepoRef,
    RepoResolveError,
>)
    ensures
        !success && (contains(trim(stderr@), "no git remotes"@) || contains(trim(stderr@), "not a github"@))
            ==> r == Err::<RepoRef, RepoResolveError>(RepoResolveError::NotInRepo),
        !success && !(contains(trim(stderr@), "no git remotes"@) || contains(trim(stderr@), "not a github"@))
            ==> (r matches Err(RepoResolveError::GhFailed(m)) && m@ == (if trim(stderr@).len() == 0 {
            "exit "@ + status@
        } else {
            trim(stderr@)
        })),
        success ==> match parse_repo_ref(trim(stdout@)) {
            RepoParse::Parsed { owner, name } => r matches Ok(rr) && rr.owner@ == owner && rr.name@ == name,
            _ => r matches Err(RepoResolveError::ParseFailed(raw)) && raw@ == trim(stdout@),
        },
{
    if !success {
        let msg = trimmed(stderr);
        if contains_text(msg.as_str(), "no git remotes") || contains_text(msg.as_str(), "not a github") {
            return Err(RepoResolveError::NotInRepo);
        }
        if msg.as_str().is_empty() {
            let mut m = "exit ".to_owned();
            m.append(status);
            return Err(RepoResolveError::GhFailed(m));
        }
        return Err(RepoResolveError::GhFailed(msg));
    }
    let raw = trimmed(stdout);
    match RepoRef::parse(raw.as_str()) {
        Ok(r) => Ok(r),
        Err(_) => Err(RepoResolveError::ParseFailed(raw)),
    }
}

} // verus!
