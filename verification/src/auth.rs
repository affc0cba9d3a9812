//! Authentication state tracked by the application, and the outcome of
//! detecting a token.

use vstd::prelude::*;

use crate::text::{substring, to_chars, trim, trim_bounds};

verus! {

/// What the application knows about authentication.
#[derive(Debug, Clone, PartialEq, Eq)]
pub enum AuthState {
    Unknown,
    Authenticated { host: String, user: Option<String> },
    Missing { reason: String },
}

impl Default for AuthState {
    fn default() -> (r: AuthState)
        ensures
            r == AuthState::Unknown,
    {
        AuthState::Unknown
    }
}

/// Status-bar text for an auth state.
pub open spec fn auth_summary(a: AuthState) -> Seq<char> {
    match a {
        AuthState::Unknown => "loading auth…"@,
        AuthState::Authenticated { host, user } => match user {
            Some(u) => "@"@ + u@ + " on "@ + host@,
            None => "authenticated on "@ + host@,
        },
        AuthState::Missing { reason } => "no auth — "@ + reason@,
    }
}

impl AuthState {
    pub fn summary(&self) -> (r: String)
        ensures
            r@ == auth_summary(*self),
    {
        match self {
            AuthState::Unknown => "loading auth…".to_owned(),
            AuthState::Authenticated { host, user } => match user {
                Some(u) => {
                    let mut s = "@".to_owned();
                    s.append(u.as_str());
                    s.append(" on ");
                    s.append(host.as_str());
                    s
                },
                None => {
                    let mut s = "authenticated on ".to_owned();
                    s.append(host.as_str());
                    s
                },
            },
            AuthState::Missing { reason } => {
                let mut s = "no auth — ".to_owned();
                s.append(reason.as_str());
                s
            },
        }
    }

    /// Did auth resolve to a usable token?
    pub fn is_authenticated(&self) -> (r: bool)
        ensures
            r == self is Authenticated,
    {
        matches!(self, AuthState::Authenticated { .. })
    }
}

/// Result of looking for a GitHub token.
#[derive(Debug, Clone, PartialEq, Eq)]
pub enum AuthOutcome {
    Token { token: String, host: String, user: Option<String> },
    Missing { reason: String },
}

impl AuthOutcome {
    pub fn is_authenticated(&self) -> (r: bool)
        ensures
            r == self is Token,
    {
        matches!(self, AuthOutcome::Token { .. })
    }
}


pub open spec fn opt_text(o: Option<String>) -> Option<Seq<char>> {
    match o {
        Some(s) => Some(s@),
        None => None,
    }
}

/// The host to talk to: `GH_HOST` when set and non-empty, else
/// `github.com`.
pub open spec fn host_of(gh_host: Option<Seq<char>>) -> Seq<char> {
    match gh_host {
        Some(h) => if h.len() > 0 {
            h
        } else {
            "github.com"@
        },
        None => "github.com"@,
    }
}

pub fn host_or_default(gh_host: Option<String>) -> (r: String)
    ensures
        r@ == host_of(opt_text(gh_host)),
{
    match gh_host {
        Some(h) => if h.as_str().is_empty() {
            "github.com".to_owned()
        } else {
            h
        },
        None => "github.com".to_owned(),
    }
}

/// The token from the environment: `GH_TOKEN`, else `GITHUB_TOKEN`, each
/// only when non-empty.
pub open spec fn env_token_of(gh_token: Option<Seq<char>>, github_token: Option<Seq<char>>) -> Option<
    Seq<char>,
> {
    match gh_token {
        Some(t) if t.len() > 0 => Some(t),
        _ => match github_token {
            Some(t) if t.len() > 0 => Some(t),
            _ => None,
        },
    }
}

pub fn first_token(gh_token: Option<String>, github_token: Option<String>) -> (r: Option<String>)
    ensures
        opt_text(r) == env_token_of(opt_text(gh_token), opt_text(github_token)),
{
    match gh_token {
        Some(t) => if !t.as_str().is_empty() {
            return Some(t);
        },
        None => {},
    }
    match github_token {
        Some(t) => if !t.as_str().is_empty() {
            Some(t)
        } else {
            None
        },
        None => None,
    }
}

/// `s` trimmed of surrounding whitespace.
pub fn trimmed(s: &str) -> (r: String)
    ensures
        r@ == trim(s@),
{
    let cs = to_chars(s);
    assert(cs@.subrange(0, cs.len() as int) =~= s@);
    let (a, b) = trim_bounds(&cs, 0, cs.len());
    substring(&cs, a, b)
}

/// What `gh auth token` said: when it failed, its trimmed stderr (or
/// `gh exited with <status>` when that is empty); when it succeeded, its
/// trimmed stdout, `None` when empty.
pub open spec fn gh_token_result(
    success: bool,
    status: Seq<char>,
    stdout: Seq<char>,
    stderr: Seq<char>,
) -> Result<Option<Seq<char>>, Seq<char>> {
    if !success {
        Err(
            if trim(stderr).len() == 0 {
                "gh exited with "@ + status
            } else {
                trim(stderr)
            },
        )
    } else if trim(stdout).len() == 0 {
        Ok(None)
    } else {
        Ok(Some(trim(stdout)))
    }
}

pub open spec fn token_result_view(r: Result<Option<String>, String>) -> Result<Option<Seq<char>>, Seq<char>> {
    match r {
        Ok(o) => Ok(opt_text(o)),
        Err(e) => Err(e@),
    }
}

/// Reads the output of `gh auth token` (decoded text of its streams and
/// the display of its exit status).
pub fn token_from_gh_output(success: bool, status: &str, stdout: &str, stderr: &str) -> (r: Result<
    Option<String>,
    String,
>)
    ensures
        token_result_view(r) == gh_token_result(success, status@, stdout@, stderr@),
{
    if !success {
        let msg = trimmed(stderr);
        if msg.as_str().is_empty() {
            let mut m = "gh exited with ".to_owned();
            m.append(status);
            return Err(m);
        }
        return Err(msg);
    }
    let token = trimmed(stdout);
    if token.as_str().is_empty() {
        Ok(None)
    } else {
        Ok(Some(token))
    }
}

/// Why `gh` could not be started: not installed, or another I/O error
/// (its kind's display text).
pub fn gh_spawn_failure(not_found: bool, kind: &str) -> (r: String)
    ensures
        r@ == (if not_found {
            "`gh` not installed"@
        } else {
            "failed to run `gh`: "@ + kind@
        }),
{
    if not_found {
        "`gh` not installed".to_owned()
    } else {
        let mut m = "failed to run `gh`: ".to_owned();
        m.append(kind);
        m
    }
}

/// A token from the environment settles detection; without one, `gh` has
/// to be asked.
pub fn auth_from_env(host: String, env_token: Option<String>) -> (r: Option<AuthOutcome>)
    ensures
        match env_token {
            Some(t) => r matches Some(AuthOutcome::Token { token, host: h, user }) && token@ == t@
                && h@ == host@ && user is None,
            None => r is None,
        },
{
    match env_token {
        Some(token) => Some(AuthOutcome::Token { token, host, user: None }),
        None => None,
    }
}

/// The outcome from `gh auth token`'s answer: a token, `run `gh auth
/// login`` when it printed nothing, or its error.
pub fn auth_from_gh(host: String, gh: Result<Option<String>, String>) -> (r: AuthOutcome)
    ensures
        match gh {
            Ok(Some(t)) => r matches AuthOutcome::Token { token, host: h, user } && token@ == t@
                && h@ == host@ && user is None,
            Ok(None) => r matches AuthOutcome::Missing { reason } && reason@ == "run `gh auth login`"@,
            Err(e) => r matches AuthOutcome::Missing { reason } && reason@ == e@,
        },
{
    match gh {
        Ok(Some(token)) => AuthOutcome::Token { token, host, user: None },
        Ok(None) => AuthOutcome::Missing { reason: "run `gh auth login`".to_owned() },
        Err(reason) => AuthOutcome::Missing { reason },
    }
}

} // verus!
