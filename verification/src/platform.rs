//! Local platform hardening: recognising an explicit no-access ACL entry for the
//! sandbox user group, and the environment that the GitHub CLI may inherit.
use vstd::prelude::*;
use crate::text::{chars_of, contains, contains_chars};

verus! {

pub open spec fn deny_marker() -> Seq<char> {
    "CodexSandboxUsers:"@
}

pub open spec fn no_access_marker() -> Seq<char> {
    "(N)"@
}

pub open spec fn has_both(line: Seq<char>) -> bool {
    contains(line, deny_marker()) && contains(line, no_access_marker())
}

/// Whether some line of `s[start..]` (the current line starting at `start`,
/// scanning from `k`) names the group with the no-access right.
pub open spec fn deny_scan(s: Seq<char>, start: int, k: int) -> bool
    decreases s.len() - k,
{
    if k >= s.len() {
        has_both(s.subrange(start, s.len() as int))
    } else if s[k] == '\n' {
        has_both(s.subrange(start, k)) || deny_scan(s, k + 1, k + 1)
    } else {
        deny_scan(s, start, k + 1)
    }
}

/// Whether one line of `icacls` output carries the sandbox group's no-access
/// (`(N)`) entry.
pub fn has_codex_deny_acl(output: &str) -> (r: bool)
    ensures
        r == deny_scan(output@, 0, 0),
{
    let chars = chars_of(output);
    let marker = chars_of("CodexSandboxUsers:");
    let no_access = chars_of("(N)");
    let mut start: usize = 0;
    let mut k: usize = 0;
    while k <= chars.len()
        invariant
            chars@ == output@,
            marker@ == deny_marker(),
            no_access@ == no_access_marker(),
            start <= k <= chars.len(),
            deny_scan(output@, 0, 0) == deny_scan(output@, start as int, k as int),
        decreases chars.len() + 1 - k,
    {
        if k == chars.len() || chars[k] == '\n' {
            let mut line: Vec<char> = Vec::new();
            let mut m = start;
            while m < k
                invariant
                    start <= m <= k <= chars.len(),
                    line@ == chars@.subrange(start as int, m as int),
                decreases k - m,
            {
                line.push(chars[m]);
                m = m + 1;
            }
            let found = contains_chars(&line, &marker) && contains_chars(&line, &no_access);
            if found {
                return true;
            }
            if k == chars.len() {
                return false;
            }
            start = k + 1;
        }
        k = k + 1;
    }
    false
}

/// The only environment variables handed to the GitHub CLI.
pub open spec fn gh_env_allowlist() -> Seq<Seq<char>> {
    seq![
        "SYSTEMROOT"@,
        "WINDIR"@,
        "COMSPEC"@,
        "USERPROFILE"@,
        "HOMEDRIVE"@,
        "HOMEPATH"@,
        "LOCALAPPDATA"@,
        "APPDATA"@,
        "PROGRAMDATA"@,
        "TEMP"@,
        "TMP"@,
        "PATH"@,
        "PATHEXT"@,
        "SSL_CERT_FILE"@,
        "SSL_CERT_DIR"@,
    ]
}

/// The allowlist in executable form.
pub fn gh_env_allowlist_names() -> (r: Vec<&'static str>)
    ensures
        r@.map_values(|s: &str| s@) == gh_env_allowlist(),
{
    let v: Vec<&'static str> = vec![
        "SYSTEMROOT",
        "WINDIR",
        "COMSPEC",
        "USERPROFILE",
        "HOMEDRIVE",
        "HOMEPATH",
        "LOCALAPPDATA",
        "APPDATA",
        "PROGRAMDATA",
        "TEMP",
        "TMP",
        "PATH",
        "PATHEXT",
        "SSL_CERT_FILE",
        "SSL_CERT_DIR",
    ];
    assert(v@.map_values(|s: &str| s@) =~= gh_env_allowlist());
    v
}

/// Whether the GitHub CLI may inherit the variable `name`.
pub fn gh_env_allowed(name: &str) -> (r: bool)
    ensures
        r == gh_env_allowlist().contains(name@),
{
    let names = gh_env_allowlist_names();
    let mut i: usize = 0;
    while i < names.len()
        invariant
            i <= names.len(),
            names@.map_values(|s: &str| s@) == gh_env_allowlist(),
            forall|k: int| 0 <= k < i ==> gh_env_allowlist()[k] != name@,
        decreases names.len() - i,
    {
        assert(gh_env_allowlist()[i as int] == names@[i as int]@);
        if crate::text::str_eq(names[i], name) {
            assert(gh_env_allowlist()[i as int] == name@);
            return true;
        }
        i = i + 1;
    }
    false
}

#[derive(Debug, Clone)]
pub struct GithubUser {
    pub id: u64,
    pub login: String,
    pub name: Option<String>,
    pub avatar_url: String,
}

} // verus!
