//! Repository naming and the pure parts of the git workflow.  Running git
//! itself is the binary's concern; the URL construction and the parsing of
//! what git printed are verified here.

use vstd::prelude::*;
use vstd::string::*;
use crate::config::GitCfg;
use crate::text::{chars_of, contains_seq, copy_range, find_first, index_of_char, occurs_at,
    str_contains, str_eq, string_from_chars, trim_chars, trim_seq};

verus! {

/// Clones and pulls student repositories under one organization.
pub struct Git {
    pub cfg: GitCfg,
}

/// The ssh form of a remote URL: `git@github.com:org/repo.git`.
pub open spec fn spec_ssh_url(org: Seq<char>, repo: Seq<char>) -> Seq<char> {
    "git@github.com:"@ + org + "/"@ + repo + ".git"@
}

/// The https form of a remote URL: `https://github.com/org/repo`.
pub open spec fn spec_https_url(org: Seq<char>, repo: Seq<char>) -> Seq<char> {
    "https://github.com/"@ + org + "/"@ + repo
}

impl Git {
    /// A git client over the configured organization and credential scheme.
    pub fn new(cfg: GitCfg) -> (r: Git)
        ensures
            r.cfg == cfg,
    {
        Git { cfg }
    }

    /// The remote URL of a repository: the ssh form under `ssh` credentials,
    /// the https form under `https`, and the ssh form as the fallback for
    /// anything else.
    pub fn remote_url(&self, repo_path: &str) -> (r: String)
        ensures
            self.cfg.credentials@ == "https"@ ==> r@ == spec_https_url(
                self.cfg.org@,
                repo_path@,
            ),
            self.cfg.credentials@ != "https"@ ==> r@ == spec_ssh_url(self.cfg.org@, repo_path@),
    {
        proof {
            assert("ssh"@.len() == 3) by {
                reveal_strlit("ssh");
            }
            assert("https"@.len() == 5) by {
                reveal_strlit("https");
            }
        }
        if str_eq(self.cfg.credentials.as_str(), "https") {
            let mut s = String::from_str("https://github.com/");
            s.append(self.cfg.org.as_str());
            s.append("/");
            s.append(repo_path);
            s
        } else {
            let mut s = String::from_str("git@github.com:");
            s.append(self.cfg.org.as_str());
            s.append("/");
            s.append(repo_path);
            s.append(".git");
            s
        }
    }
}

/// What `first_line_trimmed` returns: the first line of a text, trimmed;
/// nothing when that line is blank.
pub open spec fn spec_first_line(s: Seq<char>) -> Seq<char> {
    if exists|k: int| 0 <= k < s.len() && s[k] == '\n' {
        s.subrange(0, choose|k: int|
            0 <= k < s.len() && s[k] == '\n' && (forall|j: int| 0 <= j < k ==> s[j] != '\n'))
    } else {
        s
    }
}

/// The first line of a text, trimmed, or nothing when it is blank: the shape
/// of a commit hash in `git rev-parse` and `git rev-list` output.
pub fn first_line_trimmed(s: &str) -> (r: Option<String>)
    ensures
        match r {
            Some(h) => h@ == trim_seq(spec_first_line(s@)) && h@.len() > 0,
            None => trim_seq(spec_first_line(s@)).len() == 0,
        },
{
    let v = chars_of(s);
    let line = match index_of_char(&v, '\n') {
        Some(i) => {
            let out = copy_range(&v, 0, i);
            proof {
                let ni = i as int;
                assert(exists|k: int|
                    0 <= k < s@.len() && s@[k] == '\n' && (forall|j: int|
                        0 <= j < k ==> s@[j] != '\n')) by {
                    assert(0 <= ni < s@.len() && s@[ni] == '\n' && (forall|j: int|
                        0 <= j < ni ==> s@[j] != '\n'));
                }
                let k = choose|k: int|
                    0 <= k < s@.len() && s@[k] == '\n' && (forall|j: int|
                        0 <= j < k ==> s@[j] != '\n');
                assert(0 <= k < s@.len() && s@[k] == '\n' && (forall|j: int|
                    0 <= j < k ==> s@[j] != '\n'));
                assert(k == ni);
            }
            out
        },
        None => {
            let out = copy_range(&v, 0, v.len());
            proof {
                assert(out@ =~= s@);
            }
            out
        },
    };
    let t = trim_chars(&line);
    if t.len() == 0 {
        None
    } else {
        Some(string_from_chars(&t))
    }
}

/// What `before_argument` returns: the `--before=` argument for the cutoff
/// date, with midnight appended when the date carries no time of day.
pub open spec fn spec_before_argument(date: Seq<char>) -> Seq<char> {
    if contains_seq(date, " "@) {
        "--before="@ + date
    } else {
        "--before="@ + date + " 00:00:00"@
    }
}

/// Builds the `--before=` argument that selects the last commit before a
/// cutoff date: a date without a time of day means midnight.
pub fn before_argument(date: &str) -> (r: String)
    ensures
        r@ == spec_before_argument(date@),
{
    let mut s = String::from_str("--before=");
    s.append(date);
    if !str_contains(date, " ") {
        s.append(" 00:00:00");
    }
    s
}

} // verus!

verus! {

/// The position of the first occurrence of `pat` in `s`.
pub open spec fn first_occurrence(s: Seq<char>, pat: Seq<char>) -> int {
    choose|i: int|
        occurs_at(s, pat, i) && (forall|k: int| 0 <= k < i ==> !occurs_at(s, pat, k))
}

/// What `parse_default_branch` returns: the text after the first
/// `HEAD branch:` marker, up to the end of that line and trimmed — when the
/// marker occurs and that text is not blank.
pub open spec fn spec_default_branch(s: Seq<char>) -> Option<Seq<char>> {
    let m = "HEAD branch:"@;
    if contains_seq(s, m) {
        let rest = s.skip(first_occurrence(s, m) + m.len());
        let b = trim_seq(spec_first_line(rest));
        if b.len() > 0 {
            Some(b)
        } else {
            None
        }
    } else {
        None
    }
}

/// Reads the default branch out of `git remote show origin` output: the
/// trimmed remainder of the line that carries the `HEAD branch:` marker.
pub fn parse_default_branch(s: &str) -> (r: Option<String>)
    ensures
        match r {
            Some(b) => spec_default_branch(s@) == Some(b@),
            None => spec_default_branch(s@) is None,
        },
{
    let v = chars_of(s);
    let m = chars_of("HEAD branch:");
    match find_first(&v, &m) {
        None => None,
        Some(i) => {
            proof {
                let ni = i as int;
                assert(exists|j: int|
                    occurs_at(s@, m@, j) && (forall|k: int|
                        0 <= k < j ==> !occurs_at(s@, m@, k))) by {
                    assert(occurs_at(s@, m@, ni) && (forall|k: int|
                        0 <= k < ni ==> !occurs_at(s@, m@, k)));
                }
                let j = choose|j: int|
                    occurs_at(s@, m@, j) && (forall|k: int| 0 <= k < j ==> !occurs_at(s@, m@, k));
                assert(occurs_at(s@, m@, j) && (forall|k: int|
                    0 <= k < j ==> !occurs_at(s@, m@, k)));
                assert(j == ni);
            }
            let n = v.len();
            proof {
                assert(i + m@.len() <= n);
            }
            let after = copy_range(&v, i + m.len(), n);
            proof {
                assert(after@ =~= s@.skip(first_occurrence(s@, m@) + m@.len()));
            }
            let tail = string_from_chars(&after);
            first_line_trimmed(tail.as_str())
        },
    }
}

} // verus!
