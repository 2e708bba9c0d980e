//! The pure side of the grading-service upload: the roster mapping from
//! repository users to login ids, the enrollment lookup, and the pagination
//! link parsing.  The HTTP client and the CSV reader live in the binary.

use vstd::prelude::*;
use vstd::string::*;
use crate::text::str_eq;

verus! {

/// Maps repository user names to login ids, as loaded from the roster file.
pub struct CanvasMapper {
    pub pairs: Vec<(String, String)>,
}

/// The first mapping for `github` among the roster pairs, scanning the first
/// `i` of them.
pub open spec fn spec_lookup(pairs: Seq<(String, String)>, github: Seq<char>, i: int) -> Option<
    Seq<char>,
>
    decreases i,
{
    if i <= 0 {
        None
    } else {
        match spec_lookup(pairs, github, i - 1) {
            Some(v) => Some(v),
            None => if pairs[i - 1].0@ == github {
                Some(pairs[i - 1].1@)
            } else {
                None
            },
        }
    }
}

impl CanvasMapper {
    /// A mapper over already-loaded roster pairs, `(repository user, login
    /// id)`.  Reading and parsing the roster file is the caller's concern.
    pub fn from_pairs(pairs: Vec<(String, String)>) -> (r: CanvasMapper)
        ensures
            r.pairs == pairs,
    {
        CanvasMapper { pairs }
    }

    /// The login id mapped to a repository user, if the roster lists one.
    pub fn lookup(&self, github: &str) -> (r: Option<String>)
        ensures
            match r {
                Some(v) => spec_lookup(self.pairs@, github@, self.pairs@.len() as int) == Some(
                    v@,
                ),
                None => spec_lookup(self.pairs@, github@, self.pairs@.len() as int) is None,
            },
    {
        let mut i: usize = 0;
        while i < self.pairs.len()
            invariant
                i <= self.pairs@.len(),
                spec_lookup(self.pairs@, github@, i as int) is None,
            decreases self.pairs.len() - i,
        {
            if str_eq(self.pairs[i].0.as_str(), github) {
                let v = self.pairs[i].1.clone();
                proof {
                    lemma_lookup_extends(self.pairs@, github@, i as int + 1, self.pairs@.len() as int);
                }
                return Some(v);
            }
            i = i + 1;
        }
        None
    }
}

/// Once a lookup over a prefix has found a value, every longer prefix finds
/// the same value.
proof fn lemma_lookup_extends(pairs: Seq<(String, String)>, github: Seq<char>, i: int, n: int)
    requires
        0 < i <= n <= pairs.len(),
        spec_lookup(pairs, github, i) is Some,
    ensures
        spec_lookup(pairs, github, n) == spec_lookup(pairs, github, i),
    decreases n - i,
{
    if i < n {
        lemma_lookup_extends(pairs, github, i + 1, n);
    }
}

/// One enrollment record of the course roster.
pub struct Enrollment {
    pub user: EnrollmentUser,
    pub user_id: i64,
}

/// The user inside an enrollment record.
pub struct EnrollmentUser {
    pub login_id: String,
}

/// The first enrollment whose login id is `login`, scanning the first `i`
/// records.
pub open spec fn spec_enrolled_id(rows: Seq<Enrollment>, login: Seq<char>, i: int) -> Option<i64>
    decreases i,
{
    if i <= 0 {
        None
    } else {
        match spec_enrolled_id(rows, login, i - 1) {
            Some(v) => Some(v),
            None => if rows[i - 1].user.login_id@ == login {
                Some(rows[i - 1].user_id)
            } else {
                None
            },
        }
    }
}

/// The user id enrolled under a login id, if any.
pub fn enrolled_user_id(rows: &Vec<Enrollment>, login: &str) -> (r: Option<i64>)
    ensures
        r == spec_enrolled_id(rows@, login@, rows@.len() as int),
{
    let mut i: usize = 0;
    while i < rows.len()
        invariant
            i <= rows@.len(),
            spec_enrolled_id(rows@, login@, i as int) is None,
        decreases rows.len() - i,
    {
        if str_eq(rows[i].user.login_id.as_str(), login) {
            let id = rows[i].user_id;
            proof {
                lemma_enrolled_extends(rows@, login@, i as int + 1, rows@.len() as int);
            }
            return Some(id);
        }
        i = i + 1;
    }
    None
}

/// Once an enrollment lookup over a prefix has found an id, every longer
/// prefix finds the same id.
proof fn lemma_enrolled_extends(rows: Seq<Enrollment>, login: Seq<char>, i: int, n: int)
    requires
        0 < i <= n <= rows.len(),
        spec_enrolled_id(rows, login, i) is Some,
    ensures
        spec_enrolled_id(rows, login, n) == spec_enrolled_id(rows, login, i),
    decreases n - i,
{
    if i < n {
        lemma_enrolled_extends(rows, login, i + 1, n);
    }
}

} // verus!
