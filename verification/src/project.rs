//! A project under announcement: its repository path, its changelog
//! file, and small helpers for names and parameters.

use vstd::prelude::*;
use vstd::string::StrSliceExecFns;
use crate::text::find_char_from;
use crate::text::find_char;
use crate::text::find_at;
use crate::text::find_pat;
use crate::commit::rfind_char;
use crate::commit::rfind_char_in;

verus! {

/// The project name a repository URL carries: its last segment, and of
/// that everything before the first `.git`.
pub open spec fn project_name(u: Seq<char>) -> Seq<char> {
    let seg = match rfind_char(u, '/', 0, u.len() as int) {
        Some(p) => u.subrange(p + 1, u.len() as int),
        None => u,
    };
    match find_at(seg, 0, ".git"@) {
        Some(q) => seg.subrange(0, q),
        None => seg,
    }
}

/// Extract the project name from a repository URL.  Splitting at the
/// slashes always leaves a last segment, so there is always a name,
/// though it may be empty.
pub fn get_project_name(url: &str) -> (r: Option<String>)
    ensures
        r matches Some(name) && name@ == project_name(url@),
{
    proof {
        reveal_strlit(".git");
    }
    let n = url.unicode_len();
    let seg: &str = match rfind_char_in(url, '/', 0, n) {
        Some(p) => url.substring_char(p + 1, n),
        None => url,
    };
    let name = match find_pat(seg, 0, ".git") {
        Some(q) => seg.substring_char(0, q),
        None => seg,
    };
    Some(name.to_owned())
}

/// What a `key:value` parameter splits into; nothing without a colon.
pub open spec fn param_of(s: Seq<char>) -> Option<(Seq<char>, Seq<char>)> {
    match find_char_from(s, 0, ':') {
        Some(c) => Some((s.subrange(0, c), s.subrange(c + 1, s.len() as int))),
        None => None,
    }
}

/// Split a `key:value` parameter at its first colon.
pub fn parse_parameter(s: &str) -> (r: Option<(String, String)>)
    ensures
        match r {
            Some(kv) => param_of(s@) == Some((kv.0@, kv.1@)),
            None => param_of(s@) is None,
        },
{
    let n = s.unicode_len();
    proof {
        crate::text::lemma_find_char_from(s@, 0, ':');
    }
    match find_char(s, 0, ':') {
        Some(c) => {
            let key = s.substring_char(0, c).to_owned();
            let value = s.substring_char(c + 1, n).to_owned();
            Some((key, value))
        },
        None => None,
    }
}

/// A project: where its repository lies and what its changelog file is
/// called.
#[derive(Debug)]
pub struct Project {
    pub path: String,
    pub changelog: String,
}

impl Project {
    /// Create a `Project`; the changelog name starts at its default.
    pub fn new(path: &str) -> (r: Self)
        ensures
            r.path@ == path@,
            r.changelog@ == "NEWS.md"@,
    {
        Project { path: path.to_owned(), changelog: String::from_str("NEWS.md") }
    }

    /// Use another changelog file name.
    pub fn set_changelog(&mut self, filename: &str)
        ensures
            final (self).changelog@ == filename@,
            final (self).path == old(self).path,
    {
        self.changelog = filename.to_owned();
    }
}

/// The lowercase counterpart of an ASCII letter; any other character
/// stays as it is.
pub open spec fn ascii_lower(c: char) -> char {
    if 'A' <= c && c <= 'Z' {
        (((c as u32) + 32) as u8) as char
    } else {
        c
    }
}

/// Every character lowered by [`ascii_lower`].
pub open spec fn lower_seq(s: Seq<char>) -> Seq<char> {
    Seq::new(s.len(), |i: int| ascii_lower(s[i]))
}

/// The file name names a readme, in any ASCII case: `readme`,
/// `readme.md` or `readme.txt`.
pub open spec fn is_readme_name(p: Seq<char>) -> bool {
    lower_seq(p) == "readme"@ || lower_seq(p) == "readme.md"@ || lower_seq(p) == "readme.txt"@
}

/// Decide whether a file name names a readme, in any ASCII case.
pub fn is_readme_filename(path: &str) -> (r: bool)
    ensures
        r == is_readme_name(path@),
{
    let n = path.unicode_len();
    let mut low = String::new();
    let mut i: usize = 0;
    while i < n
        invariant
            0 <= i <= n,
            n == path@.len(),
            low@ =~= lower_seq(path@).take(i as int),
        decreases n - i,
    {
        let c = path.get_char(i);
        let u = c as u32;
        let lc = if 65 <= u && u <= 90 {
            ((u + 32) as u8) as char
        } else {
            c
        };
        low.push(lc);
        proof {
            assert(lower_seq(path@)[i as int] == ascii_lower(path@[i as int]));
            assert(low@ =~= lower_seq(path@).take(i + 1));
        }
        i += 1;
    }
    proof {
        assert(lower_seq(path@).take(n as int) =~= lower_seq(path@));
    }
    let a = String::from_str("readme");
    let b = String::from_str("readme.md");
    let c = String::from_str("readme.txt");
    low == a || low == b || low == c
}

} // verus!
