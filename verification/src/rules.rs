//! The classification grammar for commit brief lines.
//!
//! Three ordered rule families decide where a commit goes: additions
//! (`Add`, `Added`, `New`, ...), fixes (`Fix`, `Fixed`, ...) and version
//! bumps (`Bump version`, `Kick off`, ...).  Each family also accepts a
//! leading file or tool name: any `<prefix>:` for additions, any word
//! followed by whitespace for fixes, and a fixed set of build files for
//! bumps.  Whitespace here is a space or a tab, as [`crate::text::is_ws`]
//! says.

use vstd::prelude::*;
use vstd::string::StrSliceExecFns;
use crate::text::is_ws;
use crate::text::ws_char;
use crate::text::matches_at;
use crate::text::has_at;
use crate::text::ws_end;
use crate::text::skip_ws;

verus! {

/// One whitespace character at `p` and at least one character after it.
pub open spec fn ws_then_more(s: Seq<char>, p: int) -> bool {
    p + 2 <= s.len() && 0 <= p && is_ws(s[p])
}

/// Check [`ws_then_more`] at `p`.
pub fn ws_then_more_at(s: &str, p: usize) -> (r: bool)
    ensures
        r == ws_then_more(s@, p as int),
{
    let n = s.unicode_len();
    if p >= n || n - p < 2 {
        false
    } else {
        ws_char(s.get_char(p))
    }
}

/// An optional `ed` at `p`, then whitespace and a non-empty remainder.
pub open spec fn ed_tail(s: Seq<char>, p: int) -> bool {
    (matches_at(s, p, "ed"@) && ws_then_more(s, p + 2)) || ws_then_more(s, p)
}

/// Check [`ed_tail`] at `p`.
pub fn ed_tail_at(s: &str, p: usize) -> (r: bool)
    ensures
        r == ed_tail(s@, p as int),
{
    proof {
        reveal_strlit("ed");
    }
    let n = s.unicode_len();
    (has_at(s, p, "ed") && ws_then_more_at(s, p + 2)) || ws_then_more_at(s, p)
}

/// An addition keyword at `i`: `Add`/`add`, optionally suffixed `ed`, or
/// `New`/`new`, followed by whitespace and a non-empty remainder.
pub open spec fn add_clause(s: Seq<char>, i: int) -> bool {
    ||| ((matches_at(s, i, "Add"@) || matches_at(s, i, "add"@)) && ed_tail(s, i + 3))
    ||| ((matches_at(s, i, "New"@) || matches_at(s, i, "new"@)) && ws_then_more(s, i + 3))
}

/// Check [`add_clause`] at `i`.
pub fn add_clause_at(s: &str, i: usize) -> (r: bool)
    ensures
        r == add_clause(s@, i as int),
{
    proof {
        reveal_strlit("Add");
        reveal_strlit("add");
        reveal_strlit("New");
        reveal_strlit("new");
    }
    let n = s.unicode_len();
    if (has_at(s, i, "Add") || has_at(s, i, "add")) && ed_tail_at(s, i + 3) {
        return true;
    }
    (has_at(s, i, "New") || has_at(s, i, "new")) && ws_then_more_at(s, i + 3)
}

/// A fix keyword at `i`: `Fix`/`fix`, optionally suffixed `ed`, followed
/// by whitespace and a non-empty remainder.
pub open spec fn fix_clause(s: Seq<char>, i: int) -> bool {
    (matches_at(s, i, "Fix"@) || matches_at(s, i, "fix"@)) && ed_tail(s, i + 3)
}

/// Check [`fix_clause`] at `i`.
pub fn fix_clause_at(s: &str, i: usize) -> (r: bool)
    ensures
        r == fix_clause(s@, i as int),
{
    proof {
        reveal_strlit("Fix");
        reveal_strlit("fix");
    }
    let n = s.unicode_len();
    (has_at(s, i, "Fix") || has_at(s, i, "fix")) && ed_tail_at(s, i + 3)
}

/// `Kick off`/`kick off` at `i`, followed by whitespace and a non-empty
/// remainder.
pub open spec fn kick_clause(s: Seq<char>, i: int) -> bool {
    (matches_at(s, i, "Kick off"@) || matches_at(s, i, "kick off"@)) && ws_then_more(s, i + 8)
}

/// Check [`kick_clause`] at `i`.
pub fn kick_clause_at(s: &str, i: usize) -> (r: bool)
    ensures
        r == kick_clause(s@, i as int),
{
    proof {
        reveal_strlit("Kick off");
        reveal_strlit("kick off");
    }
    let n = s.unicode_len();
    (has_at(s, i, "Kick off") || has_at(s, i, "kick off")) && ws_then_more_at(s, i + 8)
}

/// The names of the build files whose version-bump commits are dropped,
/// each with its trailing colon; the position after the colon if one of
/// them starts the line.
pub open spec fn tool_prefix_end(s: Seq<char>) -> Option<int> {
    if matches_at(s, 0, "configure:"@) {
        Some(10 as int)
    } else if matches_at(s, 0, "meson:"@) {
        Some(6 as int)
    } else if matches_at(s, 0, "CMakeLists:"@) {
        Some(11 as int)
    } else if matches_at(s, 0, "version:"@) {
        Some(8 as int)
    } else {
        None
    }
}

/// Check [`tool_prefix_end`].
pub fn tool_prefix_at(s: &str) -> (r: Option<usize>)
    ensures
        match r {
            Some(p) => tool_prefix_end(s@) == Some(p as int) && p <= s@.len(),
            None => tool_prefix_end(s@) is None,
        },
{
    proof {
        reveal_strlit("configure:");
        reveal_strlit("meson:");
        reveal_strlit("CMakeLists:");
        reveal_strlit("version:");
    }
    if has_at(s, 0, "configure:") {
        Some(10)
    } else if has_at(s, 0, "meson:") {
        Some(6)
    } else if has_at(s, 0, "CMakeLists:") {
        Some(11)
    } else if has_at(s, 0, "version:") {
        Some(8)
    } else {
        None
    }
}

/// `Bump` or `bump` at `i`.
pub open spec fn bump_kw_at(s: Seq<char>, i: int) -> bool {
    matches_at(s, i, "Bump"@) || matches_at(s, i, "bump"@)
}

/// The position after the bump keyword at `i` and its optional `ed`.
pub open spec fn bump_kw_end(s: Seq<char>, i: int) -> int {
    if matches_at(s, i + 4, "ed"@) {
        i + 6
    } else {
        i + 4
    }
}

/// `Bump[ed] version` at `i` with a non-empty remainder.
pub open spec fn bump_version_clause(s: Seq<char>, i: int) -> bool {
    bump_kw_at(s, i) && {
        let j = ws_end(s, bump_kw_end(s, i));
        j > bump_kw_end(s, i) && matches_at(s, j, "version"@) && j + 8 <= s.len()
    }
}

/// `Bump[ed] version` at `i`, then whitespace and a non-empty remainder.
pub open spec fn bump_version_strict_clause(s: Seq<char>, i: int) -> bool {
    bump_kw_at(s, i) && {
        let j = ws_end(s, bump_kw_end(s, i));
        j > bump_kw_end(s, i) && matches_at(s, j, "version"@) && j + 9 <= s.len() && is_ws(
            s[j + 7],
        )
    }
}

/// Check [`bump_version_clause`] (`strict` selects
/// [`bump_version_strict_clause`]) at `i`.
pub fn bump_version_at(s: &str, i: usize, strict: bool) -> (r: bool)
    ensures
        !strict ==> r == bump_version_clause(s@, i as int),
        strict ==> r == bump_version_strict_clause(s@, i as int),
{
    proof {
        reveal_strlit("Bump");
        reveal_strlit("bump");
        reveal_strlit("ed");
        reveal_strlit("version");
    }
    let n = s.unicode_len();
    if !(has_at(s, i, "Bump") || has_at(s, i, "bump")) {
        return false;
    }
    let e = if has_at(s, i + 4, "ed") {
        i + 6
    } else {
        i + 4
    };
    let j = skip_ws(s, e);
    if j == e || !has_at(s, j, "version") {
        return false;
    }
    if !strict {
        j <= n - 8
    } else {
        j <= n - 9 && ws_char(s.get_char(j + 7))
    }
}

/// `version:`/`VERSION:` then whitespace, a bump keyword and a non-empty
/// remainder.
pub open spec fn version_bump_clause(s: Seq<char>) -> bool {
    (matches_at(s, 0, "version:"@) || matches_at(s, 0, "VERSION:"@)) && {
        let j = ws_end(s, 8);
        j > 8 && bump_kw_at(s, j) && j + 5 <= s.len()
    }
}

/// Check [`version_bump_clause`].
pub fn version_bump_at(s: &str) -> (r: bool)
    ensures
        r == version_bump_clause(s@),
{
    proof {
        reveal_strlit("version:");
        reveal_strlit("VERSION:");
        reveal_strlit("Bump");
        reveal_strlit("bump");
    }
    let n = s.unicode_len();
    if !(has_at(s, 0, "version:") || has_at(s, 0, "VERSION:")) {
        return false;
    }
    let j = skip_ws(s, 8);
    if j == 8 || !(has_at(s, j, "Bump") || has_at(s, j, "bump")) {
        return false;
    }
    j <= n - 5
}

/// The colon at `c` introduces whitespace and an addition clause.
pub open spec fn colon_add_tail(s: Seq<char>, c: int) -> bool {
    let j = ws_end(s, c + 1);
    j > c + 1 && add_clause(s, j)
}

/// The brief line announces an addition: an addition clause opens the
/// line or follows a `<prefix>:` and whitespace.
pub open spec fn is_addition(s: Seq<char>) -> bool {
    ||| add_clause(s, 0)
    ||| exists|c: int| 1 <= c < s.len() && s[c] == ':' && #[trigger] colon_add_tail(s, c)
}

/// Decide [`is_addition`] for the line `s`.
pub fn addition_line(s: &str) -> (r: bool)
    ensures
        r == is_addition(s@),
{
    if add_clause_at(s, 0) {
        return true;
    }
    let n = s.unicode_len();
    let mut c: usize = 1;
    while c < n
        invariant
            1 <= c,
            n == s@.len(),
            forall|k: int|
                1 <= k < c ==> !(s@[k] == ':' && #[trigger] colon_add_tail(s@, k)),
        decreases n - c,
    {
        if s.get_char(c) == ':' {
            let j = skip_ws(s, c + 1);
            if j > c + 1 && add_clause_at(s, j) {
                proof {
                    assert(colon_add_tail(s@, c as int));
                }
                return true;
            }
        }
        c += 1;
    }
    false
}

/// The brief line announces a fix: a fix clause opens the line or
/// follows a whitespace character.
pub open spec fn is_fix(s: Seq<char>) -> bool {
    ||| fix_clause(s, 0)
    ||| exists|i: int| 2 <= i < s.len() && is_ws(s[i - 1]) && #[trigger] fix_clause(s, i)
}

/// Decide [`is_fix`] for the line `s`.
pub fn fix_line(s: &str) -> (r: bool)
    ensures
        r == is_fix(s@),
{
    if fix_clause_at(s, 0) {
        return true;
    }
    let n = s.unicode_len();
    let mut i: usize = 2;
    while i < n
        invariant
            2 <= i,
            n == s@.len(),
            forall|k: int| 2 <= k < i ==> !(is_ws(s@[k - 1]) && #[trigger] fix_clause(s@, k)),
        decreases n - i,
    {
        if ws_char(s.get_char(i - 1)) && fix_clause_at(s, i) {
            proof {
                assert(fix_clause(s@, i as int));
            }
            return true;
        }
        i += 1;
    }
    false
}

/// The brief line announces a version bump, possibly behind the name of
/// a build file; such commits are left out of the changelog.
pub open spec fn is_bump(s: Seq<char>) -> bool {
    ||| kick_clause(s, 0)
    ||| (match tool_prefix_end(s) {
        Some(p) => {
            let j = ws_end(s, p);
            j > p && (kick_clause(s, j) || bump_version_strict_clause(s, j))
        },
        None => false,
    })
    ||| bump_version_clause(s, 0)
    ||| version_bump_clause(s)
}

/// Decide [`is_bump`] for the line `s`.
pub fn bump_line(s: &str) -> (r: bool)
    ensures
        r == is_bump(s@),
{
    if kick_clause_at(s, 0) {
        return true;
    }
    match tool_prefix_at(s) {
        Some(p) => {
            let j = skip_ws(s, p);
            if j > p && (kick_clause_at(s, j) || bump_version_at(s, j, true)) {
                return true;
            }
        },
        None => {},
    }
    if bump_version_at(s, 0, false) {
        return true;
    }
    version_bump_at(s)
}

} // verus!
