//! The document inserter.
//!
//! A changelog document is a sequence of lines; release headings have
//! the exact shape `## [tag] - YYYY-MM-DD`.  A new section is inserted
//! immediately before the first release heading, once.  Two deliberate
//! policies: a document that already contains the section's own heading
//! line is left untouched (so running the inserter twice cannot
//! duplicate a release), and a document with no release heading at all
//! is left untouched too, which the outcome reports rather than passing
//! over in silence.

use vstd::prelude::*;
use vstd::string::StrSliceExecFns;
use crate::text::is_digit;
use crate::text::is_tag_char;
use crate::text::digit_char;
use crate::text::tag_char;
use crate::text::matches_at;
use crate::text::has_at;
use crate::text::ws_end;
use crate::text::skip_ws;
use crate::text::terminated_text;
use crate::text::join_lines_terminated;

verus! {

/// The end of the run of tag characters that starts at `i`.
pub open spec fn tag_end(s: Seq<char>, i: int) -> int
    decreases s.len() - i when 0 <= i <= s.len()
{
    if i < s.len() && is_tag_char(s[i]) {
        tag_end(s, i + 1)
    } else {
        i
    }
}

pub proof fn lemma_tag_end(s: Seq<char>, i: int)
    requires
        0 <= i <= s.len(),
    ensures
        i <= tag_end(s, i) <= s.len(),
    decreases s.len() - i,
{
    if i < s.len() && is_tag_char(s[i]) {
        lemma_tag_end(s, i + 1);
    }
}

/// Skip the run of tag characters that starts at `i`.
fn skip_tag(s: &str, i: usize) -> (j: usize)
    requires
        i <= s@.len(),
    ensures
        j == tag_end(s@, i as int),
        i <= j <= s@.len(),
{
    let n = s.unicode_len();
    let mut j = i;
    while j < n && tag_char(s.get_char(j))
        invariant
            i <= j <= n,
            n == s@.len(),
            tag_end(s@, i as int) == tag_end(s@, j as int),
        decreases n - j,
    {
        j += 1;
    }
    proof {
        lemma_tag_end(s@, j as int);
    }
    j
}

/// `YYYY-MM-DD` stands at `b`.
pub open spec fn date_digits_at(l: Seq<char>, b: int) -> bool {
    &&& 0 <= b
    &&& b + 10 <= l.len()
    &&& is_digit(l[b]) && is_digit(l[b + 1]) && is_digit(l[b + 2]) && is_digit(l[b + 3])
    &&& l[b + 4] == '-'
    &&& is_digit(l[b + 5]) && is_digit(l[b + 6])
    &&& l[b + 7] == '-'
    &&& is_digit(l[b + 8]) && is_digit(l[b + 9])
}

/// Check [`date_digits_at`] at `b`.
fn date_digits_check(l: &str, b: usize) -> (r: bool)
    ensures
        r == date_digits_at(l@, b as int),
{
    let n = l.unicode_len();
    if b > n || n - b < 10 {
        return false;
    }
    digit_char(l.get_char(b)) && digit_char(l.get_char(b + 1)) && digit_char(l.get_char(b + 2))
        && digit_char(l.get_char(b + 3)) && l.get_char(b + 4) == '-' && digit_char(
        l.get_char(b + 5),
    ) && digit_char(l.get_char(b + 6)) && l.get_char(b + 7) == '-' && digit_char(
        l.get_char(b + 8),
    ) && digit_char(l.get_char(b + 9))
}

/// The line is a release heading: `## [tag] - YYYY-MM-DD`, exactly.
pub open spec fn is_release_heading(l: Seq<char>) -> bool {
    matches_at(l, 0, "##"@) && {
        let j = ws_end(l, 2);
        j > 2 && j < l.len() && l[j] == '[' && {
            let k = tag_end(l, j + 1);
            k > j + 1 && k < l.len() && l[k] == ']' && {
                let a = ws_end(l, k + 1);
                a > k + 1 && a < l.len() && l[a] == '-' && {
                    let b = ws_end(l, a + 1);
                    b > a + 1 && date_digits_at(l, b) && l.len() == b + 10
                }
            }
        }
    }
}

/// Decide [`is_release_heading`] for the line `l`.
pub fn release_heading(l: &str) -> (r: bool)
    ensures
        r == is_release_heading(l@),
{
    proof {
        reveal_strlit("##");
    }
    if !has_at(l, 0, "##") {
        return false;
    }
    let n = l.unicode_len();
    let j = skip_ws(l, 2);
    if j <= 2 || j >= n || l.get_char(j) != '[' {
        return false;
    }
    let k = skip_tag(l, j + 1);
    if k <= j + 1 || k >= n || l.get_char(k) != ']' {
        return false;
    }
    let a = skip_ws(l, k + 1);
    if a <= k + 1 || a >= n || l.get_char(a) != '-' {
        return false;
    }
    let b = skip_ws(l, a + 1);
    b > a + 1 && date_digits_check(l, b) && n == b + 10
}

/// The line is the release heading of version `v`:
/// `## [v] - YYYY-MM-DD`, with `v` standing letter for letter.
pub open spec fn is_version_heading(l: Seq<char>, v: Seq<char>) -> bool {
    matches_at(l, 0, "##"@) && {
        let j = ws_end(l, 2);
        j > 2 && j < l.len() && l[j] == '[' && matches_at(l, j + 1, v) && {
            let k = j + 1 + v.len();
            k < l.len() && l[k] == ']' && {
                let a = ws_end(l, k + 1);
                a > k + 1 && a < l.len() && l[a] == '-' && {
                    let b = ws_end(l, a + 1);
                    b > a + 1 && date_digits_at(l, b) && l.len() == b + 10
                }
            }
        }
    }
}

/// Decide [`is_version_heading`] for the line `l` and version `v`.
pub fn version_heading(l: &str, v: &str) -> (r: bool)
    ensures
        r == is_version_heading(l@, v@),
{
    proof {
        reveal_strlit("##");
    }
    if !has_at(l, 0, "##") {
        return false;
    }
    let n = l.unicode_len();
    let j = skip_ws(l, 2);
    if j <= 2 || j >= n || l.get_char(j) != '[' {
        return false;
    }
    if !has_at(l, j + 1, v) {
        return false;
    }
    let k = j + 1 + v.unicode_len();
    if k >= n || l.get_char(k) != ']' {
        return false;
    }
    let a = skip_ws(l, k + 1);
    if a <= k + 1 || a >= n || l.get_char(a) != '-' {
        return false;
    }
    let b = skip_ws(l, a + 1);
    b > a + 1 && date_digits_check(l, b) && n == b + 10
}

/// The first release heading at or after line `i`.
pub open spec fn first_heading(doc: Seq<Seq<char>>, i: int) -> Option<int>
    decreases doc.len() - i when 0 <= i
{
    if i >= doc.len() {
        None
    } else if is_release_heading(doc[i]) {
        Some(i)
    } else {
        first_heading(doc, i + 1)
    }
}

pub proof fn lemma_first_heading(doc: Seq<Seq<char>>, i: int)
    requires
        0 <= i,
    ensures
        match first_heading(doc, i) {
            Some(j) => i <= j < doc.len() && is_release_heading(doc[j]) && forall|k: int|
                i <= k < j ==> !is_release_heading(doc[k]),
            None => forall|k: int| i <= k < doc.len() ==> !is_release_heading(doc[k]),
        },
    decreases doc.len() - i,
{
    if i < doc.len() && !is_release_heading(doc[i]) {
        lemma_first_heading(doc, i + 1);
    }
}

/// How an insertion ended.
#[derive(Debug, Clone, Copy, PartialEq, Eq, Structural)]
pub enum InsertOutcome {
    /// The section now stands before the first release heading.
    Inserted,
    /// The document already carries the section's heading line; it was
    /// left untouched.
    AlreadyPresent,
    /// The document has no release heading; it was left untouched.
    NoHeading,
}

/// What inserting a section into a document yields: the new lines and
/// the outcome.
pub open spec fn insert_spec(doc: Seq<Seq<char>>, sec: Seq<Seq<char>>) -> (Seq<Seq<char>>,
    InsertOutcome) {
    if sec.len() > 0 && doc.contains(sec[0]) {
        (doc, InsertOutcome::AlreadyPresent)
    } else {
        match first_heading(doc, 0) {
            Some(i) => (
                doc.subrange(0, i) + sec + doc.subrange(i, doc.len() as int),
                InsertOutcome::Inserted,
            ),
            None => (doc, InsertOutcome::NoHeading),
        }
    }
}

/// Insert a section's lines into a document's lines, immediately
/// before the first release heading.  The document comes back
/// unchanged when it already carries the section's heading line, and
/// when it has no release heading; the outcome says which.
pub fn insert_section(doc: &Vec<String>, section: &Vec<String>) -> (r: (Vec<String>,
    InsertOutcome))
    ensures
        r.0.deep_view() == insert_spec(doc.deep_view(), section.deep_view()).0,
        r.1 == insert_spec(doc.deep_view(), section.deep_view()).1,
{
    let ghost dv = doc.deep_view();
    let ghost sv = section.deep_view();
    if section.len() > 0 {
        let mut t: usize = 0;
        while t < doc.len()
            invariant
                0 <= t <= doc.len(),
                dv == doc.deep_view(),
                sv == section.deep_view(),
                section@.len() > 0,
                forall|k: int| 0 <= k < t ==> #[trigger] dv[k] != sv[0],
            decreases doc.len() - t,
        {
            proof {
                assert(dv[t as int] == doc@[t as int]@);
                assert(sv[0] == section@[0]@);
            }
            if doc[t] == section[0] {
                let out = clone_lines(doc);
                proof {
                    assert(dv.contains(sv[0]));
                }
                return (out, InsertOutcome::AlreadyPresent);
            }
            t += 1;
        }
        proof {
            if dv.contains(sv[0]) {
                let w = choose|w: int| 0 <= w < dv.len() && dv[w] == sv[0];
                assert(false);
            }
        }
    }
    let mut i: usize = 0;
    let mut found = false;
    while i < doc.len() && !found
        invariant
            0 <= i <= doc.len(),
            dv == doc.deep_view(),
            found ==> i < doc.len() && is_release_heading(dv[i as int]) && first_heading(dv, 0)
                == Some(i as int),
            !found ==> first_heading(dv, 0) == first_heading(dv, i as int),
        decreases doc.len() - i + (if found {
            0int
        } else {
            1int
        }),
    {
        proof {
            assert(dv[i as int] == doc@[i as int]@);
        }
        if release_heading(doc[i].as_str()) {
            found = true;
        } else {
            i += 1;
        }
    }
    if !found {
        let out = clone_lines(doc);
        return (out, InsertOutcome::NoHeading);
    }
    let mut out: Vec<String> = Vec::new();
    let mut k: usize = 0;
    while k < i
        invariant
            0 <= k <= i <= doc.len(),
            dv == doc.deep_view(),
            out.deep_view() =~= dv.subrange(0, k as int),
        decreases i - k,
    {
        let ghost pre = out.deep_view();
        proof {
            assert(dv[k as int] == doc@[k as int]@);
        }
        out.push(doc[k].clone());
        proof {
            assert(out.deep_view() =~= pre.push(dv[k as int]));
        }
        k += 1;
    }
    let mut k2: usize = 0;
    while k2 < section.len()
        invariant
            0 <= k2 <= section.len(),
            i <= doc.len(),
            dv == doc.deep_view(),
            sv == section.deep_view(),
            out.deep_view() =~= dv.subrange(0, i as int) + sv.take(k2 as int),
        decreases section.len() - k2,
    {
        let ghost pre = out.deep_view();
        proof {
            assert(sv[k2 as int] == section@[k2 as int]@);
        }
        out.push(section[k2].clone());
        proof {
            assert(out.deep_view() =~= pre.push(sv[k2 as int]));
        }
        k2 += 1;
    }
    let mut k3: usize = i;
    while k3 < doc.len()
        invariant
            i <= k3 <= doc.len(),
            dv == doc.deep_view(),
            sv == section.deep_view(),
            sv.take(sv.len() as int) == sv,
            out.deep_view() =~= dv.subrange(0, i as int) + sv + dv.subrange(i as int, k3 as int),
        decreases doc.len() - k3,
    {
        let ghost pre = out.deep_view();
        proof {
            assert(dv[k3 as int] == doc@[k3 as int]@);
        }
        out.push(doc[k3].clone());
        proof {
            assert(out.deep_view() =~= pre.push(dv[k3 as int]));
        }
        k3 += 1;
    }
    proof {
        assert(sv.take(sv.len() as int) =~= sv);
    }
    (out, InsertOutcome::Inserted)
}

/// Copy a document's lines.
fn clone_lines(doc: &Vec<String>) -> (r: Vec<String>)
    ensures
        r.deep_view() == doc.deep_view(),
{
    let mut out: Vec<String> = Vec::new();
    let mut k: usize = 0;
    while k < doc.len()
        invariant
            0 <= k <= doc.len(),
            out.deep_view() =~= doc.deep_view().subrange(0, k as int),
        decreases doc.len() - k,
    {
        let ghost pre = out.deep_view();
        proof {
            assert(doc.deep_view()[k as int] == doc@[k as int]@);
        }
        out.push(doc[k].clone());
        proof {
            assert(out.deep_view() =~= pre.push(doc.deep_view()[k as int]));
        }
        k += 1;
    }
    proof {
        assert(doc.deep_view().subrange(0, doc@.len() as int) =~= doc.deep_view());
    }
    out
}

/// Running the inserter a second time with the same section leaves the
/// document of the first run as it is: after an insertion the guard
/// sees the section's heading line, and a document the first run left
/// untouched is left untouched again.
pub proof fn lemma_insert_idempotent(doc: Seq<Seq<char>>, sec: Seq<Seq<char>>)
    ensures
        insert_spec(insert_spec(doc, sec).0, sec).0 == insert_spec(doc, sec).0,
{
    let d1 = insert_spec(doc, sec).0;
    if sec.len() > 0 && doc.contains(sec[0]) {
        assert(d1 == doc);
    } else {
        lemma_first_heading(doc, 0);
        match first_heading(doc, 0) {
            Some(i) => {
                if sec.len() > 0 {
                    assert(d1[i] == sec[0]);
                    assert(d1.contains(sec[0]));
                } else {
                    assert(d1 =~= doc);
                    assert(insert_spec(d1, sec).0 =~= d1);
                }
            },
            None => {
                assert(d1 == doc);
            },
        }
    }
}

/// The first heading of version `v` at or after line `i`.
pub open spec fn find_version_heading(doc: Seq<Seq<char>>, v: Seq<char>, i: int) -> Option<int>
    decreases doc.len() - i when 0 <= i
{
    if i >= doc.len() {
        None
    } else if is_version_heading(doc[i], v) {
        Some(i)
    } else {
        find_version_heading(doc, v, i + 1)
    }
}

/// The first line at or after `i` that opens a second-level Markdown
/// heading.
pub open spec fn find_h2_from(doc: Seq<Seq<char>>, i: int) -> Option<int>
    decreases doc.len() - i when 0 <= i
{
    if i >= doc.len() {
        None
    } else if matches_at(doc[i], 0, "## "@) {
        Some(i)
    } else {
        find_h2_from(doc, i + 1)
    }
}

/// What extracting a version's section body from a document yields:
/// the lines between that version's heading and the next second-level
/// heading, each closed by a line feed; nothing if the version has no
/// heading.
pub open spec fn extract_spec(doc: Seq<Seq<char>>, v: Seq<char>) -> Seq<char> {
    match find_version_heading(doc, v, 0) {
        None => Seq::empty(),
        Some(i) => {
            let j = match find_h2_from(doc, i + 1) {
                Some(j) => j,
                None => doc.len() as int,
            };
            terminated_text(doc.subrange(i + 1, j))
        },
    }
}

/// Extract the body of the section of `version` from a changelog
/// document: the lines after its heading, up to the next second-level
/// heading.
pub fn extract_changelog(doc: &Vec<String>, version: &str) -> (r: String)
    ensures
        r@ == extract_spec(doc.deep_view(), version@),
{
    let ghost dv = doc.deep_view();
    let mut i: usize = 0;
    let mut found = false;
    while i < doc.len() && !found
        invariant
            0 <= i <= doc.len(),
            dv == doc.deep_view(),
            found ==> i < doc.len() && find_version_heading(dv, version@, 0) == Some(i as int),
            !found ==> find_version_heading(dv, version@, 0) == find_version_heading(
                dv,
                version@,
                i as int,
            ),
        decreases doc.len() - i + (if found {
            0int
        } else {
            1int
        }),
    {
        proof {
            assert(dv[i as int] == doc@[i as int]@);
        }
        if version_heading(doc[i].as_str(), version) {
            found = true;
        } else {
            i += 1;
        }
    }
    if !found {
        return String::new();
    }
    proof {
        reveal_strlit("## ");
    }
    let mut j: usize = i + 1;
    let mut stop = false;
    while j < doc.len() && !stop
        invariant
            i + 1 <= j <= doc.len(),
            dv == doc.deep_view(),
            stop ==> j < doc.len() && find_h2_from(dv, i + 1) == Some(j as int),
            !stop ==> find_h2_from(dv, i + 1) == find_h2_from(dv, j as int),
        decreases doc.len() - j + (if stop {
            0int
        } else {
            1int
        }),
    {
        proof {
            assert(dv[j as int] == doc@[j as int]@);
        }
        if has_at(doc[j].as_str(), 0, "## ") {
            stop = true;
        } else {
            j += 1;
        }
    }
    let mut body: Vec<String> = Vec::new();
    let mut k: usize = i + 1;
    while k < j
        invariant
            i + 1 <= k <= j <= doc.len(),
            dv == doc.deep_view(),
            body.deep_view() =~= dv.subrange(i + 1, k as int),
        decreases j - k,
    {
        let ghost pre = body.deep_view();
        proof {
            assert(dv[k as int] == doc@[k as int]@);
        }
        body.push(doc[k].clone());
        proof {
            assert(body.deep_view() =~= pre.push(dv[k as int]));
        }
        k += 1;
    }
    join_lines_terminated(&body)
}

} // verus!
