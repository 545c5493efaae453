//! Commits and the commit-log parser.
//!
//! A log is a sequence of blocks introduced by a `commit ` marker.  A
//! block opens with an identifier line, an `Author: Name <email>` line
//! and a `Date: <RFC 2822>` line; after one further (normally blank)
//! line follows the message body, whose lines lose their leading
//! whitespace.  A block that does not fit this shape yields no commit
//! and is skipped.

use vstd::prelude::*;
use vstd::string::StrSliceExecFns;
use crate::text::matches_at;
use crate::text::has_at;
use crate::text::ws_end;
use crate::text::skip_ws;
use crate::text::find_at;
use crate::text::find_pat;
use crate::text::lemma_find_at;
use crate::text::find_char;
use crate::text::first_line;
use crate::text::split_lines;
use crate::text::split_to_lines;
use crate::text::trim_start;
use crate::text::trim_start_str;
use crate::text::join_seqs;
use crate::text::join_strings;

verus! {

/// A point in time: seconds since the epoch and the local offset from
/// UTC in seconds, as an RFC 2822 date line carries them.
#[derive(Debug, Clone, Copy, PartialEq, Eq, Structural)]
pub struct Timestamp {
    pub seconds: i64,
    pub offset_seconds: i32,
}

/// What `chrono` reads out of an RFC 2822 date text: epoch seconds and
/// the offset from UTC, or nothing if the text is not such a date.  The
/// result depends on the text alone.
pub uninterp spec fn rfc2822_parse(s: Seq<char>) -> Option<(int, int)>;

/// Relies on `chrono::DateTime::<FixedOffset>::parse_from_rfc2822`, and
/// on `DateTime::timestamp` and `FixedOffset::local_minus_utc` to read
/// the parsed value out: together a function of the text alone, here
/// named [`rfc2822_parse`].
#[verifier::external_body]
fn parse_rfc2822(s: &str) -> (r: Option<Timestamp>)
    ensures
        match r {
            Some(t) => rfc2822_parse(s@) == Some((t.seconds as int, t.offset_seconds as int)),
            None => rfc2822_parse(s@) is None,
        },
{
    match chrono::DateTime::parse_from_rfc2822(s) {
        Ok(d) => Some(Timestamp { seconds: d.timestamp(), offset_seconds: d.offset().local_minus_utc() }),
        Err(_) => None,
    }
}

/// The author of a commit.
#[derive(Debug)]
pub struct Author {
    pub name: String,
    pub email: String,
}

/// The mathematical content of an [`Author`].
pub struct AuthorModel {
    pub name: Seq<char>,
    pub email: Seq<char>,
}

impl View for Author {
    type V = AuthorModel;

    open spec fn view(&self) -> AuthorModel {
        AuthorModel { name: self.name@, email: self.email@ }
    }
}

impl DeepView for Author {
    type V = AuthorModel;

    open spec fn deep_view(&self) -> AuthorModel {
        self.view()
    }
}

/// A parsed commit.
#[derive(Debug)]
pub struct Commit {
    pub id: String,
    pub author: Author,
    pub date: Timestamp,
    pub message: String,
}

/// The mathematical content of a [`Commit`].
pub struct CommitModel {
    pub id: Seq<char>,
    pub author: AuthorModel,
    pub seconds: int,
    pub offset_seconds: int,
    pub message: Seq<char>,
}

impl View for Commit {
    type V = CommitModel;

    open spec fn view(&self) -> CommitModel {
        CommitModel {
            id: self.id@,
            author: self.author@,
            seconds: self.date.seconds as int,
            offset_seconds: self.date.offset_seconds as int,
            message: self.message@,
        }
    }
}

impl DeepView for Commit {
    type V = CommitModel;

    open spec fn deep_view(&self) -> CommitModel {
        self.view()
    }
}

/// The brief of a message: its first line, or nothing if the message is
/// empty.
pub open spec fn brief_of(m: Seq<char>) -> Option<Seq<char>> {
    if m.len() == 0 {
        None
    } else {
        Some(first_line(m))
    }
}

impl Commit {
    /// Return the first line of the commit message.
    pub fn brief(&self) -> (r: Option<&str>)
        ensures
            match r {
                Some(b) => brief_of(self.message@) == Some(b@),
                None => brief_of(self.message@) is None,
            },
    {
        let n = self.message.as_str().unicode_len();
        if n == 0 {
            return None;
        }
        proof {
            crate::text::lemma_find_char_from(self.message@, 0, '\n');
        }
        match find_char(self.message.as_str(), 0, '\n') {
            Some(i) => Some(self.message.as_str().substring_char(0, i)),
            None => Some(self.message.as_str().substring_char(0, n)),
        }
    }
}

/// The last position in `[lo, hi)` that carries `c`.
pub open spec fn rfind_char(s: Seq<char>, c: char, lo: int, hi: int) -> Option<int>
    decreases hi - lo,
{
    if hi <= lo {
        None
    } else if s[hi - 1] == c {
        Some(hi - 1)
    } else {
        rfind_char(s, c, lo, hi - 1)
    }
}

/// Search `[lo, hi)` backwards for `c`.
pub fn rfind_char_in(s: &str, c: char, lo: usize, hi: usize) -> (r: Option<usize>)
    requires
        hi <= s@.len(),
    ensures
        match r {
            Some(j) => lo <= hi && rfind_char(s@, c, lo as int, hi as int) == Some(j as int)
                && lo <= j < hi,
            None => lo > hi || rfind_char(s@, c, lo as int, hi as int) is None,
        },
{
    if hi <= lo {
        return None;
    }
    let mut h = hi;
    while h > lo
        invariant
            lo <= h <= hi <= s@.len(),
            rfind_char(s@, c, lo as int, hi as int) == rfind_char(s@, c, lo as int, h as int),
        decreases h,
    {
        if s.get_char(h - 1) == c {
            return Some(h - 1);
        }
        h -= 1;
    }
    None
}

/// What an `Author:` line carries: the name up to the last `<` and the
/// email between that `<` and the closing `>`, or nothing if the line is
/// not of that shape.
pub open spec fn author_of(l: Seq<char>) -> Option<(Seq<char>, Seq<char>)> {
    if !matches_at(l, 0, "Author:"@) {
        None
    } else {
        let w = ws_end(l, 7);
        if w <= 7 || l.len() == 0 || l[l.len() - 1] != '>' {
            None
        } else {
            match rfind_char(l, '<', w + 1, l.len() - 2) {
                Some(lt) => Some((l.subrange(w, lt), l.subrange(lt + 1, l.len() - 1))),
                None => None,
            }
        }
    }
}

/// Parse an `Author:` line.
fn parse_author(l: &str) -> (r: Option<Author>)
    ensures
        match r {
            Some(a) => author_of(l@) == Some((a.name@, a.email@)),
            None => author_of(l@) is None,
        },
{
    proof {
        reveal_strlit("Author:");
    }
    if !has_at(l, 0, "Author:") {
        return None;
    }
    let n = l.unicode_len();
    let w = skip_ws(l, 7);
    if w <= 7 || l.get_char(n - 1) != '>' {
        return None;
    }
    if w >= n - 2 {
        return None;
    }
    match rfind_char_in(l, '<', w + 1, n - 2) {
        Some(lt) => {
            let name = l.substring_char(w, lt).to_owned();
            let email = l.substring_char(lt + 1, n - 1).to_owned();
            Some(Author { name, email })
        },
        None => None,
    }
}

/// What a `Date:` line carries: everything after `Date:` and the
/// whitespace run, or nothing if the line is not of that shape.
pub open spec fn date_text_of(l: Seq<char>) -> Option<Seq<char>> {
    if !matches_at(l, 0, "Date:"@) {
        None
    } else {
        let w = ws_end(l, 5);
        if w <= 5 || w >= l.len() {
            None
        } else {
            Some(l.subrange(w, l.len() as int))
        }
    }
}

/// Parse a `Date:` line down to its date text.
fn parse_date_text(l: &str) -> (r: Option<&str>)
    ensures
        match r {
            Some(d) => date_text_of(l@) == Some(d@),
            None => date_text_of(l@) is None,
        },
{
    proof {
        reveal_strlit("Date:");
    }
    if !has_at(l, 0, "Date:") {
        return None;
    }
    let n = l.unicode_len();
    let w = skip_ws(l, 5);
    if w <= 5 || w >= n {
        return None;
    }
    Some(l.substring_char(w, n))
}

/// Removing leading whitespace, as a function value.
pub open spec fn trim_fn() -> spec_fn(Seq<char>) -> Seq<char> {
    |l: Seq<char>| trim_start(l)
}

/// The message body of a block: its lines after the first four, each
/// with leading whitespace removed, joined with line feeds.
pub open spec fn body_of(ls: Seq<Seq<char>>) -> Seq<char> {
    if ls.len() <= 4 {
        Seq::empty()
    } else {
        join_seqs(ls.skip(4).map_values(trim_fn()), seq!['\n'])
    }
}

/// What one block of the log parses to, if anything: the identifier
/// line, the author, the timestamp the date line carries, and the body.
pub open spec fn parse_block(b: Seq<char>) -> Option<CommitModel> {
    let ls = split_lines(b);
    if ls.len() < 3 {
        None
    } else {
        match author_of(ls[1]) {
            None => None,
            Some(ae) => match date_text_of(ls[2]) {
                None => None,
                Some(ds) => match rfc2822_parse(ds) {
                    None => None,
                    Some(t) => Some(
                        CommitModel {
                            id: ls[0],
                            author: AuthorModel { name: ae.0, email: ae.1 },
                            seconds: t.0,
                            offset_seconds: t.1,
                            message: body_of(ls),
                        },
                    ),
                },
            },
        }
    }
}

/// Parses one block of `git log` output.
///
/// The shape of a block is fixed, so unlike a parser that compiles its
/// patterns this one cannot fail to construct.
#[derive(Debug)]
pub struct CommitLogParser {
}

impl CommitLogParser {
    /// Create a new commit log parser.
    pub fn new() -> (r: Self)
    {
        CommitLogParser {  }
    }

    /// Parse one commit block, or skip it if it is malformed.
    pub fn parse(&self, text: &str) -> (r: Option<Commit>)
        ensures
            match r {
                Some(c) => parse_block(text@) == Some(c.deep_view()),
                None => parse_block(text@) is None,
            },
    {
        let lines = split_to_lines(text);
        let ghost ls = split_lines(text@);
        if lines.len() < 3 {
            return None;
        }
        proof {
            assert(lines.deep_view()[1] == lines@[1].deep_view());
            assert(lines.deep_view()[2] == lines@[2].deep_view());
        }
        let author = match parse_author(lines[1].as_str()) {
            Some(a) => a,
            None => {
                return None;
            },
        };
        let date_str = match parse_date_text(lines[2].as_str()) {
            Some(d) => d,
            None => {
                return None;
            },
        };
        let date = match parse_rfc2822(date_str) {
            Some(t) => t,
            None => {
                return None;
            },
        };
        let mut trimmed: Vec<String> = Vec::new();
        if lines.len() >= 4 {
            let mut i: usize = 4;
            while i < lines.len()
                invariant
                    4 <= i <= lines.len(),
                    ls == lines.deep_view(),
                    trimmed.deep_view() =~= ls.skip(4).map_values(trim_fn()).take(i - 4),
                decreases lines.len() - i,
            {
                let ghost pre = trimmed.deep_view();
                trimmed.push(trim_start_str(lines[i].as_str()).to_owned());
                proof {
                    let f = trim_fn();
                    assert(lines.deep_view()[i as int] == lines@[i as int].deep_view());
                    assert(trimmed.deep_view() =~= pre.push(trim_start(ls[i as int])));
                    assert(ls.skip(4).map_values(f)[i - 4] == f(ls.skip(4)[i - 4]));
                    assert(ls.skip(4)[i - 4] == ls[i as int]);
                    assert(ls.skip(4).map_values(f).take(i - 4).push(
                        ls.skip(4).map_values(f)[i - 4],
                    ) =~= ls.skip(4).map_values(f).take(i - 4 + 1));
                }
                i += 1;
            }
            proof {
                assert(ls.skip(4).map_values(trim_fn()).take(lines.len() - 4) =~= ls.skip(
                    4,
                ).map_values(trim_fn()));
            }
        }
        let message = join_strings(&trimmed, "\n");
        proof {
            reveal_strlit("\n");
            assert("\n"@ =~= seq!['\n']);
            if ls.len() <= 4 {
                assert(trimmed.deep_view() =~= Seq::<Seq<char>>::empty());
            }
            assert(message@ == body_of(ls));
        }
        Some(
            Commit {
                id: lines[0].clone(),
                author,
                date,
                message,
            },
        )
    }
}

/// The log text split at every `commit ` marker.  What stands before
/// the first marker is an extra first segment, empty when the log opens
/// with a marker.
pub open spec fn split_marker(s: Seq<char>) -> Seq<Seq<char>>
    decreases s.len(),
    when s.len() >= 0
    via split_marker_dec
{
    match find_at(s, 0, "commit "@) {
        None => seq![s],
        Some(i) => seq![s.subrange(0, i)] + split_marker(s.subrange(i + 7, s.len() as int)),
    }
}

#[via_fn]
proof fn split_marker_dec(s: Seq<char>) {
    reveal_strlit("commit ");
    lemma_find_at(s, 0, "commit "@);
}

/// Split the log text at every `commit ` marker.
pub fn split_segments(s: &str) -> (r: Vec<String>)
    ensures
        r.deep_view() == split_marker(s@),
        r.len() >= 1,
{
    proof {
        reveal_strlit("commit ");
    }
    let mut out: Vec<String> = Vec::new();
    let mut rest: &str = s;
    let ghost whole = s@;
    loop
        invariant
            whole == s@,
            out.deep_view() + split_marker(rest@) =~= split_marker(whole),
        decreases rest@.len(),
    {
        let n = rest.unicode_len();
        proof {
            reveal_strlit("commit ");
            lemma_find_at(rest@, 0, "commit "@);
        }
        match find_pat(rest, 0, "commit ") {
            None => {
                let ghost pre = out.deep_view();
                out.push(rest.to_owned());
                proof {
                    assert(out.deep_view() =~= pre.push(rest@));
                    assert(split_marker(rest@) =~= seq![rest@]);
                    assert(pre.push(rest@) =~= pre + seq![rest@]);
                    assert(out.deep_view() =~= split_marker(whole));
                }
                return out;
            },
            Some(i) => {
                let ghost pre = out.deep_view();
                let seg = rest.substring_char(0, i);
                out.push(seg.to_owned());
                let ghost old_rest = rest@;
                rest = rest.substring_char(i + 7, n);
                proof {
                    assert(split_marker(old_rest) =~= seq![old_rest.subrange(0, i as int)]
                        + split_marker(old_rest.subrange(i + 7, old_rest.len() as int)));
                    assert(out.deep_view() =~= pre.push(old_rest.subrange(0, i as int)));
                    assert(out.deep_view() + split_marker(rest@) =~= pre + split_marker(old_rest));
                }
            },
        }
    }
}

/// The commits that the blocks parse to, in order; a malformed block
/// contributes nothing.
pub open spec fn parsed_commits(bs: Seq<Seq<char>>) -> Seq<CommitModel>
    decreases bs.len(),
{
    if bs.len() == 0 {
        Seq::empty()
    } else {
        let init = parsed_commits(bs.drop_last());
        match parse_block(bs.last()) {
            Some(m) => init.push(m),
            None => init,
        }
    }
}

/// How many of the blocks are malformed and skipped.
pub open spec fn skipped_blocks(bs: Seq<Seq<char>>) -> int
    decreases bs.len(),
{
    if bs.len() == 0 {
        0
    } else {
        skipped_blocks(bs.drop_last()) + (if parse_block(bs.last()) is None {
            1int
        } else {
            0int
        })
    }
}

/// Every well-formed block yields exactly one commit and every
/// malformed one none: the number of blocks equals the number of
/// parsed commits plus the number of blocks skipped.
pub proof fn lemma_parse_accounting(bs: Seq<Seq<char>>)
    ensures
        parsed_commits(bs).len() + skipped_blocks(bs) == bs.len(),
        skipped_blocks(bs) >= 0,
    decreases bs.len(),
{
    if bs.len() > 0 {
        lemma_parse_accounting(bs.drop_last());
    }
}

/// The commits of a whole log text: every block after the first
/// `commit ` marker, parsed, the malformed ones skipped.
pub open spec fn log_commits(s: Seq<char>) -> Seq<CommitModel> {
    parsed_commits(split_marker(s).drop_first())
}

/// Collect the commits of a log text: split it at the `commit `
/// markers, discard what stands before the first one, and parse each
/// block, skipping the malformed.
pub fn collect_commits(text: &str) -> (r: Vec<Commit>)
    ensures
        r.deep_view() == log_commits(text@),
{
    let segs = split_segments(text);
    let ghost bs = split_marker(text@).drop_first();
    proof {
        assert(bs =~= segs.deep_view().subrange(1, segs.deep_view().len() as int));
    }
    let parser = CommitLogParser::new();
    let mut out: Vec<Commit> = Vec::new();
    let mut i: usize = 1;
    while i < segs.len()
        invariant
            1 <= i <= segs.len() || (segs.len() == 0 && i == 1),
            segs.len() >= 1,
            bs == segs.deep_view().subrange(1, segs.deep_view().len() as int),
            segs.deep_view().len() == segs@.len(),
            out.deep_view() =~= parsed_commits(bs.subrange(0, i - 1)),
        decreases segs.len() - i,
    {
        proof {
            assert(segs.deep_view()[i as int] == segs@[i as int]@);
            assert(bs.subrange(0, i as int).drop_last() =~= bs.subrange(0, i - 1));
            assert(bs.subrange(0, i as int).last() == segs.deep_view()[i as int]);
        }
        let ghost pre = out.deep_view();
        match parser.parse(segs[i].as_str()) {
            Some(c) => {
                out.push(c);
                proof {
                    assert(out.deep_view() =~= pre.push(out@[out@.len() - 1].deep_view()));
                }
            },
            None => {},
        }
        i += 1;
    }
    proof {
        assert(bs.subrange(0, bs.len() as int) =~= bs);
        if segs@.len() == 1 {
            assert(bs.len() == 0);
        }
    }
    out
}

} // verus!
