//! The message shortener.
//!
//! A commit is reduced to one display line: its brief, and, if any line
//! of the body names a bug (`Bug <digits>:`, `JIRA: <word>` or
//! `CS<digits>`), those lines joined with commas and appended in
//! parentheses, in body order.

use vstd::prelude::*;
use vstd::string::StrSliceExecFns;
use crate::text::is_ws;
use crate::text::is_digit;
use crate::text::is_word_char;
use crate::text::ws_char;
use crate::text::digit_char;
use crate::text::word_char;
use crate::text::matches_at;
use crate::text::has_at;
use crate::text::digits_end;
use crate::text::skip_digits;
use crate::text::split_lines;
use crate::text::split_to_lines;
use crate::text::lemma_split_lines_len;
use crate::text::lemma_split_lines_no_nl;
use crate::text::lemma_single_line;
use crate::text::lemma_join_no_nl;
use crate::text::no_nl;
use crate::text::join_seqs;
use crate::text::join_strings;
use crate::commit::Commit;

verus! {

/// `Bug <digits>:` opens the line.
pub open spec fn bug_number_line(l: Seq<char>) -> bool {
    matches_at(l, 0, "Bug"@) && l.len() > 3 && is_ws(l[3]) && {
        let d = digits_end(l, 4);
        d > 4 && d < l.len() && l[d] == ':'
    }
}

/// `JIRA: <word character>` opens the line.
pub open spec fn jira_line(l: Seq<char>) -> bool {
    matches_at(l, 0, "JIRA:"@) && l.len() >= 7 && is_ws(l[5]) && is_word_char(l[6])
}

/// `CS<digit>` opens the line.
pub open spec fn cs_line(l: Seq<char>) -> bool {
    matches_at(l, 0, "CS"@) && l.len() >= 3 && is_digit(l[2])
}

/// The line names a bug or an issue.
pub open spec fn is_bug_line(l: Seq<char>) -> bool {
    bug_number_line(l) || jira_line(l) || cs_line(l)
}

/// Naming a bug, as a function value.
pub open spec fn bug_fn() -> spec_fn(Seq<char>) -> bool {
    |l: Seq<char>| is_bug_line(l)
}

/// Decide [`is_bug_line`] for the line `l`.
pub fn bug_line_check(l: &str) -> (r: bool)
    ensures
        r == is_bug_line(l@),
{
    proof {
        reveal_strlit("Bug");
        reveal_strlit("JIRA:");
        reveal_strlit("CS");
    }
    let n = l.unicode_len();
    if has_at(l, 0, "Bug") && n > 3 && ws_char(l.get_char(3)) {
        let d = skip_digits(l, 4);
        if d > 4 && d < n && l.get_char(d) == ':' {
            return true;
        }
    }
    if has_at(l, 0, "JIRA:") && n >= 7 && ws_char(l.get_char(5)) && word_char(l.get_char(6)) {
        return true;
    }
    has_at(l, 0, "CS") && n >= 3 && digit_char(l.get_char(2))
}

/// What a message shortens to: nothing if the message is empty, else
/// its first line, with the bug lines of the whole message appended in
/// parentheses if there are any.
pub open spec fn shorten_spec(m: Seq<char>) -> Option<Seq<char>> {
    let ls = split_lines(m);
    if ls.len() == 0 {
        None
    } else {
        let bugs = ls.filter(bug_fn());
        if bugs.len() == 0 {
            Some(ls[0])
        } else {
            Some(ls[0] + " ("@ + join_seqs(bugs, ","@) + ")"@)
        }
    }
}

/// Shortens commits to display lines.
#[derive(Debug)]
pub struct CommitShortener {
}

impl CommitShortener {
    /// Create a new shortener.  The bug patterns are fixed, so unlike a
    /// shortener that compiles its patterns this one cannot fail to
    /// construct.
    pub fn new() -> (r: Self) {
        CommitShortener {  }
    }

    /// Shorten a commit message to one display line.
    pub fn shorten(&self, commit: &Commit) -> (r: Option<String>)
        ensures
            match r {
                Some(t) => shorten_spec(commit.message@) == Some(t@),
                None => shorten_spec(commit.message@) is None,
            },
    {
        let lines = split_to_lines(commit.message.as_str());
        let ghost ls = split_lines(commit.message@);
        if lines.len() == 0 {
            return None;
        }
        let mut bugs: Vec<String> = Vec::new();
        let mut i: usize = 0;
        while i < lines.len()
            invariant
                0 <= i <= lines.len(),
                ls == lines.deep_view(),
                bugs.deep_view() =~= ls.take(i as int).filter(bug_fn()),
            decreases lines.len() - i,
        {
            proof {
                reveal(Seq::filter);
                assert(lines.deep_view()[i as int] == lines@[i as int]@);
                assert(ls.take(i + 1).drop_last() =~= ls.take(i as int));
                assert(ls.take(i + 1).last() == ls[i as int]);
            }
            let ghost pre = bugs.deep_view();
            if bug_line_check(lines[i].as_str()) {
                bugs.push(lines[i].clone());
                proof {
                    assert(bugs.deep_view() =~= pre.push(ls[i as int]));
                }
            }
            i += 1;
        }
        proof {
            assert(ls.take(lines.len() as int) =~= ls);
            assert(lines.deep_view()[0] == lines@[0]@);
        }
        let mut text = lines[0].clone();
        if bugs.len() > 0 {
            text.append(" (");
            let joined = join_strings(&bugs, ",");
            text.append(joined.as_str());
            text.append(")");
        }
        Some(text)
    }
}

/// Shortening is idempotent: a line that shortening produced, taken as
/// a message of its own, shortens to itself, provided it is not empty
/// and names no further bug.
pub proof fn lemma_shorten_idempotent(m: Seq<char>, t: Seq<char>)
    requires
        shorten_spec(m) == Some(t),
        t.len() > 0,
        !is_bug_line(t),
    ensures
        shorten_spec(t) == Some(t),
{
    reveal(Seq::filter);
    let ls = split_lines(m);
    lemma_split_lines_no_nl(m);
    lemma_split_lines_len(m);
    let bugs = ls.filter(bug_fn());
    assert(no_nl(ls[0]));
    if bugs.len() > 0 {
        assert forall|j: int| 0 <= j < bugs.len() implies no_nl(#[trigger] bugs[j]) by {
            let x = bugs[j];
            assert(bugs.contains(x));
            ls.lemma_filter_contains_rev(bug_fn(), x);
            let w = choose|w: int| 0 <= w < ls.len() && ls[w] == x;
            assert(no_nl(ls[w]));
        }
        reveal_strlit(",");
        reveal_strlit(" (");
        reveal_strlit(")");
        lemma_join_no_nl(bugs, ","@);
        assert(no_nl(t)) by {
            assert(t == ls[0] + " ("@ + join_seqs(bugs, ","@) + ")"@);
            assert forall|k: int| 0 <= k < t.len() implies t[k] != '\n' by {
            }
        }
    } else {
        assert(t == ls[0]);
    }
    lemma_single_line(t);
    let ts = split_lines(t);
    assert(ts =~= seq![t]);
    assert(ts.filter(bug_fn()) =~= Seq::<Seq<char>>::empty()) by {
        reveal(Seq::filter);
        assert(ts.drop_last() =~= Seq::<Seq<char>>::empty());
        assert(Seq::<Seq<char>>::empty().filter(bug_fn()).len() == 0);
        assert(ts.last() == t);
        assert(!bug_fn()(t));
        assert(ts.filter(bug_fn()) == ts.drop_last().filter(bug_fn()));
    }
}

} // verus!
