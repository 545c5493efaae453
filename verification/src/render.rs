//! Rendering classified commits as a Markdown changelog section.
//!
//! Every bucket is shortened to display lines, sorted, and printed as a
//! bullet list under its own subsection; a bucket without lines leaves
//! no subsection behind.  The release heading carries the tag and a
//! date.

use vstd::prelude::*;
use vstd::relations::sorted_by;
use vstd::relations::total_ordering;
use crate::commit::Commit;
use crate::commit::CommitModel;
use crate::classify::ClassifiedCommits;
use crate::classify::positions_of;
use crate::shorten::CommitShortener;
use crate::shorten::shorten_spec;
use crate::text::lex_leq;
use crate::text::lex_leq_fn;
use crate::text::lemma_lex_total_ordering;
use crate::text::sort_strings;
use crate::dates::Date;
use crate::dates::date_text;
use crate::dates::format_date;

verus! {

/// `n` copies of `c`.
pub open spec fn char_repeat(c: char, n: int) -> Seq<char> {
    Seq::new(n as nat, |i: int| c)
}

/// The bullet list of the items, one `- ` line each.
pub open spec fn bullet_list(items: Seq<Seq<char>>) -> Seq<char>
    decreases items.len(),
{
    if items.len() == 0 {
        Seq::empty()
    } else {
        "- "@ + items[0] + "\n"@ + bullet_list(items.drop_first())
    }
}

pub proof fn lemma_bullet_list_push(items: Seq<Seq<char>>, x: Seq<char>)
    ensures
        bullet_list(items.push(x)) =~= bullet_list(items) + "- "@ + x + "\n"@,
    decreases items.len(),
{
    let p = items.push(x);
    if items.len() == 0 {
        assert(p[0] == x);
        assert(p.drop_first() =~= Seq::<Seq<char>>::empty());
        assert(bullet_list(p) == "- "@ + p[0] + "\n"@ + bullet_list(p.drop_first()));
        assert(bullet_list(p.drop_first()) == Seq::<char>::empty());
        assert(bullet_list(items) == Seq::<char>::empty());
    } else {
        lemma_bullet_list_push(items.drop_first(), x);
        assert(p.drop_first() =~= items.drop_first().push(x));
        assert(p[0] == items[0]);
        assert(bullet_list(p) == "- "@ + p[0] + "\n"@ + bullet_list(p.drop_first()));
        assert(bullet_list(p.drop_first()) == bullet_list(items.drop_first()) + "- "@ + x
            + "\n"@);
        assert(bullet_list(items) == "- "@ + items[0] + "\n"@ + bullet_list(items.drop_first()));
    }
}

/// A Markdown section: a heading of `level` hash marks and the title,
/// a blank line, the items as a bullet list, and a closing blank line;
/// nothing at all if there are no items.
pub open spec fn md_section(level: int, title: Seq<char>, items: Seq<Seq<char>>) -> Seq<char> {
    if items.len() == 0 {
        Seq::empty()
    } else {
        char_repeat('#', level) + " "@ + title + "\n\n"@ + bullet_list(items) + "\n"@
    }
}

/// Create a new Markdown section.
pub fn format_md_section(level: usize, title: &str, items: &Vec<String>) -> (r: String)
    ensures
        r@ == md_section(level as int, title@, items.deep_view()),
{
    if items.len() == 0 {
        return String::new();
    }
    let mut text = String::new();
    let mut k: usize = 0;
    while k < level
        invariant
            0 <= k <= level,
            text@ =~= char_repeat('#', k as int),
        decreases level - k,
    {
        text.push('#');
        proof {
            assert(text@ =~= char_repeat('#', k + 1));
        }
        k += 1;
    }
    text.append(" ");
    text.append(title);
    text.append("\n\n");
    let ghost head = char_repeat('#', level as int) + " "@ + title@ + "\n\n"@;
    let mut i: usize = 0;
    while i < items.len()
        invariant
            0 <= i <= items.len(),
            head == char_repeat('#', level as int) + " "@ + title@ + "\n\n"@,
            text@ =~= head + bullet_list(items.deep_view().take(i as int)),
        decreases items.len() - i,
    {
        proof {
            assert(items.deep_view()[i as int] == items@[i as int]@);
            lemma_bullet_list_push(items.deep_view().take(i as int), items.deep_view()[i as int]);
            assert(items.deep_view().take(i as int).push(items.deep_view()[i as int])
                =~= items.deep_view().take(i + 1));
        }
        text.append("- ");
        text.append(items[i].as_str());
        text.append("\n");
        i += 1;
    }
    text.append("\n");
    proof {
        assert(items.deep_view().take(items@.len() as int) =~= items.deep_view());
    }
    text
}

/// The display lines of the commits at the given positions, in
/// position order; a commit that shortens to nothing is left out.
pub open spec fn shortened_of(cs: Seq<CommitModel>, ps: Seq<int>) -> Seq<Seq<char>>
    decreases ps.len(),
{
    if ps.len() == 0 {
        Seq::empty()
    } else {
        let init = shortened_of(cs, ps.drop_last());
        match shorten_spec(cs[ps.last()].message) {
            Some(t) => init.push(t),
            None => init,
        }
    }
}

/// The display lines of a bucket, sorted lexicographically.
pub open spec fn sorted_shortened(cs: Seq<CommitModel>, ps: Seq<int>) -> Seq<Seq<char>> {
    shortened_of(cs, ps).sort_by(lex_leq_fn())
}

/// The release heading line of a section.
pub open spec fn heading_line(tag: Seq<char>, d: Date) -> Seq<char> {
    "## ["@ + tag + "] - "@ + date_text(d) + "\n"@
}

/// A whole changelog section: the heading, then the `Added`, `Changed`
/// and `Fixed` subsections, each only if its bucket shortened to any
/// lines.
pub open spec fn section_text(
    cs: Seq<CommitModel>,
    adds: Seq<int>,
    chgs: Seq<int>,
    fxs: Seq<int>,
    tag: Seq<char>,
    d: Date,
) -> Seq<char> {
    heading_line(tag, d) + md_section(3, "Added"@, sorted_shortened(cs, adds)) + md_section(
        3,
        "Changed"@,
        sorted_shortened(cs, chgs),
    ) + md_section(3, "Fixed"@, sorted_shortened(cs, fxs))
}

/// Renders classified commits as a changelog section.
#[derive(Debug)]
pub struct Formatter {
    shortener: CommitShortener,
}

impl Formatter {
    /// Create a new formatter, with a shortener.
    pub fn new(shortener: CommitShortener) -> (r: Formatter) {
        Formatter { shortener }
    }

    /// Shorten the commits at the given positions and sort the lines.
    pub fn shorten(&self, commits: &Vec<Commit>, positions: &Vec<usize>) -> (r: Vec<String>)
        requires
            forall|j: int| 0 <= j < positions@.len() ==> #[trigger] positions@[j] < commits@.len(),
        ensures
            r.deep_view() == sorted_shortened(commits.deep_view(), positions_of(positions@)),
    {
        let ghost cs = commits.deep_view();
        let ghost ps = positions_of(positions@);
        let mut lines: Vec<String> = Vec::new();
        let mut j: usize = 0;
        while j < positions.len()
            invariant
                0 <= j <= positions.len(),
                cs == commits.deep_view(),
                ps == positions_of(positions@),
                ps.len() == positions@.len(),
                forall|k: int| 0 <= k < positions@.len() ==> #[trigger] positions@[k]
                    < commits@.len(),
                cs.len() == commits@.len(),
                lines.deep_view() =~= shortened_of(cs, ps.take(j as int)),
            decreases positions.len() - j,
        {
            proof {
                assert(ps[j as int] == positions@[j as int] as int);
                assert(ps.take(j + 1).drop_last() =~= ps.take(j as int));
                assert(ps.take(j + 1).last() == ps[j as int]);
                assert(commits.deep_view()[ps[j as int]] == commits@[ps[j as int]].deep_view());
            }
            let ghost pre = lines.deep_view();
            let p = positions[j];
            match self.shortener.shorten(&commits[p]) {
                Some(t) => {
                    lines.push(t);
                    proof {
                        assert(lines.deep_view() =~= pre.push(
                            lines@[lines@.len() - 1].deep_view(),
                        ));
                    }
                },
                None => {},
            }
            j += 1;
        }
        proof {
            assert(ps.take(positions@.len() as int) =~= ps);
        }
        let sorted = sort_strings(&lines);
        proof {
            lemma_lex_total_ordering();
            shortened_of(cs, ps).lemma_sort_by_ensures(lex_leq_fn());
            vstd::seq_lib::lemma_sorted_unique(
                sorted.deep_view(),
                sorted_shortened(cs, ps),
                lex_leq_fn(),
            );
        }
        sorted
    }

    /// Format classified commits as a changelog section for `tag`,
    /// dated `date`.
    pub fn format(
        &self,
        commits: &Vec<Commit>,
        classified: &ClassifiedCommits,
        tag: &str,
        date: &Date,
    ) -> (r: String)
        requires
            classified.wf_for(commits@.len() as int),
        ensures
            r@ == section_text(
                commits.deep_view(),
                positions_of(classified.additions@),
                positions_of(classified.changes@),
                positions_of(classified.fixes@),
                tag@,
                *date,
            ),
    {
        let additions = self.shorten(commits, &classified.additions);
        let changes = self.shorten(commits, &classified.changes);
        let fixes = self.shorten(commits, &classified.fixes);
        let mut text = String::new();
        text.append("## [");
        text.append(tag);
        text.append("] - ");
        let dt = format_date(date);
        text.append(dt.as_str());
        text.append("\n");
        let added = format_md_section(3, "Added", &additions);
        text.append(added.as_str());
        let changed = format_md_section(3, "Changed", &changes);
        text.append(changed.as_str());
        let fixed = format_md_section(3, "Fixed", &fixes);
        text.append(fixed.as_str());
        text
    }
}

} // verus!
