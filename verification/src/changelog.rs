//! The changelog pipeline, end to end: log text in, a rendered release
//! section out.

use vstd::prelude::*;
use crate::commit::collect_commits;
use crate::commit::log_commits;
use crate::classify::CommitClassifier;
use crate::classify::CommitClass;
use crate::classify::class_positions;
use crate::shorten::CommitShortener;
use crate::render::Formatter;
use crate::render::section_text;
use crate::dates::Date;

verus! {

/// The changelog section that a log text yields for a tag on a date:
/// its commits parsed, classified and rendered.
pub open spec fn changelog_text(log: Seq<char>, tag: Seq<char>, d: Date) -> Seq<char> {
    let cs = log_commits(log);
    section_text(
        cs,
        class_positions(cs, CommitClass::Addition),
        class_positions(cs, CommitClass::Change),
        class_positions(cs, CommitClass::Fix),
        tag,
        d,
    )
}

/// Generate the changelog section for `new_tag`, dated `date`, from
/// the raw log text.
pub fn generate_changelog(log_text: &str, new_tag: &str, date: &Date) -> (r: String)
    ensures
        r@ == changelog_text(log_text@, new_tag@, *date),
{
    let commits = collect_commits(log_text);
    let classifier = CommitClassifier::new();
    let classified = classifier.classify(&commits);
    let shortener = CommitShortener::new();
    let formatter = Formatter::new(shortener);
    formatter.format(&commits, &classified, new_tag, date)
}

} // verus!
