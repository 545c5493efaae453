use nevez::insert::extract_changelog;
use nevez::insert::insert_section;
use nevez::insert::release_heading;
use nevez::insert::version_heading;
use nevez::insert::InsertOutcome;
use nevez::text::join_lines_terminated;
use nevez::text::split_to_lines;

fn lines(text: &str) -> Vec<String> {
    split_to_lines(text)
}

fn doc_with_one_release() -> Vec<String> {
    lines("# News\n\n## [1.3.0] - 2023-01-01\n### Added\n\n- Old feature\n\n")
}

fn new_section() -> Vec<String> {
    lines("## [1.4.0] - 2024-05-06\n### Added\n\n- New thing\n\n")
}

#[test]
fn heading_grammar_is_exact() {
    assert!(release_heading("## [1.3.0] - 2023-01-01"));
    assert!(release_heading("##  [v2_0-rc.1]  -  1999-12-31"));
    assert!(!release_heading("### [1.3.0] - 2023-01-01"));
    assert!(!release_heading("## 1.3.0 - 2023-01-01"));
    assert!(!release_heading("## [1.3.0] - 2023-1-01"));
    assert!(!release_heading("## [1.3.0] - 2023-01-01 "));
    assert!(!release_heading("## [] - 2023-01-01"));
}

#[test]
fn version_heading_matches_its_version_only() {
    assert!(version_heading("## [1.3.0] - 2023-01-01", "1.3.0"));
    assert!(!version_heading("## [1.3.0] - 2023-01-01", "1.4.0"));
}

#[test]
fn insertion_goes_immediately_above_the_first_heading() {
    let doc = doc_with_one_release();
    let section = new_section();
    let (merged, outcome) = insert_section(&doc, &section);
    assert_eq!(outcome, InsertOutcome::Inserted);
    let mut expected: Vec<String> = Vec::new();
    expected.extend_from_slice(&doc[..2]);
    expected.extend_from_slice(&section);
    expected.extend_from_slice(&doc[2..]);
    assert_eq!(merged, expected);
    // The prior release's lines are byte-identical to the input.
    assert_eq!(&merged[merged.len() - 5..], &doc[2..]);
}

#[test]
fn inserting_twice_does_not_duplicate_the_section() {
    let doc = doc_with_one_release();
    let section = new_section();
    let (once, first) = insert_section(&doc, &section);
    assert_eq!(first, InsertOutcome::Inserted);
    let (twice, second) = insert_section(&once, &section);
    assert_eq!(second, InsertOutcome::AlreadyPresent);
    assert_eq!(twice, once);
}

#[test]
fn document_without_heading_passes_through_unchanged() {
    let doc = lines("# News\n\nNothing released yet.\n");
    let section = new_section();
    let (merged, outcome) = insert_section(&doc, &section);
    assert_eq!(outcome, InsertOutcome::NoHeading);
    assert_eq!(merged, doc);
}

#[test]
fn lines_round_trip_through_join() {
    let text = "# News\n\n## [1.3.0] - 2023-01-01\n";
    assert_eq!(join_lines_terminated(&lines(text)), text);
}

#[test]
fn extract_changelog_returns_the_version_body() {
    let doc = lines("# News\n\n## [1.4.0] - 2024-05-06\n### Added\n\n- New thing\n\n## [1.3.0] - 2023-01-01\n### Added\n\n- Old feature\n");
    assert_eq!(
        extract_changelog(&doc, "1.4.0"),
        "### Added\n\n- New thing\n\n"
    );
    assert_eq!(
        extract_changelog(&doc, "1.3.0"),
        "### Added\n\n- Old feature\n"
    );
    assert_eq!(extract_changelog(&doc, "9.9.9"), "");
}
