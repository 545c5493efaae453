use nevez::classify::CommitClassifier;
use nevez::commit::Author;
use nevez::commit::Commit;
use nevez::commit::Timestamp;
use nevez::dates::current_date;
use nevez::dates::format_date;
use nevez::dates::Date;
use nevez::render::format_md_section;
use nevez::render::Formatter;
use nevez::shorten::CommitShortener;
use nevez::text::sort_strings;

fn addition(message: &str) -> Commit {
    Commit {
        id: "1".to_string(),
        author: Author { name: "A ".to_string(), email: "a@b.c".to_string() },
        date: Timestamp { seconds: 0, offset_seconds: 0 },
        message: message.to_string(),
    }
}

#[test]
fn md_section_lists_items_as_bullets() {
    let items = vec!["one".to_string(), "two".to_string()];
    assert_eq!(format_md_section(3, "Added", &items), "### Added\n\n- one\n- two\n\n");
}

#[test]
fn md_section_of_no_items_is_empty() {
    let items: Vec<String> = Vec::new();
    assert_eq!(format_md_section(3, "Added", &items), "");
}

#[test]
fn formatted_subsection_is_sorted() {
    // Additions arrive as Y before X; the section lists X before Y.
    let commits = vec![addition("Added Y"), addition("Added X")];
    let classifier = CommitClassifier::new();
    let classified = classifier.classify(&commits);
    let formatter = Formatter::new(CommitShortener::new());
    let date = Date { year: 2024, month: 5, day: 6 };
    let text = formatter.format(&commits, &classified, "1.4.0", &date);
    let x = text.find("- Added X").expect("X listed");
    let y = text.find("- Added Y").expect("Y listed");
    assert!(x < y);
}

#[test]
fn section_with_only_additions_has_only_an_added_subsection() {
    let commits = vec![addition("Added support for X")];
    let classifier = CommitClassifier::new();
    let classified = classifier.classify(&commits);
    let formatter = Formatter::new(CommitShortener::new());
    let date = Date { year: 2024, month: 5, day: 6 };
    let text = formatter.format(&commits, &classified, "1.4.0", &date);
    assert_eq!(
        text,
        "## [1.4.0] - 2024-05-06\n### Added\n\n- Added support for X\n\n"
    );
    assert!(!text.contains("### Changed"));
    assert!(!text.contains("### Fixed"));
}

#[test]
fn date_text_is_zero_padded() {
    assert_eq!(format_date(&Date { year: 2024, month: 5, day: 6 }), "2024-05-06");
    assert_eq!(format_date(&Date { year: 987, month: 12, day: 31 }), "0987-12-31");
}

#[test]
fn date_text_handles_extreme_years() {
    assert_eq!(format_date(&Date { year: -1, month: 1, day: 1 }), "-0001-01-01");
    assert_eq!(
        format_date(&Date { year: 2147483647, month: 12, day: 31 }),
        "2147483647-12-31"
    );
}

#[test]
fn current_date_lies_in_calendar_ranges() {
    let d = current_date();
    assert!((1..=12).contains(&d.month));
    assert!((1..=31).contains(&d.day));
    assert!(d.year >= 2020);
}

#[test]
fn sorting_strings_is_ascending_and_keeps_elements() {
    let v = vec!["pear".to_string(), "apple".to_string(), "orange".to_string()];
    let sorted = sort_strings(&v);
    assert_eq!(sorted, vec!["apple", "orange", "pear"]);
}
