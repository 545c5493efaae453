use nevez::changelog::generate_changelog;
use nevez::classify::CommitClassifier;
use nevez::classify::CommitKind;
use nevez::commit::collect_commits;
use nevez::commit::Author;
use nevez::commit::Commit;
use nevez::commit::CommitLogParser;
use nevez::commit::Timestamp;
use nevez::dates::Date;
use nevez::shorten::CommitShortener;

fn sample_log() -> String {
    "commit abc123\nAuthor: Jane Doe <jane@example.org>\nDate: Wed, 01 Jan 2020 00:00:00 +0000\n\n    Added support for X\n\n    Bug 123: crash on start\ncommit def456\nAuthor: John <j@x.io>\nDate: Thu, 02 Jan 2020 10:30:00 +0200\n\n    Fixed a crash\ncommit broken\nnot an author line\n"
    .to_string()
}

fn commit_with_message(message: &str) -> Commit {
    Commit {
        id: "0000".to_string(),
        author: Author { name: "A ".to_string(), email: "a@b.c".to_string() },
        date: Timestamp { seconds: 0, offset_seconds: 0 },
        message: message.to_string(),
    }
}

#[test]
fn parser_extracts_one_commit_per_well_formed_block() {
    // Three blocks, one malformed: commits plus skipped equals blocks.
    let commits = collect_commits(&sample_log());
    assert_eq!(commits.len(), 2);
}

#[test]
fn parser_reads_all_commit_fields() {
    let commits = collect_commits(&sample_log());
    assert_eq!(commits[0].id, "abc123");
    assert_eq!(commits[0].author.name, "Jane Doe ");
    assert_eq!(commits[0].author.email, "jane@example.org");
    assert_eq!(commits[0].message, "Added support for X\n\nBug 123: crash on start");
    assert_eq!(commits[1].id, "def456");
    assert_eq!(commits[1].author.name, "John ");
    assert_eq!(commits[1].author.email, "j@x.io");
    assert_eq!(commits[1].message, "Fixed a crash");
}

#[test]
fn parser_reads_rfc2822_dates() {
    let commits = collect_commits(&sample_log());
    assert_eq!(commits[0].date.seconds, 1577836800);
    assert_eq!(commits[0].date.offset_seconds, 0);
    assert_eq!(commits[1].date.seconds, 1577953800);
    assert_eq!(commits[1].date.offset_seconds, 7200);
}

#[test]
fn parser_skips_block_with_bad_date() {
    let log = "commit aaa\nAuthor: A <a@b.c>\nDate: not a date at all\n\n    Added thing\n";
    assert_eq!(collect_commits(log).len(), 0);
}

#[test]
fn parser_of_single_block() {
    let parser = CommitLogParser::new();
    let block = "aaa\nAuthor: A <a@b.c>\nDate: Wed, 01 Jan 2020 00:00:00 +0000\n\n    Hello\n";
    let commit = parser.parse(block).expect("well-formed block");
    assert_eq!(commit.id, "aaa");
    assert_eq!(commit.message, "Hello");
    assert!(parser.parse("too\nshort").is_none());
}

#[test]
fn empty_log_yields_no_commits() {
    assert_eq!(collect_commits("").len(), 0);
}

#[test]
fn classifier_follows_the_rule_families() {
    let classifier = CommitClassifier::new();
    assert!(classifier.check_kind(CommitKind::Addition, "Added support for X"));
    assert!(classifier.check_kind(CommitKind::Fix, "Fixed a crash"));
    assert!(classifier.check_kind(CommitKind::Bump, "Bump version to 1.2.3"));
    assert!(!classifier.check_kind(CommitKind::Addition, "Refactor internals"));
    assert!(!classifier.check_kind(CommitKind::Fix, "Refactor internals"));
    assert!(!classifier.check_kind(CommitKind::Bump, "Refactor internals"));
}

#[test]
fn classifier_accepts_prefixed_rules() {
    let classifier = CommitClassifier::new();
    assert!(classifier.check_kind(CommitKind::Addition, "parser: add lookahead"));
    assert!(classifier.check_kind(CommitKind::Fix, "parser fix lookahead"));
    assert!(classifier.check_kind(CommitKind::Bump, "configure: Bump version to 2"));
    assert!(classifier.check_kind(CommitKind::Bump, "Kick off 1.5.0"));
    assert!(classifier.check_kind(CommitKind::Bump, "VERSION: Bumped"));
}

#[test]
fn classification_is_a_partition() {
    let commits = vec![
        commit_with_message("Added support for X"),
        commit_with_message("Fixed a crash"),
        commit_with_message("Bump version to 1.2.3"),
        commit_with_message("Refactor internals"),
        commit_with_message(""),
    ];
    let classifier = CommitClassifier::new();
    let classified = classifier.classify(&commits);
    assert_eq!(classified.additions, vec![0]);
    assert_eq!(classified.fixes, vec![1]);
    // The bump commit at position 2 is dropped from every bucket; a
    // commit with no brief is a change.
    assert_eq!(classified.changes, vec![3, 4]);
    let mut seen = vec![0u32; commits.len()];
    for i in &classified.additions {
        seen[*i] += 1;
    }
    for i in &classified.changes {
        seen[*i] += 1;
    }
    for i in &classified.fixes {
        seen[*i] += 1;
    }
    assert!(seen.iter().all(|c| *c <= 1));
    assert_eq!(seen[2], 0);
}

#[test]
fn shortener_appends_bug_references_in_body_order() {
    let shortener = CommitShortener::new();
    let commit = commit_with_message("Fix crash\n\nBug 12: boom\nJIRA: ABC-1\nCS99");
    assert_eq!(
        shortener.shorten(&commit).unwrap(),
        "Fix crash (Bug 12: boom,JIRA: ABC-1,CS99)"
    );
}

#[test]
fn shortener_returns_nothing_for_empty_message() {
    let shortener = CommitShortener::new();
    assert!(shortener.shorten(&commit_with_message("")).is_none());
}

#[test]
fn shortening_is_idempotent_without_further_references() {
    let shortener = CommitShortener::new();
    let once = shortener
        .shorten(&commit_with_message("Fix crash\nBug 12: boom"))
        .unwrap();
    assert_eq!(once, "Fix crash (Bug 12: boom)");
    let twice = shortener.shorten(&commit_with_message(&once)).unwrap();
    assert_eq!(twice, once);
}

#[test]
fn generate_changelog_renders_the_whole_pipeline() {
    let date = Date { year: 2024, month: 5, day: 6 };
    let text = generate_changelog(&sample_log(), "2.0.0", &date);
    assert_eq!(
        text,
        "## [2.0.0] - 2024-05-06\n### Added\n\n- Added support for X (Bug 123: crash on start)\n\n### Fixed\n\n- Fixed a crash\n\n"
    );
}

#[test]
fn generate_changelog_of_empty_log_is_heading_only() {
    let date = Date { year: 2024, month: 5, day: 6 };
    let text = generate_changelog("", "2.0.0", &date);
    assert_eq!(text, "## [2.0.0] - 2024-05-06\n");
}
