use nevez::mail::MailBuilder;
use nevez::mail::MailDataBuilder;
use nevez::mail::ReleaseInfo;
use nevez::project::get_project_name;
use nevez::project::is_readme_filename;
use nevez::project::parse_parameter;
use nevez::project::Project;

fn value_of<'a>(data: &'a [(String, String)], key: &str) -> Option<&'a str> {
    // A later pair for a key supersedes an earlier one.
    data.iter().rev().find(|(k, _)| k == key).map(|(_, v)| v.as_str())
}

#[test]
fn project_name_comes_from_the_last_url_segment() {
    assert_eq!(get_project_name("https://example.org/foo/bar.git").unwrap(), "bar");
    assert_eq!(get_project_name("https://example.org/foo/bar").unwrap(), "bar");
    assert_eq!(get_project_name("bar.git").unwrap(), "bar");
}

#[test]
fn parse_parameter_splits_at_the_first_colon() {
    assert_eq!(parse_parameter("k:v").unwrap(), ("k".to_string(), "v".to_string()));
    assert_eq!(parse_parameter("a:b:c").unwrap(), ("a".to_string(), "b:c".to_string()));
    assert!(parse_parameter("no colon").is_none());
}

#[test]
fn project_starts_with_the_default_changelog() {
    let mut project = Project::new("/tmp/repo");
    assert_eq!(project.path, "/tmp/repo");
    assert_eq!(project.changelog, "NEWS.md");
    project.set_changelog("CHANGES.md");
    assert_eq!(project.changelog, "CHANGES.md");
}

#[test]
fn readme_names_ignore_ascii_case() {
    assert!(is_readme_filename("README"));
    assert!(is_readme_filename("ReadMe.md"));
    assert!(is_readme_filename("readme.txt"));
    assert!(!is_readme_filename("read.me"));
    assert!(!is_readme_filename("README.rst"));
}

#[test]
fn mail_data_collects_all_keys() {
    let mut builder = MailDataBuilder::new();
    builder.emitter("me@example.org");
    builder.recipients(&vec!["a@x".to_string(), "b@y".to_string()]);
    builder.info(&ReleaseInfo {
        project: "proj".to_string(),
        url: "https://example.org/proj.git".to_string(),
        version: "1.0".to_string(),
        changelog: "### Added\n\n- Thing\n".to_string(),
    });
    builder.signature("Me");
    let data = builder.build();
    assert_eq!(value_of(&data, "prefix"), Some("ANNOUNCE"));
    assert_eq!(value_of(&data, "emitter"), Some("me@example.org"));
    assert_eq!(value_of(&data, "recipients"), Some("a@x, b@y"));
    assert_eq!(value_of(&data, "project"), Some("proj"));
    assert_eq!(value_of(&data, "version"), Some("1.0"));
    assert_eq!(
        value_of(&data, "text"),
        Some("What's new?\n\n```\n### Added\n\n- Thing\n```")
    );
    assert_eq!(value_of(&data, "signature"), Some("Me"));
}

#[test]
fn later_data_supersedes_earlier() {
    let mut builder = MailDataBuilder::new();
    builder.emitter("first@example.org");
    builder.extra(&vec![("emitter".to_string(), "second@example.org".to_string())]);
    let data = builder.build();
    assert_eq!(value_of(&data, "emitter"), Some("second@example.org"));
}

#[test]
fn mail_builder_renders_a_custom_template() {
    let mut builder = MailBuilder::new();
    builder.template("Hello {{name}}!");
    let data = vec![("name".to_string(), "World".to_string())];
    assert_eq!(builder.build(&data).unwrap(), "Hello World!");
}

#[test]
fn mail_builder_rejects_a_broken_template() {
    let mut builder = MailBuilder::new();
    builder.template("Hello {{#if}}");
    let data: Vec<(String, String)> = Vec::new();
    assert!(builder.build(&data).is_err());
}

#[test]
fn mail_builder_renders_the_default_template() {
    let mut builder = MailDataBuilder::new();
    builder.emitter("me@example.org");
    builder.recipients(&vec!["a@x".to_string()]);
    builder.info(&ReleaseInfo {
        project: "proj".to_string(),
        url: "https://example.org/proj.git".to_string(),
        version: "1.0".to_string(),
        changelog: "- Thing\n".to_string(),
    });
    builder.signature("Me");
    let data = builder.build();
    let mail = MailBuilder::new().build(&data).unwrap();
    assert!(mail.contains("Subject: [ANNOUNCE] proj 1.0 is available"));
    assert!(mail.contains("Version 1.0 of proj is available in its repository [1]."));
    assert!(mail.contains("[1] https://example.org/proj.git"));
    assert!(mail.contains("```\n- Thing\n```"));
    assert!(mail.contains("Me\n"));
}
