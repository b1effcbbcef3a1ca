use projectmd::error::ParseError;
use projectmd::parser::{extract_title_and_body, parse_project_file, parse_task_file, ProjectMdParser};
use projectmd::types::{count_in_state, split_repo, Issue, TaskStatus};
use projectmd::yaml::YamlNode;

#[test]
fn test_parse_project_file() {
    let content = r#"backend: github
repo: vagmi/projectmd
---

# Your glorious project name

Description paragraph.

* [#1] - tasks/setup_auth.md - setup the authentication
* [new] - tasks/scaffold_ui.md - Scaffold the UI
"#;

    let result = parse_project_file(content).unwrap();
    assert_eq!(result.config.backend, "github");
    assert_eq!(result.config.repo, "vagmi/projectmd");
    assert_eq!(result.tasks.len(), 2);

    assert_eq!(result.tasks[0].status, TaskStatus::Existing(1));
    assert_eq!(result.tasks[0].path, "tasks/setup_auth.md");

    assert_eq!(result.tasks[1].status, TaskStatus::New);
}

#[test]
fn test_parse_task_file() {
    let content = r#"---
issue_id: 1
type: bug
tags: [chore, infra]
---
# Setup the authentication

Some details go here.
"#;

    let result = parse_task_file(content).unwrap();
    assert_eq!(result.config.issue_id, Some(1));
    assert_eq!(result.title, "Setup the authentication");
    assert_eq!(result.body, "Some details go here.");
}

#[test]
fn test_task_file_without_timestamps() {
    let content = r#"---
issue_id: 1
type: bug
tags: [chore, infra]
---
# Setup the authentication

Some details go here.
"#;

    let result = parse_task_file(content).expect("Failed to parse task file without timestamps");

    assert_eq!(result.config.issue_id, Some(1));
    assert_eq!(result.config.created_at, None);
    assert_eq!(result.config.updated_at, None);
    assert_eq!(result.title, "Setup the authentication");
}

#[test]
fn task_file_with_timestamps_and_tags() {
    let content = "---\nissue_id: 5\ntype: feature\ntags: [api, backend]\ncreated_at: 2025-01-15T10:30:00Z\nupdated_at: \"2025-01-20T15:45:32Z\"\n---\n# API with timestamps\n\nBody.\n";
    let result = parse_task_file(content).unwrap();
    assert_eq!(result.config.issue_id, Some(5));
    assert_eq!(result.config.task_type.as_deref(), Some("feature"));
    assert_eq!(result.config.tags, Some(vec!["api".to_string(), "backend".to_string()]));
    assert_eq!(result.config.created_at.as_deref(), Some("2025-01-15T10:30:00Z"));
    assert_eq!(result.config.updated_at.as_deref(), Some("2025-01-20T15:45:32Z"));
    assert_eq!(result.title, "API with timestamps");
    assert_eq!(result.body, "Body.");
}

#[test]
fn document_with_mixed_content() {
    let content = "backend: github\nrepo: test/mixed\nextra_field: some_value\n---\n\n# Heading\n\nSome prose.\n\n* a plain bullet\n* [x] a checkbox\n* [new] - tasks/first.md - First\n\n\n* [#10] - tasks/second.md - Second - with dash\n- [new] - tasks/not.md - Not a star bullet\n* [#20] - tasks/third.md -   Third  \n* [new] - tasks/fourth.md - Fourth";
    let result = parse_project_file(content).unwrap();
    assert_eq!(result.config.repo, "test/mixed");
    assert_eq!(result.config.extra.len(), 1);
    assert_eq!(result.config.extra[0].0, "extra_field");
    assert!(matches!(&result.config.extra[0].1, YamlNode::Text(s) if s == "some_value"));
    assert_eq!(result.tasks.len(), 4);
    assert_eq!(result.tasks[0].status, TaskStatus::New);
    assert_eq!(result.tasks[0].path, "tasks/first.md");
    assert_eq!(result.tasks[1].status, TaskStatus::Existing(10));
    assert_eq!(result.tasks[1].description, "Second - with dash");
    assert_eq!(result.tasks[2].status, TaskStatus::Existing(20));
    assert_eq!(result.tasks[2].description, "Third");
    assert_eq!(result.tasks[3].path, "tasks/fourth.md");
    assert_eq!(result.tasks[3].description, "Fourth");
}

#[test]
fn document_without_tasks_has_empty_list() {
    let content = "backend: github\nrepo: test/notasks\n---\n\n# Nothing here\n\nJust prose.\n";
    let result = parse_project_file(content).unwrap();
    assert_eq!(result.config.backend, "github");
    assert_eq!(result.tasks.len(), 0);
}

#[test]
fn document_without_front_matter_fails() {
    let content = "# Project\n\n* [new] - tasks/a.md - A\n";
    assert!(matches!(parse_project_file(content), Err(ParseError::MissingFrontMatter)));
}

#[test]
fn document_missing_repo_fails() {
    let content = "backend: github\n---\n";
    assert!(matches!(parse_project_file(content), Err(ParseError::MissingField)));
}

#[test]
fn document_with_zero_issue_number_fails() {
    let content = "backend: github\nrepo: a/b\n---\n* [#0] - tasks/a.md - A\n";
    assert!(matches!(parse_project_file(content), Err(ParseError::InvalidIssueNumber)));
}

#[test]
fn document_with_huge_issue_number_fails() {
    let content = "backend: github\nrepo: a/b\n---\n* [#18446744073709551616] - tasks/a.md - A\n";
    assert!(matches!(parse_project_file(content), Err(ParseError::InvalidIssueNumber)));
}

#[test]
fn document_with_largest_issue_number() {
    let content = "backend: github\nrepo: a/b\n---\n* [#18446744073709551615] - tasks/a.md - A\n";
    let result = parse_project_file(content).unwrap();
    assert_eq!(result.tasks[0].status, TaskStatus::Existing(u64::MAX));
}

#[test]
fn bullet_without_description_fails() {
    let content = "backend: github\nrepo: a/b\n---\n* [new] - tasks/a.md\n";
    assert!(matches!(parse_project_file(content), Err(ParseError::MalformedTask)));
}

#[test]
fn task_line_kinds() {
    assert!(ProjectMdParser::task_line("plain prose").is_none());
    assert!(ProjectMdParser::task_line("* [link](x)").is_none());
    assert!(matches!(ProjectMdParser::task_line("* [new] -  - x"), Some(Err(ParseError::MalformedTask))));
    let t = ProjectMdParser::task_line("* [#42] - tasks/deploy.md - Deploy\r").unwrap().unwrap();
    assert_eq!(t.status, TaskStatus::Existing(42));
    assert_eq!(t.path, "tasks/deploy.md");
    assert_eq!(t.description, "Deploy");
}

#[test]
fn task_file_with_too_few_separators_fails() {
    assert!(matches!(parse_task_file("---\ntype: bug\n# T\n"), Err(ParseError::MissingSeparator)));
}

#[test]
fn task_file_body_keeps_later_separators() {
    let content = "---\ntype: bug\n---\n# Title\n\nabove\n---\nbelow\n";
    let result = parse_task_file(content).unwrap();
    assert_eq!(result.title, "Title");
    assert_eq!(result.body, "above\n---\nbelow");
}

#[test]
fn task_file_with_bad_field_fails() {
    assert!(matches!(parse_task_file("---\ntags: 3\n---\n# T\n"), Err(ParseError::InvalidField)));
}

#[test]
fn title_and_body_without_heading() {
    let (title, body) = extract_title_and_body("\n  just text\nmore  \n");
    assert_eq!(title, "");
    assert_eq!(body, "just text\nmore");
}

#[test]
fn title_strips_repeated_markers() {
    let (title, body) = extract_title_and_body("intro\n  # # Deep title  \n\n  body line\n");
    assert_eq!(title, "Deep title");
    assert_eq!(body, "body line");
}

#[test]
fn repo_reference_is_split_at_its_slash() {
    assert_eq!(split_repo("vagmi/projectmd"), Some(("vagmi".to_string(), "projectmd".to_string())));
    assert_eq!(split_repo("noslash"), None);
    assert_eq!(split_repo("a/b/c"), None);
    assert_eq!(split_repo("/x"), Some((String::new(), "x".to_string())));
}

#[test]
fn issues_are_counted_by_state() {
    let issue = |state: &str| Issue {
        id: 1,
        number: 1,
        title: String::new(),
        body: String::new(),
        state: state.to_string(),
    };
    let issues = vec![issue("open"), issue("closed"), issue("open"), issue("unknown")];
    assert_eq!(count_in_state(&issues, "open"), 2);
    assert_eq!(count_in_state(&issues, "closed"), 1);
    assert_eq!(count_in_state(&Vec::new(), "open"), 0);
}

#[test]
fn document_with_blank_front_matter_fails() {
    let content = "\n  \n---\n* [new] - tasks/a.md - A\n";
    assert!(matches!(parse_project_file(content), Err(ParseError::MissingFrontMatter)));
}

#[test]
fn body_line_endings_are_unix() {
    let (title, body) = extract_title_and_body("# T\r\n\r\nline1\r\nline2\r\n");
    assert_eq!(title, "T");
    assert_eq!(body, "line1\nline2");
}

#[test]
fn body_without_heading_is_kept_as_written() {
    let (title, body) = extract_title_and_body("a\r\nb\r\n");
    assert_eq!(title, "");
    assert_eq!(body, "a\r\nb");
}

#[test]
fn tagged_tag_is_refused() {
    assert!(matches!(parse_task_file("---\ntags: [!x chore]\n---\n# T\n"), Err(ParseError::InvalidField)));
}

#[test]
fn zero_issue_id_in_task_file_is_refused() {
    assert!(matches!(parse_task_file("---\nissue_id: 0\n---\n# T\n"), Err(ParseError::InvalidField)));
}
