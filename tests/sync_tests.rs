use projectmd::parser::parse_task_file;
use projectmd::sync::{
    decimal_string, is_modified_after, plan_task, should_sync_task, stamped_config,
    update_project_file, update_task_file_with_metadata, SyncAction, SyncCommand, SyncEngine,
    SyncError, SyncEvent, TaskPlan, Timestamp,
};
use projectmd::types::{TaskItem, TaskStatus};
use projectmd::yaml::YamlNode;

const NOW: &str = "2025-02-01T12:00:00+00:00";

fn at(seconds: i64) -> Timestamp {
    Timestamp { seconds, nanos: 0 }
}

// 2025-01-01T00:00:00Z and 2025-01-02T00:00:00Z
const JAN_1: i64 = 1735689600;
const JAN_2: i64 = 1735776000;

#[test]
fn scenario_create_new_task() {
    let doc = "backend: github\nrepo: a/b\n---\n* [new] - tasks/x.md - Do X\n";
    let engine = SyncEngine::new("proj".to_string());
    let (mut run, cmd) = engine.sync(doc.to_string()).unwrap();
    match cmd {
        SyncCommand::ReadTaskFile { path } => assert_eq!(path, "proj/tasks/x.md"),
        other => panic!("unexpected {:?}", other),
    }
    let task = "---\ntags: [chore]\n---\n# Do X\n\nDetails.";
    let cmd = run
        .advance(SyncEvent::TaskFileRead { contents: task.to_string(), modified: at(JAN_2) }, NOW)
        .unwrap();
    match cmd {
        SyncCommand::CreateIssue { title, body, labels } => {
            assert_eq!(title, "Do X");
            assert_eq!(body, "Details.");
            assert_eq!(labels, vec!["chore".to_string()]);
        }
        other => panic!("unexpected {:?}", other),
    }
    let cmd = run.advance(SyncEvent::IssueCreated { number: 7 }, NOW).unwrap();
    match cmd {
        SyncCommand::WriteTaskFile { path, contents } => {
            assert_eq!(path, "proj/tasks/x.md");
            let f = parse_task_file(&contents).unwrap();
            assert_eq!(f.config.issue_id, Some(7));
            assert_eq!(f.config.tags, Some(vec!["chore".to_string()]));
            assert_eq!(f.config.created_at.as_deref(), Some(NOW));
            assert_eq!(f.config.updated_at.as_deref(), Some(NOW));
            assert!(contents.ends_with("\n# Do X\n\nDetails."));
        }
        other => panic!("unexpected {:?}", other),
    }
    let cmd = run.advance(SyncEvent::Written, NOW).unwrap();
    match cmd {
        SyncCommand::WriteProjectFile { contents } => {
            assert_eq!(contents, "backend: github\nrepo: a/b\n---\n* [#7] - tasks/x.md - Do X\n");
        }
        other => panic!("unexpected {:?}", other),
    }
    assert!(matches!(run.advance(SyncEvent::Written, NOW), Ok(SyncCommand::Finished)));
    assert!(run.is_finished());
    let result = run.into_result();
    assert_eq!(result.created, vec![("tasks/x.md".to_string(), 7)]);
    assert!(result.updated.is_empty() && result.skipped.is_empty() && !result.has_errors());
}

#[test]
fn scenario_update_existing_task() {
    let doc = "backend: github\nrepo: a/b\n---\n* [#7] - tasks/x.md - Do X\n";
    let engine = SyncEngine::new("proj".to_string());
    let (mut run, _) = engine.sync(doc.to_string()).unwrap();
    let task = "---\nissue_id: 7\ntags: [chore]\nupdated_at: 2025-01-01T00:00:00Z\n---\n# Do X\n\nDetails.";
    let cmd = run
        .advance(SyncEvent::TaskFileRead { contents: task.to_string(), modified: at(JAN_2) }, NOW)
        .unwrap();
    match cmd {
        SyncCommand::UpdateIssue { number, title, body, labels } => {
            assert_eq!(number, 7);
            assert_eq!(title, "Do X");
            assert_eq!(body, "Details.");
            assert_eq!(labels, vec!["chore".to_string()]);
        }
        other => panic!("unexpected {:?}", other),
    }
    let cmd = run.advance(SyncEvent::IssueUpdated { number: 7 }, NOW).unwrap();
    match cmd {
        SyncCommand::WriteTaskFile { contents, .. } => {
            let f = parse_task_file(&contents).unwrap();
            assert_eq!(f.config.issue_id, Some(7));
            assert_eq!(f.config.updated_at.as_deref(), Some(NOW));
        }
        other => panic!("unexpected {:?}", other),
    }
    assert!(matches!(run.advance(SyncEvent::Written, NOW), Ok(SyncCommand::Finished)));
    let result = run.into_result();
    assert_eq!(result.updated, vec![("tasks/x.md".to_string(), 7)]);
    assert!(result.created.is_empty());
}

#[test]
fn scenario_missing_task_file_does_not_abort() {
    let doc = "backend: github\nrepo: a/b\n---\n* [new] - tasks/gone.md - Gone\n* [new] - tasks/y.md - Do Y\n";
    let engine = SyncEngine::new(String::new());
    let (mut run, _) = engine.sync(doc.to_string()).unwrap();
    let cmd = run.advance(SyncEvent::Failed { message: "not found".to_string() }, NOW).unwrap();
    match cmd {
        SyncCommand::ReadTaskFile { path } => assert_eq!(path, "tasks/y.md"),
        other => panic!("unexpected {:?}", other),
    }
    let task = "---\n---\n# Do Y\n";
    let cmd = run
        .advance(SyncEvent::TaskFileRead { contents: task.to_string(), modified: at(JAN_2) }, NOW)
        .unwrap();
    assert!(matches!(cmd, SyncCommand::CreateIssue { .. }));
    let cmd = run.advance(SyncEvent::IssueCreated { number: 3 }, NOW).unwrap();
    assert!(matches!(cmd, SyncCommand::WriteTaskFile { .. }));
    let cmd = run.advance(SyncEvent::Written, NOW).unwrap();
    match cmd {
        SyncCommand::WriteProjectFile { contents } => assert_eq!(
            contents,
            "backend: github\nrepo: a/b\n---\n* [new] - tasks/gone.md - Gone\n* [#3] - tasks/y.md - Do Y\n"
        ),
        other => panic!("unexpected {:?}", other),
    }
    assert!(matches!(run.advance(SyncEvent::Written, NOW), Ok(SyncCommand::Finished)));
    let result = run.into_result();
    assert_eq!(result.errors.len(), 1);
    assert_eq!(result.errors[0].0, "tasks/gone.md");
    assert!(matches!(&result.errors[0].1, SyncError::Io(m) if m == "not found"));
    assert_eq!(result.created, vec![("tasks/y.md".to_string(), 3)]);
}

#[test]
fn unchanged_task_is_skipped_without_tracker_call() {
    let doc = "backend: github\nrepo: a/b\n---\n* [#7] - tasks/x.md - Do X\n";
    let engine = SyncEngine::new("proj".to_string());
    let (mut run, _) = engine.sync(doc.to_string()).unwrap();
    let task = "---\nissue_id: 7\nupdated_at: 2025-01-02T00:00:00Z\n---\n# Do X\n";
    let cmd = run
        .advance(SyncEvent::TaskFileRead { contents: task.to_string(), modified: at(JAN_1) }, NOW)
        .unwrap();
    assert!(matches!(cmd, SyncCommand::Finished));
    let result = run.into_result();
    assert_eq!(result.skipped, vec!["tasks/x.md".to_string()]);
    assert!(result.updated.is_empty());
}

#[test]
fn id_mismatch_is_written_before_the_update() {
    let doc = "backend: github\nrepo: a/b\n---\n* [#9] - tasks/x.md - Do X\n";
    let engine = SyncEngine::new("proj".to_string());
    let (mut run, _) = engine.sync(doc.to_string()).unwrap();
    let task = "---\nissue_id: 4\n---\n# Do X\n";
    let cmd = run
        .advance(SyncEvent::TaskFileRead { contents: task.to_string(), modified: at(JAN_1) }, NOW)
        .unwrap();
    match cmd {
        SyncCommand::WriteTaskFile { contents, .. } => {
            assert_eq!(parse_task_file(&contents).unwrap().config.issue_id, Some(9));
        }
        other => panic!("unexpected {:?}", other),
    }
    let cmd = run.advance(SyncEvent::Written, NOW).unwrap();
    assert!(matches!(cmd, SyncCommand::UpdateIssue { number: 9, .. }));
    let cmd = run.advance(SyncEvent::Failed { message: "boom".to_string() }, NOW).unwrap();
    assert!(matches!(cmd, SyncCommand::Finished));
    let result = run.into_result();
    assert!(matches!(&result.errors[0].1, SyncError::Backend(m) if m == "boom"));
}

#[test]
fn unsupported_backend_is_refused() {
    let engine = SyncEngine::new(String::new());
    let doc = "backend: gitlab\nrepo: a/b\n---\n";
    assert!(matches!(engine.sync(doc.to_string()), Err(SyncError::UnsupportedBackend)));
}

#[test]
fn unexpected_event_changes_nothing() {
    let engine = SyncEngine::new(String::new());
    let doc = "backend: github\nrepo: a/b\n---\n* [new] - t.md - T\n";
    let (mut run, _) = engine.sync(doc.to_string()).unwrap();
    assert!(matches!(run.advance(SyncEvent::Written, NOW), Err(SyncError::UnexpectedEvent)));
    assert_eq!(run.result_ref().errors.len(), 0);
}

#[test]
fn failed_document_write_fails_the_run() {
    let engine = SyncEngine::new(String::new());
    let doc = "backend: github\nrepo: a/b\n---\n* [new] - t.md - T\n";
    let (mut run, _) = engine.sync(doc.to_string()).unwrap();
    run.advance(SyncEvent::TaskFileRead { contents: "---\n---\n# T\n".to_string(), modified: at(0) }, NOW).unwrap();
    run.advance(SyncEvent::IssueCreated { number: 1 }, NOW).unwrap();
    run.advance(SyncEvent::Written, NOW).unwrap();
    assert!(matches!(run.advance(SyncEvent::Failed { message: "disk".to_string() }, NOW), Err(SyncError::Io(_))));
    assert!(run.is_finished());
}

#[test]
fn project_file_patch_replaces_every_occurrence() {
    let doc = "* [new] - a.md - A\ntext * [new] - a.md - again\n* [new] - b.md - B\n";
    let created = vec![("a.md".to_string(), 12), ("b.md".to_string(), 3)];
    assert_eq!(
        update_project_file(doc, &created),
        "* [#12] - a.md - A\ntext * [#12] - a.md - again\n* [#3] - b.md - B\n"
    );
    assert_eq!(update_project_file(doc, &Vec::new()), doc);
}

#[test]
fn decimal_digits() {
    assert_eq!(decimal_string(0), "0");
    assert_eq!(decimal_string(7), "7");
    assert_eq!(decimal_string(1234567890), "1234567890");
    assert_eq!(decimal_string(u64::MAX), "18446744073709551615");
}

#[test]
fn modification_gate() {
    assert!(is_modified_after(at(JAN_2), at(JAN_1)));
    assert!(!is_modified_after(at(JAN_1), at(JAN_1)));
    assert!(is_modified_after(Timestamp { seconds: JAN_1, nanos: 1 }, at(JAN_1)));
    let f = parse_task_file("---\nupdated_at: 2025-01-02T00:00:00Z\n---\n# T\n").unwrap();
    assert_eq!(should_sync_task(&f.config, at(JAN_1)).unwrap(), false);
    assert_eq!(should_sync_task(&f.config, at(JAN_2)).unwrap(), false);
    assert_eq!(should_sync_task(&f.config, at(JAN_2 + 1)).unwrap(), true);
    let g = parse_task_file("---\nupdated_at: yesterday\n---\n# T\n").unwrap();
    assert!(matches!(should_sync_task(&g.config, at(JAN_1)), Err(SyncError::Timestamp)));
    let h = parse_task_file("---\n---\n# T\n").unwrap();
    assert_eq!(should_sync_task(&h.config, at(JAN_1)).unwrap(), true);
}

#[test]
fn plan_for_unchanged_existing_task_is_skip() {
    let f = parse_task_file("---\nupdated_at: 2025-01-02T00:00:00Z\n---\n# T\n").unwrap();
    assert!(matches!(plan_task(TaskStatus::Existing(2), f, at(JAN_1)), Ok(TaskPlan::Skip)));
    let g = parse_task_file("---\nupdated_at: 2025-01-02T00:00:00Z\n---\n# T\n").unwrap();
    assert!(matches!(plan_task(TaskStatus::New, g, at(JAN_1)), Ok(TaskPlan::Create { .. })));
}

#[test]
fn rewrite_keeps_unknown_keys() {
    let content = "---\nowner: alice\nissue_id: 1\npriority: 3\nnested: {a: 1}\n---\n# T\n\nBody\n";
    let rewritten = update_task_file_with_metadata(content, 5, NOW).unwrap();
    let again = parse_task_file(&rewritten).unwrap();
    assert_eq!(again.config.issue_id, Some(5));
    let keys: Vec<&str> = again.config.extra.iter().map(|(k, _)| k.as_str()).collect();
    assert_eq!(keys, vec!["owner", "priority", "nested"]);
    assert!(matches!(&again.config.extra[0].1, YamlNode::Text(s) if s == "alice"));
    assert!(matches!(&again.config.extra[1].1, YamlNode::Number(_)));
    assert!(matches!(&again.config.extra[2].1, YamlNode::Mapping(_)));
    assert!(rewritten.ends_with("\n# T\n\nBody\n"));
    assert!(rewritten.starts_with("---\n"));
}

#[test]
fn stamping_keeps_creation_time() {
    let f = parse_task_file("---\ncreated_at: then\n---\n# T\n").unwrap();
    let c = stamped_config(f.config, 4, NOW);
    assert_eq!(c.created_at.as_deref(), Some("then"));
    assert_eq!(c.updated_at.as_deref(), Some(NOW));
    let g = parse_task_file("---\ncreated_at: then\n---\n# T\n").unwrap();
    let d = stamped_config(g.config, 4, NOW);
    assert_eq!(d.created_at.as_deref(), Some("then"));
    let h = parse_task_file("---\n---\n# T\n").unwrap();
    let e = stamped_config(h.config, 4, NOW);
    assert_eq!(e.created_at.as_deref(), Some(NOW));
    assert_eq!(d.issue_id, Some(4));
}

#[test]
fn task_status_accessors() {
    assert!(TaskStatus::New.is_new());
    assert!(!TaskStatus::Existing(3).is_new());
    assert_eq!(TaskStatus::Existing(3).issue_id(), Some(3));
    assert_eq!(TaskStatus::New.issue_id(), None);
    let item = TaskItem { status: TaskStatus::New, path: "tasks/a.md".to_string(), description: "A".to_string() };
    let engine = SyncEngine::new("root/".to_string());
    assert_eq!(engine.task_file_path(&item), "root/tasks/a.md");
    let abs = TaskItem { status: TaskStatus::New, path: "/abs/a.md".to_string(), description: "A".to_string() };
    assert_eq!(engine.task_file_path(&abs), "/abs/a.md");
    assert_eq!(SyncAction::Created(1), SyncAction::Created(1));
}

#[test]
fn create_keeps_stored_creation_time() {
    let doc = "backend: github\nrepo: a/b\n---\n* [new] - t.md - T\n";
    let engine = SyncEngine::new(String::new());
    let (mut run, _) = engine.sync(doc.to_string()).unwrap();
    let task = "---\ncreated_at: 2024-01-01T00:00:00Z\n---\n# T\n";
    run.advance(SyncEvent::TaskFileRead { contents: task.to_string(), modified: at(JAN_1) }, NOW).unwrap();
    match run.advance(SyncEvent::IssueCreated { number: 2 }, NOW).unwrap() {
        SyncCommand::WriteTaskFile { contents, .. } => {
            assert!(contents.starts_with("---\n"));
            assert!(contents.ends_with("\n---\n\n# T\n"));
            let f = parse_task_file(&contents).unwrap();
            assert_eq!(f.config.created_at.as_deref(), Some("2024-01-01T00:00:00Z"));
            assert_eq!(f.config.updated_at.as_deref(), Some(NOW));
            assert_eq!(f.config.issue_id, Some(2));
        }
        other => panic!("unexpected {:?}", other),
    }
}

#[test]
fn issue_number_zero_from_tracker_is_an_error() {
    let doc = "backend: github\nrepo: a/b\n---\n* [new] - t.md - T\n";
    let engine = SyncEngine::new(String::new());
    let (mut run, _) = engine.sync(doc.to_string()).unwrap();
    run.advance(SyncEvent::TaskFileRead { contents: "---\n---\n# T\n".to_string(), modified: at(0) }, NOW).unwrap();
    let cmd = run.advance(SyncEvent::IssueCreated { number: 0 }, NOW).unwrap();
    assert!(matches!(cmd, SyncCommand::Finished));
    let result = run.into_result();
    assert!(matches!(&result.errors[0].1, SyncError::InvalidIssueNumber));
    assert!(result.created.is_empty());
}
