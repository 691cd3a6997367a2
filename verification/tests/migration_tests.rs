use messy_folder_reorganizer_ai::migration::path_join;
use messy_folder_reorganizer_ai::migration::start_migrations;
use messy_folder_reorganizer_ai::migration::FsEntryMigration;
use messy_folder_reorganizer_ai::migration::LogRecord;
use messy_folder_reorganizer_ai::migration::MigrationOrchestrator;
use messy_folder_reorganizer_ai::migration::MigrationsConfig;
use messy_folder_reorganizer_ai::migration::MoveOutcome;

fn migration(name: &str, from: &str, to: &str) -> FsEntryMigration {
    FsEntryMigration {
        source_arg: "messy".to_string(),
        destination_arg: "tidy".to_string(),
        source_relative_path: from.to_string(),
        destination_relative_path: to.to_string(),
        source_file_name: name.to_string(),
    }
}

fn three_move_config() -> MigrationsConfig {
    MigrationsConfig {
        root_dir: "/root".to_string(),
        migrations: vec![
            migration("a.txt", "", "docs"),
            migration("b.txt", "old", "docs"),
            migration("c.txt", "old", "pics"),
        ],
    }
}

fn outcome_success() -> MoveOutcome {
    MoveOutcome::Success
}

fn outcome_failure(message: &str) -> MoveOutcome {
    MoveOutcome::Failure { message: message.to_string() }
}

#[test]
fn abort_on_second_failure_without_continue_on_error() {
    let session = "session-1".to_string();
    let outcomes = vec![outcome_success(), outcome_failure("disk full"), outcome_success()];
    let (log, result) = start_migrations(three_move_config(), false, &session, &outcomes);
    assert_eq!(log.len(), 2);
    match &log[0] {
        LogRecord::Success { migration, session_id } => {
            assert_eq!(migration.source_file_name, "a.txt");
            assert_eq!(session_id.as_str(), "session-1");
        },
        _ => panic!("expected a success record first"),
    }
    match &log[1] {
        LogRecord::Failure { migration, message, session_id } => {
            assert_eq!(migration.source_file_name, "b.txt");
            assert_eq!(message.as_str(), "disk full");
            assert_eq!(session_id.as_str(), "session-1");
        },
        _ => panic!("expected a failure record second"),
    }
    let err = result.expect_err("an aborted pass propagates the triggering failure");
    assert_eq!(err.message, "disk full");
}

#[test]
fn best_effort_completion_with_continue_on_error() {
    let session = "session-2".to_string();
    let outcomes = vec![outcome_success(), outcome_failure("disk full"), outcome_success()];
    let (log, result) = start_migrations(three_move_config(), true, &session, &outcomes);
    assert_eq!(log.len(), 3);
    assert!(matches!(&log[0], LogRecord::Success { .. }));
    assert!(matches!(&log[1], LogRecord::Failure { .. }));
    match &log[2] {
        LogRecord::Success { migration, .. } => {
            assert_eq!(migration.source_file_name, "c.txt");
        },
        _ => panic!("expected a success record third"),
    }
    assert!(result.is_ok());
}

#[test]
fn all_successes_complete_without_continue_on_error() {
    let session = "session-3".to_string();
    let outcomes = vec![outcome_success(), outcome_success(), outcome_success()];
    let (log, result) = start_migrations(three_move_config(), false, &session, &outcomes);
    assert_eq!(log.len(), 3);
    assert!(result.is_ok());
}

#[test]
fn step_orchestrator_walks_the_plan_in_order() {
    let session = "session-4".to_string();
    let mut orchestrator = MigrationOrchestrator::new(three_move_config(), false, &session);
    let first = orchestrator.next_migration().expect("a pending move");
    assert_eq!(first.source_file_name, "a.txt");
    orchestrator.record_success();
    let second = orchestrator.next_migration().expect("a pending move");
    assert_eq!(second.source_file_name, "b.txt");
    orchestrator.record_failure("permission denied".to_string());
    assert!(orchestrator.next_migration().is_none());
    assert!(orchestrator.aborted);
    assert_eq!(orchestrator.log.len(), 2);
}

#[test]
fn step_orchestrator_continues_past_failures_when_allowed() {
    let session = "session-5".to_string();
    let mut orchestrator = MigrationOrchestrator::new(three_move_config(), true, &session);
    while orchestrator.next_migration().is_some() {
        orchestrator.record_failure("boom".to_string());
    }
    assert!(!orchestrator.aborted);
    assert_eq!(orchestrator.log.len(), 3);
}

#[test]
fn joins_path_fragments_and_skips_empty_ones() {
    assert_eq!(path_join("/root", "docs"), "/root/docs");
    assert_eq!(path_join("/root", ""), "/root");
    assert_eq!(path_join("", "docs"), "docs");
}

#[test]
fn planned_move_paths_under_the_shared_root() {
    let m = migration("a.txt", "old", "docs");
    assert_eq!(m.source_path("/root"), "/root/old/a.txt");
    assert_eq!(m.destination_dir("/root"), "/root/docs");
    assert_eq!(m.destination_path("/root"), "/root/docs/a.txt");
    let at_root = migration("b.txt", "", "");
    assert_eq!(at_root.source_path("/root"), "/root/b.txt");
    assert_eq!(at_root.destination_path("/root"), "/root/b.txt");
}
