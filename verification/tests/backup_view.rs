use bms_store_gui::components::backup_view::{BackupAction, BackupPanel, JobOutcome};

#[test]
fn creating_a_backup_announces_it_and_reloads_the_list() {
    let mut p = BackupPanel::new();
    assert!(!p.is_busy());
    assert_eq!(p.create_label(), "Create Backup");
    p.start_create();
    assert!(p.is_busy());
    assert_eq!(p.create_label(), "Creating…");
    p.finish_create(JobOutcome::Succeeded, Some("backup-2024.tar.gz".to_string()));
    assert_eq!(p.action, BackupAction::Idle);
    assert_eq!(p.status.as_deref(), Some("Backup created: backup-2024.tar.gz"));
    assert_eq!(p.error, None);
    assert_eq!(p.version, 1);
}

#[test]
fn a_backup_without_a_file_name_is_called_backup() {
    let mut p = BackupPanel::new();
    p.start_create();
    p.finish_create(JobOutcome::Succeeded, None);
    assert_eq!(p.status.as_deref(), Some("Backup created: backup"));
}

#[test]
fn failed_jobs_show_their_error() {
    let mut p = BackupPanel::new();
    p.start_create();
    p.finish_create(JobOutcome::Failed("disk full".to_string()), None);
    assert_eq!(p.error.as_deref(), Some("Backup failed: disk full"));
    assert_eq!(p.status, None);
    assert_eq!(p.version, 0);
    p.start_create();
    assert_eq!(p.error, None);
    p.finish_create(JobOutcome::TaskFailed("join error".to_string()), None);
    assert_eq!(p.error.as_deref(), Some("Task error: join error"));
    assert!(!p.is_busy());
}

#[test]
fn the_version_wraps() {
    let mut p = BackupPanel::new();
    p.version = u32::MAX;
    p.start_create();
    p.finish_create(JobOutcome::Succeeded, None);
    assert_eq!(p.version, 0);
}

#[test]
fn a_restore_needs_confirmation() {
    let mut p = BackupPanel::new();
    assert_eq!(p.confirm_restore(), None);
    assert_eq!(p.action, BackupAction::Idle);
    p.ask_restore("b1.tar".to_string());
    p.cancel_restore();
    assert_eq!(p.confirm_restore(), None);
    p.ask_restore("b2.tar".to_string());
    assert_eq!(p.restore_label(), "Restore — I understand this will overwrite all data");
    assert_eq!(p.confirm_restore(), Some("b2.tar".to_string()));
    assert_eq!(p.restore_prompt, None);
    assert_eq!(p.action, BackupAction::Restoring("b2.tar".to_string()));
    assert_eq!(p.restore_label(), "Restoring…");
    assert!(p.is_busy());
    p.finish_restore(JobOutcome::Succeeded);
    assert_eq!(
        p.status.as_deref(),
        Some("Backup imported as a NEW project. Open the project launcher to switch to it. The current project is unchanged.")
    );
    assert_eq!(p.version, 1);
    p.ask_restore("b3.tar".to_string());
    p.confirm_restore();
    p.finish_restore(JobOutcome::Failed("bad archive".to_string()));
    assert_eq!(p.error.as_deref(), Some("Restore failed: bad archive"));
    assert!(!p.is_busy());
}
