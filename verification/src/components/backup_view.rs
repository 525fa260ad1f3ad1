//! The backup and restore panel as a state machine: the caller runs the
//! backup or the restore and hands its outcome back; the panel decides what
//! is busy, what the buttons say and which message is shown.

use vstd::prelude::*;

use crate::text::{opt_text, push_str};

verus! {

/// What the panel is doing.
#[derive(Debug, Clone, PartialEq)]
pub enum BackupAction {
    Idle,
    Creating,
    /// Restoring the backup with this file name.
    Restoring(String),
}

/// How a backup or restore job ended: done, failed with the job's own
/// error, or the task running it failed.
#[derive(Debug, Clone, PartialEq)]
pub enum JobOutcome {
    Succeeded,
    Failed(String),
    TaskFailed(String),
}

/// The panel's state: its action, the success and error messages shown,
/// the version that makes the backup list reload, and the file name of the
/// backup whose restore awaits confirmation.
pub struct BackupPanel {
    pub action: BackupAction,
    pub status: Option<String>,
    pub error: Option<String>,
    pub version: u32,
    pub restore_prompt: Option<String>,
}

/// What the panel says when a restore succeeds.
pub open spec fn restore_done_text() -> Seq<char> {
    "Backup imported as a NEW project. Open the project launcher to switch to it. The current project is unchanged."@
}

/// The error message of a failed job: `what` failed, or the task failed.
pub open spec fn failure_text(what: Seq<char>, outcome: JobOutcome) -> Option<Seq<char>> {
    match outcome {
        JobOutcome::Succeeded => None,
        JobOutcome::Failed(e) => Some(what + " failed: "@ + e@),
        JobOutcome::TaskFailed(e) => Some("Task error: "@ + e@),
    }
}

/// The name a created backup is announced by: its file name, or `backup`
/// when it has none.
pub open spec fn backup_name(file_name: Option<String>) -> Seq<char> {
    match file_name {
        Some(n) => n@,
        None => "backup"@,
    }
}

/// The text `prefix` followed by `rest`.
fn joined(prefix: &str, rest: &str) -> (r: String)
    ensures
        r@ == prefix@ + rest@,
{
    let mut out = String::from_str(prefix);
    push_str(&mut out, rest);
    out
}

/// The error message of a failed job (see `failure_text`).
fn failure_message(what: &str, outcome: &JobOutcome) -> (r: Option<String>)
    ensures
        opt_text(r) == failure_text(what@, *outcome),
{
    match outcome {
        JobOutcome::Succeeded => None,
        JobOutcome::Failed(e) => {
            let mut m = String::from_str(what);
            push_str(&mut m, " failed: ");
            push_str(&mut m, e.as_str());
            Some(m)
        },
        JobOutcome::TaskFailed(e) => Some(joined("Task error: ", e.as_str())),
    }
}

impl BackupPanel {
    /// A panel at rest: idle, no message, version 0, no restore pending.
    pub fn new() -> (r: BackupPanel)
        ensures
            r.action == BackupAction::Idle,
            r.status is None,
            r.error is None,
            r.version == 0,
            r.restore_prompt is None,
    {
        BackupPanel { action: BackupAction::Idle, status: None, error: None, version: 0, restore_prompt: None }
    }

    /// Whether a job runs: the create and restore buttons are then
    /// disabled.
    pub fn is_busy(&self) -> (r: bool)
        ensures
            r == !(self.action is Idle),
    {
        match self.action {
            BackupAction::Idle => false,
            _ => true,
        }
    }

    /// The label of the create button.
    pub fn create_label(&self) -> (r: &'static str)
        ensures
            r@ == if self.action is Creating { "Creating…"@ } else { "Create Backup"@ },
    {
        match self.action {
            BackupAction::Creating => "Creating…",
            _ => "Create Backup",
        }
    }

    /// The label of the button that confirms a restore.
    pub fn restore_label(&self) -> (r: &'static str)
        ensures
            r@ == if self.action is Restoring {
                "Restoring…"@
            } else {
                "Restore — I understand this will overwrite all data"@
            },
    {
        match self.action {
            BackupAction::Restoring(_) => "Restoring…",
            _ => "Restore — I understand this will overwrite all data",
        }
    }

    /// A backup starts: the panel is creating and shows no message.
    pub fn start_create(&mut self)
        ensures
            final(self).action == BackupAction::Creating,
            final(self).status is None,
            final(self).error is None,
            final(self).version == old(self).version,
            final(self).restore_prompt == old(self).restore_prompt,
    {
        self.action = BackupAction::Creating;
        self.error = None;
        self.status = None;
    }

    /// A backup ended: on success the panel announces the backup's name and
    /// bumps the version (wrapping) so that the list reloads; on failure it
    /// shows the error. Either way it is idle again.
    pub fn finish_create(&mut self, outcome: JobOutcome, file_name: Option<String>)
        ensures
            final(self).action == BackupAction::Idle,
            final(self).restore_prompt == old(self).restore_prompt,
            outcome is Succeeded ==> {
                &&& opt_text(final(self).status) == Some("Backup created: "@ + backup_name(file_name))
                &&& final(self).error == old(self).error
                &&& final(self).version == (if old(self).version == u32::MAX { 0 } else { old(self).version + 1 })
            },
            !(outcome is Succeeded) ==> {
                &&& opt_text(final(self).error) == failure_text("Backup"@, outcome)
                &&& final(self).status == old(self).status
                &&& final(self).version == old(self).version
            },
    {
        match outcome {
            JobOutcome::Succeeded => {
                let name = match file_name {
                    Some(n) => n,
                    None => String::from_str("backup"),
                };
                self.status = Some(joined("Backup created: ", name.as_str()));
                self.version = self.version.wrapping_add(1);
            },
            _ => {
                self.error = failure_message("Backup", &outcome);
            },
        }
        self.action = BackupAction::Idle;
    }

    /// The restore button of a backup asks for confirmation.
    pub fn ask_restore(&mut self, file_name: String)
        ensures
            final(self).restore_prompt == Some(file_name),
            final(self).action == old(self).action,
            final(self).status == old(self).status,
            final(self).error == old(self).error,
            final(self).version == old(self).version,
    {
        self.restore_prompt = Some(file_name);
    }

    /// The confirmation is dismissed.
    pub fn cancel_restore(&mut self)
        ensures
            final(self).restore_prompt is None,
            final(self).action == old(self).action,
            final(self).status == old(self).status,
            final(self).error == old(self).error,
            final(self).version == old(self).version,
    {
        self.restore_prompt = None;
    }

    /// The restore is confirmed: with a backup awaiting confirmation, the
    /// prompt closes, the panel restores that backup and shows no message,
    /// and the file name to restore is returned; with none, nothing
    /// changes.
    pub fn confirm_restore(&mut self) -> (r: Option<String>)
        ensures
            r == old(self).restore_prompt,
            final(self).version == old(self).version,
            final(self).restore_prompt is None,
            old(self).restore_prompt matches Some(f) ==> {
                &&& final(self).action == BackupAction::Restoring(f)
                &&& final(self).status is None
                &&& final(self).error is None
            },
            old(self).restore_prompt is None ==> {
                &&& final(self).action == old(self).action
                &&& final(self).status == old(self).status
                &&& final(self).error == old(self).error
            },
    {
        match self.restore_prompt.take() {
            Some(f) => {
                self.action = BackupAction::Restoring(f.clone());
                self.error = None;
                self.status = None;
                Some(f)
            },
            None => None,
        }
    }

    /// A restore ended: on success the panel says that the backup was
    /// imported as a new project and bumps the version (wrapping); on
    /// failure it shows the error. Either way it is idle again.
    pub fn finish_restore(&mut self, outcome: JobOutcome)
        ensures
            final(self).action == BackupAction::Idle,
            final(self).restore_prompt == old(self).restore_prompt,
            outcome is Succeeded ==> {
                &&& opt_text(final(self).status) == Some(restore_done_text())
                &&& final(self).error == old(self).error
                &&& final(self).version == (if old(self).version == u32::MAX { 0 } else { old(self).version + 1 })
            },
            !(outcome is Succeeded) ==> {
                &&& opt_text(final(self).error) == failure_text("Restore"@, outcome)
                &&& final(self).status == old(self).status
                &&& final(self).version == old(self).version
            },
    {
        match outcome {
            JobOutcome::Succeeded => {
                self.status = Some(
                    String::from_str(
                        "Backup imported as a NEW project. Open the project launcher to switch to it. The current project is unchanged.",
                    ),
                );
                self.version = self.version.wrapping_add(1);
            },
            _ => {
                self.error = failure_message("Restore", &outcome);
            },
        }
        self.action = BackupAction::Idle;
    }
}

} // verus!
