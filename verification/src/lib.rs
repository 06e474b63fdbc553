//! Verified core of a reflog browser for git: the reflog and backup-ref
//! listings and what they mean, restoring a commit (with a backup ref before
//! a hard reset), search over the timeline, the timeline's key handling, and
//! the texts it shows. Running git, the terminal and the clipboard programs
//! is left to the caller, which hands the outputs back.
mod app;
mod clipboard;
mod git;
mod highlight;
mod report;
mod search;
mod text;
mod timestamp;

pub use app::{App, AppView, Key, KeyAction, KeyInput, RestoreSummary};
pub use clipboard::{ClipboardCommand, Platform, clipboard_commands, copy_to_clipboard};
pub use git::{
    BackupRef, DiffKind, GitEntry, GitError, GitManager, GitOutput, RestoreMode, RestoreOutcome,
    RestoreProcess, RestoreStage, RestoreStep, backup_ref_created_at, sort_backup_refs,
    validate_commit_hash,
};
pub use highlight::{highlight_lowered, highlight_ranges};
pub use report::{
    ConfirmText, HelpLine, HelpStyle, backup_report_lines, confirm_text, filtered_footer,
    help_context, help_lines, match_count_text, status_footer,
};
pub use search::{entry_matches_query, filter_entries, lowered_fields_match};
pub use text::{chars_of, decimal_string, nat_string, trim_string};
pub use timestamp::{Timestamp, format_age, format_relative_time, seconds_between};
