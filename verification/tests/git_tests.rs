use git_time_machine::{
    BackupRef, DiffKind, GitError, GitManager, GitOutput, RestoreMode, RestoreProcess, RestoreStage,
    RestoreStep, Timestamp, backup_ref_created_at, validate_commit_hash,
};

const FIRST: &str = "1111111111111111111111111111111111111111";
const SECOND: &str = "2222222aaaaaaaaaaaaaaaaaaaaaaaaaaaaaaaaa";

fn ok(stdout: &str) -> GitOutput {
    GitOutput { success: true, stdout: stdout.to_string(), stderr: String::new() }
}

fn failed(stderr: &str) -> GitOutput {
    GitOutput { success: false, stdout: String::new(), stderr: stderr.to_string() }
}

fn at_secs(secs: i64) -> Timestamp {
    Timestamp::from_secs(secs).expect("in range")
}

/// Runs a restore against canned git outputs, recording each command.
fn run_restore(
    hash: &str,
    mode: RestoreMode,
    outputs: Vec<GitOutput>,
    now: &Timestamp,
) -> (Vec<Vec<String>>, Result<git_time_machine::RestoreOutcome, GitError>) {
    let mut commands = Vec::new();
    let mut process = match RestoreProcess::start(hash, mode) {
        Ok(p) => p,
        Err(e) => return (commands, Err(e)),
    };
    for output in outputs {
        commands.push(process.args());
        match process.advance(&output, now) {
            Ok(RestoreStep::Next(p)) => process = p,
            Ok(RestoreStep::Finished(o)) => return (commands, Ok(o)),
            Err(e) => return (commands, Err(e)),
        }
    }
    panic!("restore did not finish");
}

#[test]
fn get_reflog_entries_returns_recent_commits_first() {
    let now = at_secs(1_700_000_100);
    let output = format!(
        "{SECOND}\0commit: second commit\x001700000000\0Test User\n{FIRST}\0commit (initial): first commit\x001699999000\0Test User\n"
    );
    let entries = GitManager::parse_reflog(&output, &now);

    assert!(entries.len() >= 2, "expected at least 2 reflog entries");
    assert_eq!(entries[0].hash, SECOND);
    assert!(entries[0].message.contains("second commit"));
    assert_eq!(entries[0].author, "Test User");
    assert!(entries
        .iter()
        .any(|entry| entry.hash == FIRST && entry.message.contains("first commit")));
}

#[test]
fn has_uncommitted_changes_tracks_dirty_worktree() {
    assert!(!GitManager::changes_in_status(""));
    assert!(GitManager::changes_in_status(" M file.txt\n"));
    assert!(!GitManager::changes_in_status(" \t\r\n\u{3000}"));
    assert!(GitManager::changes_in_status("\n?? new.txt"));
}

#[test]
fn get_diff_stat_compares_head_to_selected_commit() {
    let args = GitManager::diff_args(DiffKind::Stat, FIRST).expect("valid hash");
    assert_eq!(args, vec!["diff", "--stat", "HEAD", FIRST]);
    let diff = GitManager::diff_text(&ok(" file.txt | 2 +-\n 1 file changed\n"));
    assert!(diff.contains("file.txt"), "diff stat was: {diff}");
}

#[test]
fn get_full_diff_compares_head_to_selected_commit() {
    let args = GitManager::diff_args(DiffKind::Full, FIRST).expect("valid hash");
    assert_eq!(args, vec!["diff", "--no-color", "HEAD", FIRST]);
    let patch = "diff --git a/file.txt b/file.txt\n--- a/file.txt\n+++ b/file.txt\n@@ -1 +1 @@\n-second\n+first\n";
    let diff = GitManager::diff_text(&ok(patch));
    assert!(diff.contains("diff --git"), "full diff was: {diff}");
    assert!(diff.contains("-second"), "full diff was: {diff}");
    assert!(diff.contains("+first"), "full diff was: {diff}");
}

#[test]
fn hard_reset_creates_backup_ref_before_resetting() {
    let now = Timestamp::from_millis(1_700_000_000_123).unwrap();
    let (commands, outcome) = run_restore(
        FIRST,
        RestoreMode::HardReset,
        vec![ok(&format!("{SECOND}\n")), ok(""), ok("")],
        &now,
    );
    let outcome = outcome.expect("hard reset should restore");
    let backup_ref = outcome.backup_ref.clone().expect("hard reset should create backup ref");

    assert_eq!(outcome.mode, RestoreMode::HardReset);
    assert_eq!(backup_ref, "refs/git-time-machine/backups/1700000000123-2222222");
    assert_eq!(commands[0], vec!["rev-parse", "HEAD"]);
    assert_eq!(commands[1], vec!["update-ref", backup_ref.as_str(), "HEAD"]);
    assert_eq!(commands[2], vec!["reset", "--hard", FIRST]);
}

#[test]
fn list_backup_refs_returns_recovery_commands_for_hard_reset_backups() {
    let now = Timestamp::from_millis(1_700_000_000_123).unwrap();
    let (_, outcome) = run_restore(
        FIRST,
        RestoreMode::HardReset,
        vec![ok(&format!("{SECOND}\n")), ok(""), ok("")],
        &now,
    );
    let outcome = outcome.expect("hard reset should restore");
    let name = outcome.backup_ref.clone().unwrap();
    let listing = format!("{name}\0{SECOND}\0second commit\n");

    let later = Timestamp::from_millis(1_700_000_060_123).unwrap();
    let backups = GitManager::parse_backup_refs(&listing, &later);

    assert_eq!(backups.len(), 1);
    assert_eq!(backups[0].name, outcome.backup_ref.unwrap());
    assert_eq!(backups[0].hash, SECOND);
    assert_eq!(backups[0].short_hash(), SECOND[..7]);
    assert!(backups[0].subject.contains("second commit"));
    assert!(backups[0].created_at.is_some());
    assert_eq!(backups[0].created_at.unwrap().millis(), 1_700_000_000_123);
    assert_eq!(backups[0].relative_time, "1m ago");
    assert_eq!(
        backups[0].inspect_command(),
        format!("git show --stat --oneline {}", backups[0].name)
    );
    assert_eq!(
        backups[0].restore_command(),
        format!("git reset --hard {}", backups[0].name)
    );
}

#[test]
fn soft_reset_moves_head_without_changing_worktree() {
    let now = at_secs(1_700_000_000);
    let (commands, outcome) = run_restore(FIRST, RestoreMode::SoftReset, vec![ok("")], &now);
    let outcome = outcome.expect("soft reset should restore");
    assert_eq!(outcome.mode, RestoreMode::SoftReset);
    assert!(outcome.backup_ref.is_none());
    assert_eq!(commands, vec![vec!["reset", "--soft", FIRST]]);
}

#[test]
fn checkout_moves_to_detached_head_without_backup_ref() {
    let now = at_secs(1_700_000_000);
    let (commands, outcome) = run_restore(FIRST, RestoreMode::Checkout, vec![ok("")], &now);
    let outcome = outcome.expect("checkout should restore");
    assert_eq!(outcome.mode, RestoreMode::Checkout);
    assert!(outcome.backup_ref.is_none());
    assert_eq!(commands, vec![vec!["checkout", FIRST]]);
}

#[test]
fn invalid_hashes_do_not_run_git_operations() {
    assert!(RestoreProcess::start("HEAD;rm-rf", RestoreMode::HardReset).is_err());
    assert!(RestoreProcess::start("", RestoreMode::HardReset).is_err());
    assert_eq!(
        GitManager::diff_args(DiffKind::Stat, "HEAD;rm-rf").expect_err("invalid diff stat should return message"),
        "Invalid commit hash format"
    );
    assert_eq!(
        GitManager::diff_args(DiffKind::Full, "HEAD;rm-rf").expect_err("invalid full diff should return message"),
        "Invalid commit hash format"
    );
}

#[test]
fn validate_commit_hash_accepts_hex_only() {
    assert!(validate_commit_hash("abcDEF0123").is_ok());
    assert!(matches!(validate_commit_hash(""), Err(GitError::InvalidCommitHash)));
    assert!(matches!(validate_commit_hash("abc g"), Err(GitError::InvalidCommitHash)));
    assert!(matches!(validate_commit_hash("HEAD"), Err(GitError::InvalidCommitHash)));
}

#[test]
fn restore_errors_report_each_failing_command() {
    let now = at_secs(1_700_000_000);
    let (_, r) = run_restore(FIRST, RestoreMode::HardReset, vec![failed("no HEAD")], &now);
    let e = r.unwrap_err();
    assert!(matches!(e, GitError::ReadHeadFailed(_)));
    assert_eq!(e.message(), "Failed to read current HEAD before hard reset: no HEAD");

    let (_, r) = run_restore(FIRST, RestoreMode::HardReset, vec![ok("not a hash\n")], &now);
    let e = r.unwrap_err();
    assert!(matches!(e, GitError::InvalidCommitHash));
    assert_eq!(e.message(), "Invalid commit hash format");

    let (commands, r) =
        run_restore(FIRST, RestoreMode::HardReset, vec![ok(SECOND), failed("locked")], &now);
    let e = r.unwrap_err();
    assert_eq!(commands.len(), 2);
    assert_eq!(e.message(), "Failed to create hard-reset backup ref: locked");

    let (_, r) = run_restore(FIRST, RestoreMode::SoftReset, vec![failed("bad")], &now);
    assert_eq!(r.unwrap_err().message(), "Failed to soft reset: bad");
    let (_, r) = run_restore(FIRST, RestoreMode::Checkout, vec![failed("dirty")], &now);
    assert_eq!(r.unwrap_err().message(), "Failed to checkout: dirty");
}

#[test]
fn restore_process_reports_its_stage() {
    let p = RestoreProcess::start(FIRST, RestoreMode::HardReset).unwrap();
    assert_eq!(p.stage(), RestoreStage::ReadHead);
    assert_eq!(p.mode(), RestoreMode::HardReset);
    let p = RestoreProcess::start(FIRST, RestoreMode::Checkout).unwrap();
    assert_eq!(p.stage(), RestoreStage::Reset);
}

#[test]
fn backup_name_records_creation_time() {
    let created = backup_ref_created_at("refs/git-time-machine/backups/1700000000123-abcdef1").unwrap();
    assert_eq!(created.millis(), 1_700_000_000_123);
    assert_eq!(created.secs(), 1_700_000_000);
    assert_eq!(created.subsec_nanos(), 123_000_000);
    assert!(backup_ref_created_at("refs/heads/main").is_none());
    assert!(backup_ref_created_at("refs/git-time-machine/backups/abc-def").is_none());
    assert!(backup_ref_created_at("refs/git-time-machine/backups/123").is_none());
    assert!(backup_ref_created_at("refs/git-time-machine/backups/99999999999999999999-a").is_none());
}

#[test]
fn backup_refs_sort_newest_first_then_by_name() {
    let now = Timestamp::from_millis(2_000_000_000_000).unwrap();
    let listing = "refs/git-time-machine/backups/1000-aaaaaaa\0a1\0old\n\
refs/other/b\0b1\0unknown b\n\
refs/git-time-machine/backups/3000-ccccccc\0c1\0newest\n\
refs/other/z\0z1\0unknown z\n\
refs/git-time-machine/backups/2000-bbbbbbb\0b2\0middle\n\
short line\n";
    let backups = GitManager::parse_backup_refs(listing, &now);
    let names: Vec<&str> = backups.iter().map(|b| b.name.as_str()).collect();
    assert_eq!(
        names,
        vec![
            "refs/git-time-machine/backups/3000-ccccccc",
            "refs/git-time-machine/backups/2000-bbbbbbb",
            "refs/git-time-machine/backups/1000-aaaaaaa",
            "refs/other/z",
            "refs/other/b",
        ]
    );
    assert_eq!(backups[3].relative_time, "unknown");
    assert_eq!(backups[0].relative_time, "63y ago");
}

#[test]
fn reflog_skips_malformed_lines_and_keeps_out_of_range_times() {
    let now = at_secs(1_000);
    let output = "a\0m\0notanumber\0x\r\nb\0m2\x00940\0y\0extra\r\nonly\0three\0fields\nc\0m3\x0099999999999999\0z";
    let entries = GitManager::parse_reflog(output, &now);
    assert_eq!(entries.len(), 2);
    assert_eq!(entries[0].hash, "b");
    assert_eq!(entries[0].author, "y\0extra");
    assert_eq!(entries[0].relative_time, "1m ago");
    assert_eq!(entries[1].hash, "c");
    assert_eq!(entries[1].timestamp.secs(), 1_000);
    assert_eq!(entries[1].relative_time, "0s ago");
}

#[test]
fn command_arguments_match_git_invocations() {
    assert_eq!(GitManager::toplevel_args(), vec!["rev-parse", "--show-toplevel"]);
    assert_eq!(
        GitManager::reflog_args(false),
        vec!["reflog", "--format=%H%x00%s%x00%ct%x00%an", "-n50"]
    );
    assert_eq!(GitManager::reflog_args(true)[2], "-n1000");
    assert_eq!(
        GitManager::backup_refs_args(),
        vec![
            "for-each-ref",
            "refs/git-time-machine/backups",
            "--format=%(refname)%00%(objectname)%00%(subject)"
        ]
    );
    assert_eq!(GitManager::status_args(), vec!["status", "--porcelain"]);
}

#[test]
fn manager_trims_toplevel_path() {
    let m = GitManager::new("  /home/user/repo\n");
    assert_eq!(m.repo_path(), "/home/user/repo");
}

#[test]
fn diff_text_reports_errors_and_empty_diffs() {
    assert_eq!(GitManager::diff_text(&failed("fatal: bad object")), "Error getting diff: fatal: bad object");
    assert_eq!(
        GitManager::diff_text(&ok("  \n")),
        "No changes between current HEAD and selected commit."
    );
}

#[test]
fn restore_mode_labels_and_commands() {
    assert_eq!(RestoreMode::HardReset.label(), "hard reset");
    assert_eq!(RestoreMode::SoftReset.label(), "soft reset");
    assert_eq!(RestoreMode::Checkout.label(), "checkout");
    assert_eq!(RestoreMode::HardReset.command("abc"), "git reset --hard abc");
    assert_eq!(RestoreMode::SoftReset.command("abc"), "git reset --soft abc");
    assert_eq!(RestoreMode::Checkout.command("abc"), "git checkout abc");
}

#[test]
fn short_hash_takes_seven_characters() {
    let b = BackupRef {
        name: "n".to_string(),
        hash: "0123456789".to_string(),
        subject: String::new(),
        created_at: None,
        relative_time: "unknown".to_string(),
    };
    assert_eq!(b.short_hash(), "0123456");
    let c = BackupRef { hash: "abc".to_string(), ..b };
    assert_eq!(c.short_hash(), "abc");
}
