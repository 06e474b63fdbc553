use git_time_machine::{
    App, BackupRef, ClipboardCommand, GitEntry, HelpStyle, Key, KeyAction, KeyInput, Platform,
    RestoreMode, RestoreOutcome, Timestamp, backup_report_lines, clipboard_commands, confirm_text,
    copy_to_clipboard, entry_matches_query, filter_entries, filtered_footer, help_context,
    help_lines, highlight_lowered, highlight_ranges, lowered_fields_match, match_count_text,
    status_footer,
};

fn entry() -> GitEntry {
    GitEntry {
        hash: "abcdef1234567890".to_string(),
        message: "rebase finished: returning to refs/heads/feature".to_string(),
        timestamp: Timestamp::now().expect("system time after the Unix epoch"),
        author: "Test User".to_string(),
        relative_time: "2h ago".to_string(),
    }
}

fn entry_with(hash: &str, message: &str) -> GitEntry {
    GitEntry { hash: hash.to_string(), message: message.to_string(), ..entry() }
}

fn key(code: Key) -> KeyInput {
    KeyInput { code, shift: false, press: true }
}

fn three_entries() -> App {
    App::new(
        vec![
            entry_with("aaaaaaa1", "checkout: moving from main to feature"),
            entry_with("bbbbbbb2", "commit: add search"),
            entry_with("ccccccc3", "reset: moving to HEAD~1"),
        ],
        false,
    )
}

#[test]
fn query_matches_message_hash_author_and_time() {
    let entry = entry();

    assert!(entry_matches_query(&entry, &["rebase", "feature"]));
    assert!(entry_matches_query(&entry, &["abcdef1"]));
    assert!(entry_matches_query(&entry, &["test", "user"]));
    assert!(entry_matches_query(&entry, &["2h"]));
    assert!(!entry_matches_query(&entry, &["stash"]));
}

#[test]
fn help_mentions_copy_binding() {
    let mut app = App::new(vec![entry()], false);
    app.show_help = true;
    let lines = help_lines(&app);
    let help_text = format!("{lines:?}");

    assert!(help_text.contains("Copy selected commit hash"));
}

#[test]
fn clipboard_has_platform_candidate() {
    for platform in [Platform::MacOs, Platform::Windows, Platform::Unix] {
        assert!(!clipboard_commands(platform).is_empty());
    }
}

#[test]
fn query_is_case_insensitive_and_requires_every_word() {
    let e = entry();
    assert!(entry_matches_query(&e, &["REBASE"]));
    assert!(entry_matches_query(&e, &["ABCDEF"]));
    assert!(!entry_matches_query(&e, &["rebase", "stash"]));
    assert!(entry_matches_query(&e, &[]));
}

#[test]
fn lowered_fields_are_matched_as_given() {
    assert!(lowered_fields_match("add search", "bbbb", "ann", "2h ago", &["search", "2h"]));
    assert!(!lowered_fields_match("Add Search", "bbbb", "ann", "2h ago", &["add"]));
    assert!(lowered_fields_match("x", "abc123", "y", "z", &["c12"]));
    assert!(!lowered_fields_match("x", "abc123", "y", "z", &["c12", "q"]));
    assert!(lowered_fields_match("", "", "", "", &[]));
}

#[test]
fn filter_keeps_matching_positions_in_order() {
    let app = three_entries();
    assert_eq!(filter_entries(&app.entries, "moving"), vec![0, 2]);
    assert_eq!(filter_entries(&app.entries, "  MOVING   head "), vec![2]);
    assert_eq!(filter_entries(&app.entries, "   "), vec![0, 1, 2]);
    assert_eq!(filter_entries(&app.entries, "nothing-like-this"), Vec::<usize>::new());
}

#[test]
fn navigation_clamps_at_both_ends() {
    let mut app = three_entries();
    assert_eq!(app.selected, Some(0));
    app.handle_key(key(Key::Up));
    assert_eq!(app.selected, Some(0));
    app.handle_key(key(Key::Down));
    app.handle_key(Key::Char('j').into_input());
    assert_eq!(app.selected, Some(2));
    app.handle_key(key(Key::Down));
    assert_eq!(app.selected, Some(2));
    app.handle_key(key(Key::Char('k')));
    assert_eq!(app.selected, Some(1));
    app.handle_key(key(Key::Home));
    assert_eq!(app.selected, Some(0));
    app.handle_key(key(Key::End));
    assert_eq!(app.selected, Some(2));
    app.handle_key(key(Key::PageUp));
    assert_eq!(app.selected, Some(0));
    app.handle_key(key(Key::PageDown));
    assert_eq!(app.selected, Some(2));
}

trait IntoInput {
    fn into_input(self) -> KeyInput;
}

impl IntoInput for Key {
    fn into_input(self) -> KeyInput {
        key(self)
    }
}

#[test]
fn gg_and_shift_g_jump_to_the_ends() {
    let mut app = three_entries();
    app.handle_key(key(Key::Char('G')));
    assert_eq!(app.selected, Some(2));
    app.handle_key(key(Key::Char('g')));
    assert_eq!(app.selected, Some(2));
    assert!(app.last_key_was_g);
    app.handle_key(key(Key::Char('g')));
    assert_eq!(app.selected, Some(0));
    assert!(!app.last_key_was_g);
    app.handle_key(key(Key::Char('g')));
    app.handle_key(key(Key::Down));
    assert!(!app.last_key_was_g);
}

#[test]
fn key_releases_are_ignored() {
    let mut app = three_entries();
    let act = app.handle_key(KeyInput { code: Key::Down, shift: false, press: false });
    assert!(matches!(act, KeyAction::Nothing));
    assert_eq!(app.selected, Some(0));
}

#[test]
fn restore_needs_confirmation_with_y() {
    let mut app = three_entries();
    app.handle_key(key(Key::Down));
    let act = app.handle_key(key(Key::Char('s')));
    assert!(matches!(act, KeyAction::Nothing));
    assert!(app.show_confirmation);
    assert_eq!(app.pending_restore_mode, Some(RestoreMode::SoftReset));
    let text = confirm_text(&app).unwrap();
    assert_eq!(text.title, "CONFIRM soft reset: ");
    assert_eq!(text.command, "git reset --soft bbbbbbb2");
    assert_eq!(
        text.detail,
        "bbbbbbb - commit: add search | Non-hard restore mode. Confirm only after previewing the target. [y/N]"
    );
    match app.handle_key(key(Key::Char('y'))) {
        KeyAction::Restore { entry, hash, mode } => {
            assert_eq!(entry, 1);
            assert_eq!(hash, "bbbbbbb2");
            assert_eq!(mode, RestoreMode::SoftReset);
            let summary = app
                .finish_restore(entry, RestoreOutcome { mode, backup_ref: None })
                .unwrap();
            assert_eq!(summary.hash, "bbbbbbb");
            assert_eq!(summary.message, "commit: add search");
            assert_eq!(app.pending_restore_mode, None);
        }
        _ => panic!("expected a restore"),
    }
}

#[test]
fn confirmation_can_be_declined() {
    let mut app = three_entries();
    app.handle_key(key(Key::Enter));
    assert_eq!(app.pending_restore_mode, Some(RestoreMode::HardReset));
    let text = confirm_text(&app).unwrap();
    assert_eq!(
        text.detail,
        "aaaaaaa - checkout: moving from main to feature | A backup ref is created before the hard reset. [y/N]"
    );
    app.handle_key(key(Key::Esc));
    assert!(!app.show_confirmation);
    assert_eq!(app.pending_restore_mode, None);
    let act = app.handle_key(key(Key::Char('y')));
    assert!(matches!(act, KeyAction::CopyHash(ref h) if h == "aaaaaaa1"));
}

#[test]
fn hard_reset_note_warns_about_uncommitted_changes() {
    let mut app = App::new(vec![entry()], true);
    app.handle_key(key(Key::Enter));
    let text = confirm_text(&app).unwrap();
    assert!(text.detail.contains("Hard reset discards uncommitted changes."));
}

#[test]
fn search_mode_filters_as_you_type() {
    let mut app = three_entries();
    app.handle_key(key(Key::Char('/')));
    assert!(app.search_mode);
    for c in "add".chars() {
        app.handle_key(key(Key::Char(c)));
    }
    assert_eq!(app.search_query, "add");
    assert_eq!(app.filtered_entries, vec![1]);
    assert_eq!(app.selected, Some(0));
    assert_eq!(app.selected_entry_idx(), Some(1));
    app.handle_key(key(Key::Backspace));
    assert_eq!(app.search_query, "ad");
    assert_eq!(app.filtered_entries, vec![1, 2]);
    app.handle_key(key(Key::Enter));
    assert!(!app.search_mode);
    assert!(app.search_active);
    assert_eq!(filtered_footer(&app), "🔍 Filtered: ad (2 matches) | / edit | Esc clear | ? help");
    let act = app.handle_key(key(Key::Esc));
    assert!(matches!(act, KeyAction::Nothing));
    assert!(!app.search_active);
    assert_eq!(app.filtered_entries, vec![0, 1, 2]);
    let act = app.handle_key(key(Key::Esc));
    assert!(matches!(act, KeyAction::Quit));
}

#[test]
fn diff_panel_requests_the_selected_diff() {
    let mut app = three_entries();
    match app.handle_key(key(Key::Char(' '))) {
        KeyAction::LoadDiff { hash, stat, full } => {
            assert_eq!(hash, "aaaaaaa1");
            assert!(stat && !full);
        }
        _ => panic!("expected a diff load"),
    }
    match app.handle_key(key(Key::Char('d'))) {
        KeyAction::LoadDiff { stat, full, .. } => assert!(!stat && full),
        _ => panic!("expected a full diff load"),
    }
    app.full_diff_content = "1\n2\n3\n4\n5\n".to_string();
    app.diff_visible_height = 3;
    app.handle_key(KeyInput { code: Key::Down, shift: true, press: true });
    app.handle_key(key(Key::Char('J')));
    app.handle_key(key(Key::Char('J')));
    assert_eq!(app.diff_scroll_offset, 2);
    app.handle_key(key(Key::Char('K')));
    assert_eq!(app.diff_scroll_offset, 1);
    match app.handle_key(key(Key::Down)) {
        KeyAction::LoadDiff { hash, stat, full } => {
            assert_eq!(hash, "bbbbbbb2");
            assert!(stat && full);
        }
        _ => panic!("expected a diff load"),
    }
    assert_eq!(app.diff_scroll_offset, 0);
}

#[test]
fn copy_reports_its_outcome() {
    let mut app = three_entries();
    match app.handle_key(key(Key::Char('y'))) {
        KeyAction::CopyHash(h) => {
            app.finish_copy(&h, &Ok(()));
            assert_eq!(app.status_message.as_deref(), Some("Copied aaaaaaa to clipboard."));
            app.finish_copy(&h, &Err("boom".to_string()));
            assert_eq!(app.status_message.as_deref(), Some("Could not copy aaaaaaa: boom"));
        }
        _ => panic!("expected a copy"),
    }
    let mut empty = App::new(Vec::new(), false);
    empty.handle_key(key(Key::Char('y')));
    assert_eq!(empty.status_message.as_deref(), Some("No commit selected to copy."));
    assert_eq!(status_footer(&empty), "No commit selected to copy.");
    empty.handle_key(key(Key::Char('t')));
    assert_eq!(status_footer(&empty), "No entries found");
}

#[test]
fn footer_names_the_target() {
    let app = three_entries();
    assert_eq!(
        status_footer(&app),
        "📍 Target: aaaaaaa - checkout: moving from main to feature | Enter hard | s soft | c checkout | y copy | / search | ? help"
    );
    assert_eq!(match_count_text(12), "(12 matches)");
}

#[test]
fn help_overlay_names_the_context() {
    let mut app = three_entries();
    assert_eq!(help_context(&app), "Timeline");
    app.handle_key(key(Key::Char('?')));
    assert!(app.show_help);
    let lines = help_lines(&app);
    assert_eq!(lines[0].style, HelpStyle::Context);
    assert_eq!(lines[0].text, "Timeline");
    assert_eq!(lines.len(), 27);
    app.handle_key(key(Key::Char('q')));
    assert!(!app.show_help);
    app.handle_key(key(Key::Char(' ')));
    assert_eq!(help_context(&app), "Diff summary");
}

#[test]
fn copy_tries_programs_in_order() {
    let commands = clipboard_commands(Platform::Unix);
    let names: Vec<&str> = commands.iter().map(|c| c.program).collect();
    assert_eq!(names, vec!["wl-copy", "xclip", "xsel"]);
    assert_eq!(commands[1].args, &["-selection", "clipboard"]);

    let r = copy_to_clipboard(&commands, "abc", |c: ClipboardCommand, _t: &str| {
        if c.program == "xclip" { Ok(()) } else { Err("missing".to_string()) }
    });
    assert_eq!(r, Ok(()));

    let r = copy_to_clipboard(&commands, "abc", |_c: ClipboardCommand, _t: &str| {
        Err("not found".to_string())
    });
    assert_eq!(
        r,
        Err("clipboard unavailable (wl-copy: not found; xclip: not found; xsel: not found)".to_string())
    );

    let r = copy_to_clipboard(&Vec::new(), "abc", |_c: ClipboardCommand, _t: &str| Ok(()));
    assert_eq!(r, Err("clipboard command is not configured for this platform".to_string()));

    let mac = clipboard_commands(Platform::MacOs);
    assert_eq!(mac[0].program, "pbcopy");
    let win = clipboard_commands(Platform::Windows);
    assert_eq!(win[0].program, "clip");
}

#[test]
fn highlight_merges_overlapping_and_touching_matches() {
    assert_eq!(highlight_ranges("Rebase onto Feature", "feature"), vec![(12, 19)]);
    assert_eq!(highlight_ranges("aaaa", "aa"), vec![(0, 4)]);
    assert_eq!(highlight_ranges("aaa", "aa"), vec![(0, 2)]);
    assert_eq!(highlight_ranges("abcdef", "cd bc"), vec![(1, 4)]);
    assert_eq!(highlight_ranges("ab ab", "ab"), vec![(0, 2), (3, 5)]);
    assert_eq!(highlight_ranges("abc", "   "), Vec::<(usize, usize)>::new());
    assert_eq!(highlight_ranges("ÀB", "àb"), vec![(0, 2)]);
    assert_eq!(highlight_lowered("rebase onto feature", "onto feat"), vec![(7, 11), (12, 16)]);
    assert_eq!(highlight_lowered("Feature", "feature"), Vec::<(usize, usize)>::new());
}

#[test]
fn backup_report_lists_recovery_commands() {
    assert_eq!(
        backup_report_lines(&Vec::new()),
        vec![
            "No git-time-machine backup refs found.",
            "Hard reset creates refs under refs/git-time-machine/backups/."
        ]
    );
    let b = BackupRef {
        name: "refs/git-time-machine/backups/1-abc".to_string(),
        hash: "0123456789".to_string(),
        subject: "second commit".to_string(),
        created_at: Timestamp::from_millis(1),
        relative_time: "5m ago".to_string(),
    };
    let no_subject = BackupRef { subject: String::new(), ..b.clone() };
    assert_eq!(
        backup_report_lines(&vec![b, no_subject]),
        vec![
            "Backup refs (newest first):",
            "5m ago  0123456  refs/git-time-machine/backups/1-abc",
            "    commit: second commit",
            "    inspect: git show --stat --oneline refs/git-time-machine/backups/1-abc",
            "    restore: git reset --hard refs/git-time-machine/backups/1-abc",
            "5m ago  0123456  refs/git-time-machine/backups/1-abc",
            "    inspect: git show --stat --oneline refs/git-time-machine/backups/1-abc",
            "    restore: git reset --hard refs/git-time-machine/backups/1-abc",
        ]
    );
}

#[test]
fn keys_keep_the_selection_inside_the_filtered_list() {
    let mut app = three_entries();
    let keys = [
        Key::Char('/'),
        Key::Char('z'),
        Key::Backspace,
        Key::Char('m'),
        Key::Char('o'),
        Key::Enter,
        Key::End,
        Key::PageDown,
        Key::Down,
        Key::Char('/'),
        Key::Char('q'),
        Key::Esc,
        Key::PageUp,
        Key::Char('G'),
    ];
    for code in keys {
        app.handle_key(key(code));
        assert!(app.filtered_entries.iter().all(|&i| i < app.entries.len()));
        assert_eq!(app.selected.is_none(), app.filtered_entries.is_empty());
        if let Some(s) = app.selected {
            assert!(s < app.filtered_entries.len());
        }
    }
    assert_eq!(app.selected, Some(2));
}
