//! Texts the program prints or shows: the backup listing, the help overlay,
//! and the status lines of the timeline.
use vstd::prelude::*;
use crate::app::{App, AppView, selected_entry_view, selected_idx};
use crate::git::{BackupRef, BackupView, RestoreMode, backups_view, mode_command_prefix, mode_label, short_form};
use crate::text::{concat2, nat_decimal, nat_string, owned};

verus! {

// ---------------------------------------------------------------------------
// Backup listing
// ---------------------------------------------------------------------------

/// The lines that describe one backup ref: its age, abbreviated hash and
/// name, its commit subject when it has one, and the commands that inspect
/// and restore it.
pub open spec fn backup_lines(b: BackupView) -> Seq<Seq<char>> {
    let head = seq![b.relative_time + "  "@ + short_form(b.hash) + "  "@ + b.name];
    let subject = if b.subject.len() > 0 {
        seq!["    commit: "@ + b.subject]
    } else {
        seq![]
    };
    head + subject + seq![
        "    inspect: "@ + ("git show --stat --oneline "@ + b.name),
        "    restore: "@ + ("git reset --hard "@ + b.name),
    ]
}

/// The lines of all backups, in order.
pub open spec fn backups_body(bs: Seq<BackupView>) -> Seq<Seq<char>>
    decreases bs.len(),
{
    if bs.len() == 0 {
        seq![]
    } else {
        backups_body(bs.drop_last()) + backup_lines(bs.last())
    }
}

/// The backup listing the program prints.
pub open spec fn backup_report(bs: Seq<BackupView>) -> Seq<Seq<char>> {
    if bs.len() == 0 {
        seq![
            "No git-time-machine backup refs found."@,
            "Hard reset creates refs under refs/git-time-machine/backups/."@,
        ]
    } else {
        seq!["Backup refs (newest first):"@] + backups_body(bs)
    }
}

fn push_line(out: &mut Vec<String>, line: String)
    ensures
        final(out).deep_view() == old(out).deep_view().push(line@),
{
    let ghost before = out.deep_view();
    out.push(line);
    assert(out.deep_view() =~= before.push(line@));
}

/// The lines that list backup refs with their recovery commands.
pub fn backup_report_lines(backups: &Vec<BackupRef>) -> (r: Vec<String>)
    ensures
        r.deep_view() == backup_report(backups_view(backups@)),
{
    let mut out: Vec<String> = Vec::new();
    if backups.len() == 0 {
        push_line(&mut out, owned("No git-time-machine backup refs found."));
        push_line(&mut out, owned("Hard reset creates refs under refs/git-time-machine/backups/."));
        return out;
    }
    push_line(&mut out, owned("Backup refs (newest first):"));
    let ghost bv = backups_view(backups@);
    let mut i: usize = 0;
    assert(bv.take(0) =~= Seq::<BackupView>::empty());
    while i < backups.len()
        invariant
            i <= backups.len(),
            bv == backups_view(backups@),
            out.deep_view() == seq!["Backup refs (newest first):"@] + backups_body(bv.take(i as int)),
        decreases backups.len() - i,
    {
        let b = &backups[i];
        assert(bv[i as int] == b@);
        let ghost before = out.deep_view();
        let ghost lines_b = backup_lines(b@);
        let head = concat2(b.relative_time.as_str(), "  ");
        let head = concat2(head.as_str(), b.short_hash().as_str());
        let head = concat2(head.as_str(), "  ");
        let head = concat2(head.as_str(), b.name.as_str());
        push_line(&mut out, head);
        let ghost after_head = out.deep_view();
        if !b.subject.as_str().is_empty() {
            push_line(&mut out, concat2("    commit: ", b.subject.as_str()));
        }
        let ghost after_subject = out.deep_view();
        assert(after_subject =~= before + lines_b.take(lines_b.len() - 2));
        push_line(&mut out, concat2("    inspect: ", b.inspect_command().as_str()));
        push_line(&mut out, concat2("    restore: ", b.restore_command().as_str()));
        proof {
            assert(bv.take(i + 1).drop_last() =~= bv.take(i as int));
            assert(bv.take(i + 1).last() == b@);
            assert(out.deep_view() =~= before + backup_lines(b@));
        }
        i += 1;
    }
    assert(bv.take(backups.len() as int) =~= bv);
    out
}

// ---------------------------------------------------------------------------
// Help overlay
// ---------------------------------------------------------------------------

/// How a help line is shown.
#[derive(Clone, Copy, Debug, PartialEq, Eq, Structural)]
pub enum HelpStyle {
    /// The first line: the word "Context:" in bold, then the text.
    Context,
    /// A section title.
    Heading,
    /// The title of the safety section.
    Warning,
    /// Ordinary text.
    Plain,
}

/// One line of the help overlay.
#[derive(Clone, Debug)]
pub struct HelpLine {
    pub style: HelpStyle,
    pub text: String,
}

/// What the interface is doing, as the help overlay names it.
pub open spec fn help_context_spec(a: AppView) -> Seq<char> {
    if a.show_confirmation {
        "Confirm restore"@
    } else if a.search_mode {
        "Search"@
    } else if a.search_active {
        "Filtered timeline"@
    } else if a.show_full_diff {
        "Full diff preview"@
    } else if a.show_diff {
        "Diff summary"@
    } else {
        "Timeline"@
    }
}

/// The help overlay's lines after the context line.
pub open spec fn help_body() -> Seq<(HelpStyle, Seq<char>)> {
    seq![
        (HelpStyle::Plain, ""@),
        (HelpStyle::Heading, "Navigation"@),
        (HelpStyle::Plain, "  ↑/k, ↓/j        Move selection"@),
        (HelpStyle::Plain, "  Home/End         Jump to first or last entry"@),
        (HelpStyle::Plain, "  gg/G             Vim-style first or last entry"@),
        (HelpStyle::Plain, "  PgUp/PgDn        Jump 10 entries"@),
        (HelpStyle::Plain, ""@),
        (HelpStyle::Heading, "Inspect"@),
        (HelpStyle::Plain, "  Space            Toggle diff panel"@),
        (HelpStyle::Plain, "  d                Switch diff summary/full diff"@),
        (HelpStyle::Plain, "  Shift+↑↓ or J/K  Scroll diff"@),
        (HelpStyle::Plain, "  t                Toggle relative/absolute timestamps"@),
        (HelpStyle::Plain, "  /                Search message, hash, author, or time"@),
        (HelpStyle::Plain, ""@),
        (HelpStyle::Heading, "Recover"@),
        (HelpStyle::Plain, "  Enter            Hard reset after confirmation"@),
        (HelpStyle::Plain, "  s                Soft reset after confirmation"@),
        (HelpStyle::Plain, "  c                Checkout selected commit detached"@),
        (HelpStyle::Plain, "  y                Copy selected commit hash"@),
        (HelpStyle::Plain, ""@),
        (HelpStyle::Warning, "Safety"@),
        (HelpStyle::Plain, "  Hard reset creates a backup ref first."@),
        (HelpStyle::Plain, "  Preview the diff and exact command before confirming a restore."@),
        (HelpStyle::Plain, "  Reflog recovery only works for history Git can still see locally."@),
        (HelpStyle::Plain, ""@),
        (HelpStyle::Plain, "Esc clears an active filter, closes help, or quits from the unfiltered timeline."@),
    ]
}

/// The style and text of a help line.
pub open spec fn help_line_view(l: HelpLine) -> (HelpStyle, Seq<char>) {
    (l.style, l.text@)
}

/// What the interface is doing, as the help overlay names it.
pub fn help_context(app: &App) -> (r: &'static str)
    ensures
        r@ == help_context_spec(app@),
{
    if app.show_confirmation {
        "Confirm restore"
    } else if app.search_mode {
        "Search"
    } else if app.search_active {
        "Filtered timeline"
    } else if app.show_full_diff {
        "Full diff preview"
    } else if app.show_diff {
        "Diff summary"
    } else {
        "Timeline"
    }
}

fn push_help(out: &mut Vec<HelpLine>, style: HelpStyle, text: &str)
    ensures
        final(out)@.map_values(|l: HelpLine| help_line_view(l)) == old(out)@.map_values(
            |l: HelpLine| help_line_view(l),
        ).push((style, text@)),
{
    let ghost before = out@.map_values(|l: HelpLine| help_line_view(l));
    out.push(HelpLine { style, text: owned(text) });
    assert(out@.map_values(|l: HelpLine| help_line_view(l)) =~= before.push((style, text@)));
}

/// The lines of the help overlay: the context, then the keys by task and
/// the safety notes.
pub fn help_lines(app: &App) -> (r: Vec<HelpLine>)
    ensures
        r@.map_values(|l: HelpLine| help_line_view(l)) == seq![
            (HelpStyle::Context, help_context_spec(app@)),
        ] + help_body(),
{
    let mut out: Vec<HelpLine> = Vec::new();
    push_help(&mut out, HelpStyle::Context, help_context(app));
    push_help(&mut out, HelpStyle::Plain, "");
    push_help(&mut out, HelpStyle::Heading, "Navigation");
    push_help(&mut out, HelpStyle::Plain, "  ↑/k, ↓/j        Move selection");
    push_help(&mut out, HelpStyle::Plain, "  Home/End         Jump to first or last entry");
    push_help(&mut out, HelpStyle::Plain, "  gg/G             Vim-style first or last entry");
    push_help(&mut out, HelpStyle::Plain, "  PgUp/PgDn        Jump 10 entries");
    push_help(&mut out, HelpStyle::Plain, "");
    push_help(&mut out, HelpStyle::Heading, "Inspect");
    push_help(&mut out, HelpStyle::Plain, "  Space            Toggle diff panel");
    push_help(&mut out, HelpStyle::Plain, "  d                Switch diff summary/full diff");
    push_help(&mut out, HelpStyle::Plain, "  Shift+↑↓ or J/K  Scroll diff");
    push_help(&mut out, HelpStyle::Plain, "  t                Toggle relative/absolute timestamps");
    push_help(&mut out, HelpStyle::Plain, "  /                Search message, hash, author, or time");
    push_help(&mut out, HelpStyle::Plain, "");
    push_help(&mut out, HelpStyle::Heading, "Recover");
    push_help(&mut out, HelpStyle::Plain, "  Enter            Hard reset after confirmation");
    push_help(&mut out, HelpStyle::Plain, "  s                Soft reset after confirmation");
    push_help(&mut out, HelpStyle::Plain, "  c                Checkout selected commit detached");
    push_help(&mut out, HelpStyle::Plain, "  y                Copy selected commit hash");
    push_help(&mut out, HelpStyle::Plain, "");
    push_help(&mut out, HelpStyle::Warning, "Safety");
    push_help(&mut out, HelpStyle::Plain, "  Hard reset creates a backup ref first.");
    push_help(
        &mut out,
        HelpStyle::Plain,
        "  Preview the diff and exact command before confirming a restore.",
    );
    push_help(
        &mut out,
        HelpStyle::Plain,
        "  Reflog recovery only works for history Git can still see locally.",
    );
    push_help(&mut out, HelpStyle::Plain, "");
    push_help(
        &mut out,
        HelpStyle::Plain,
        "Esc clears an active filter, closes help, or quits from the unfiltered timeline.",
    );
    assert(out@.map_values(|l: HelpLine| help_line_view(l)) =~= seq![
        (HelpStyle::Context, help_context_spec(app@)),
    ] + help_body());
    out
}

// ---------------------------------------------------------------------------
// Status lines of the timeline
// ---------------------------------------------------------------------------

/// What a confirmation shows: a title naming the mode, the exact git
/// command, and the target with a note on what the mode keeps.
#[derive(Clone, Debug)]
pub struct ConfirmText {
    pub title: String,
    pub command: String,
    pub detail: String,
}

/// The note a confirmation shows for `mode`.
pub open spec fn confirm_note(mode: RestoreMode, has_uncommitted_changes: bool) -> Seq<char> {
    if mode == RestoreMode::HardReset && has_uncommitted_changes {
        "Hard reset discards uncommitted changes. A backup ref is created first."@
    } else if mode == RestoreMode::HardReset {
        "A backup ref is created before the hard reset."@
    } else {
        "Non-hard restore mode. Confirm only after previewing the target."@
    }
}

/// The restore mode a confirmation is for.
pub open spec fn confirm_mode(a: AppView) -> RestoreMode {
    match a.pending_restore_mode {
        Some(m) => m,
        None => RestoreMode::HardReset,
    }
}

/// The texts of a confirmation for the selected entry, if there is one.
pub fn confirm_text(app: &App) -> (r: Option<ConfirmText>)
    ensures
        selected_entry_view(app@) is Some <==> r is Some,
        r matches Some(t) ==> {
            let e = selected_entry_view(app@)->0;
            let m = confirm_mode(app@);
            &&& t.title@ == "CONFIRM "@ + mode_label(m) + ": "@
            &&& t.command@ == mode_command_prefix(m) + e.hash
            &&& t.detail@ == short_form(e.hash) + " - "@ + e.message + " | "@ + confirm_note(
                m,
                app@.has_uncommitted_changes,
            ) + " [y/N]"@
        },
{
    match app.selected_entry() {
        Some(e) => {
            let mode = match app.pending_restore_mode {
                Some(m) => m,
                None => RestoreMode::HardReset,
            };
            let note = if mode == RestoreMode::HardReset && app.has_uncommitted_changes {
                "Hard reset discards uncommitted changes. A backup ref is created first."
            } else if mode == RestoreMode::HardReset {
                "A backup ref is created before the hard reset."
            } else {
                "Non-hard restore mode. Confirm only after previewing the target."
            };
            let title = concat2("CONFIRM ", mode.label());
            let title = concat2(title.as_str(), ": ");
            let detail = concat2(e.short_hash().as_str(), " - ");
            let detail = concat2(detail.as_str(), e.message.as_str());
            let detail = concat2(detail.as_str(), " | ");
            let detail = concat2(detail.as_str(), note);
            let detail = concat2(detail.as_str(), " [y/N]");
            Some(ConfirmText { title, command: mode.command(e.hash.as_str()), detail })
        },
        None => None,
    }
}

/// The entry the footer describes: the selected one, or the first when the
/// selection points nowhere.
pub open spec fn footer_entry(a: AppView) -> Option<crate::git::EntryView> {
    let i = match selected_idx(a) {
        Some(i) => i as int,
        None => 0,
    };
    if i < a.entries.len() {
        Some(a.entries[i])
    } else {
        None
    }
}

/// The footer of the timeline: the status message if there is one, else
/// the target entry with the keys that act on it.
pub fn status_footer(app: &App) -> (r: String)
    ensures
        r@ == match app@.status_message {
            Some(m) => m,
            None => match footer_entry(app@) {
                Some(e) => "📍 Target: "@ + short_form(e.hash) + " - "@ + e.message
                    + " | Enter hard | s soft | c checkout | y copy | / search | ? help"@,
                None => "No entries found"@,
            },
        },
{
    let idx = match app.selected_entry_idx() {
        Some(i) => i,
        None => 0,
    };
    match &app.status_message {
        Some(m) => owned(m.as_str()),
        None => if idx < app.entries.len() {
            let e = &app.entries[idx];
            assert(app@.entries[idx as int] == e@);
            let t = concat2("📍 Target: ", e.short_hash().as_str());
            let t = concat2(t.as_str(), " - ");
            let t = concat2(t.as_str(), e.message.as_str());
            concat2(t.as_str(), " | Enter hard | s soft | c checkout | y copy | / search | ? help")
        } else {
            owned("No entries found")
        },
    }
}

/// How many entries a search keeps, as the footer shows it.
pub fn match_count_text(count: usize) -> (r: String)
    ensures
        r@ == "("@ + nat_decimal(count as nat) + " matches)"@,
{
    let t = concat2("(", nat_string(count as u64).as_str());
    concat2(t.as_str(), " matches)")
}

/// The footer while a search filter is applied.
pub fn filtered_footer(app: &App) -> (r: String)
    ensures
        r@ == "🔍 Filtered: "@ + app@.search_query + " ("@ + nat_decimal(
            app@.filtered_entries.len(),
        ) + " matches) | / edit | Esc clear | ? help"@,
{
    let t = concat2("🔍 Filtered: ", app.search_query.as_str());
    let t = concat2(t.as_str(), " (");
    let t = concat2(t.as_str(), nat_string(app.filtered_entries.len() as u64).as_str());
    concat2(t.as_str(), " matches) | / edit | Esc clear | ? help")
}

} // verus!
