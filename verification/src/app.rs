//! State of the interactive timeline and how each key changes it: selection,
//! search, diff preview, confirmation before a restore, help.
use vstd::prelude::*;
use crate::git::{
    EntryView, GitEntry, OutcomeView, RestoreMode, RestoreOutcome, entries_view, opt_text,
    short_form,
};
use crate::search::{filter_entries, search_results};
use crate::text::{concat2, lines, owned, chars_of, split_lines, push_char};

verus! {

// ---------------------------------------------------------------------------
// Data
// ---------------------------------------------------------------------------

/// The timeline's state.
pub struct App {
    /// The reflog entries, newest first.
    pub entries: Vec<GitEntry>,
    /// Position of the selection in `filtered_entries`.
    pub selected: Option<usize>,
    pub show_confirmation: bool,
    pub show_diff: bool,
    pub show_full_diff: bool,
    pub diff_content: String,
    pub full_diff_content: String,
    pub diff_scroll_offset: u16,
    pub diff_visible_height: u16,
    pub has_uncommitted_changes: bool,
    pub search_mode: bool,
    pub search_query: String,
    /// Positions in `entries` of the entries the search keeps.
    pub filtered_entries: Vec<usize>,
    pub search_active: bool,
    pub show_absolute_time: bool,
    pub last_key_was_g: bool,
    pub pending_restore_mode: Option<RestoreMode>,
    pub show_help: bool,
    pub status_message: Option<String>,
}

/// The mathematical content of the timeline's state.
pub struct AppView {
    pub entries: Seq<EntryView>,
    pub selected: Option<usize>,
    pub show_confirmation: bool,
    pub show_diff: bool,
    pub show_full_diff: bool,
    pub diff_content: Seq<char>,
    pub full_diff_content: Seq<char>,
    pub diff_scroll_offset: u16,
    pub diff_visible_height: u16,
    pub has_uncommitted_changes: bool,
    pub search_mode: bool,
    pub search_query: Seq<char>,
    pub filtered_entries: Seq<usize>,
    pub search_active: bool,
    pub show_absolute_time: bool,
    pub last_key_was_g: bool,
    pub pending_restore_mode: Option<RestoreMode>,
    pub show_help: bool,
    pub status_message: Option<Seq<char>>,
}

impl View for App {
    type V = AppView;

    open spec fn view(&self) -> AppView {
        AppView {
            entries: entries_view(self.entries@),
            selected: self.selected,
            show_confirmation: self.show_confirmation,
            show_diff: self.show_diff,
            show_full_diff: self.show_full_diff,
            diff_content: self.diff_content@,
            full_diff_content: self.full_diff_content@,
            diff_scroll_offset: self.diff_scroll_offset,
            diff_visible_height: self.diff_visible_height,
            has_uncommitted_changes: self.has_uncommitted_changes,
            search_mode: self.search_mode,
            search_query: self.search_query@,
            filtered_entries: self.filtered_entries@,
            search_active: self.search_active,
            show_absolute_time: self.show_absolute_time,
            last_key_was_g: self.last_key_was_g,
            pending_restore_mode: self.pending_restore_mode,
            show_help: self.show_help,
            status_message: opt_text(self.status_message),
        }
    }
}

/// A key of the keyboard, as far as the timeline tells keys apart.
#[derive(Clone, Copy, Debug, PartialEq, Eq, Structural)]
pub enum Key {
    Char(char),
    Esc,
    Enter,
    Backspace,
    Up,
    Down,
    Home,
    End,
    PageUp,
    PageDown,
    Other,
}

/// One key event: the key, whether Shift was held, and whether it is a
/// press (rather than a release or a repeat).
#[derive(Clone, Copy, Debug, PartialEq, Eq, Structural)]
pub struct KeyInput {
    pub code: Key,
    pub shift: bool,
    pub press: bool,
}

/// What the timeline asks of its surroundings after a key.
#[derive(Clone, Debug)]
pub enum KeyAction {
    /// Nothing beyond the new state.
    Nothing,
    /// Leave the timeline without restoring.
    Quit,
    /// Load the diff summary (`stat`) and/or the full diff (`full`) of `HEAD`
    /// against commit `hash` into the preview.
    LoadDiff { hash: String, stat: bool, full: bool },
    /// Copy `hash` to the clipboard, then report with `finish_copy`.
    CopyHash(String),
    /// Restore entry `entry` (commit `hash`) in `mode`, then report with
    /// `finish_restore`.
    Restore { entry: usize, hash: String, mode: RestoreMode },
}

/// The mathematical content of a `KeyAction`.
pub enum ActionView {
    Nothing,
    Quit,
    LoadDiff { hash: Seq<char>, stat: bool, full: bool },
    CopyHash(Seq<char>),
    Restore { entry: usize, hash: Seq<char>, mode: RestoreMode },
}

impl View for KeyAction {
    type V = ActionView;

    open spec fn view(&self) -> ActionView {
        match self {
            KeyAction::Nothing => ActionView::Nothing,
            KeyAction::Quit => ActionView::Quit,
            KeyAction::LoadDiff { hash, stat, full } => ActionView::LoadDiff {
                hash: hash@,
                stat: *stat,
                full: *full,
            },
            KeyAction::CopyHash(h) => ActionView::CopyHash(h@),
            KeyAction::Restore { entry, hash, mode } => ActionView::Restore {
                entry: *entry,
                hash: hash@,
                mode: *mode,
            },
        }
    }
}

/// What a completed restore reports when the timeline closes.
#[derive(Clone, Debug)]
pub struct RestoreSummary {
    /// The restored commit's abbreviated hash.
    pub hash: String,
    /// The restored entry's message.
    pub message: String,
    pub mode: RestoreMode,
    pub backup_ref: Option<String>,
}

// ---------------------------------------------------------------------------
// Specifications of the operations
// ---------------------------------------------------------------------------

/// The positions `0..n`.
pub open spec fn all_positions(n: nat) -> Seq<usize> {
    Seq::new(n, |i: int| i as usize)
}

/// The timeline right after loading `entries`.
pub open spec fn initial_view(entries: Seq<EntryView>, has_uncommitted_changes: bool) -> AppView {
    AppView {
        entries,
        selected: if entries.len() > 0 {
            Some(0)
        } else {
            None
        },
        show_confirmation: false,
        show_diff: false,
        show_full_diff: false,
        diff_content: seq![],
        full_diff_content: seq![],
        diff_scroll_offset: 0,
        diff_visible_height: 10,
        has_uncommitted_changes,
        search_mode: false,
        search_query: seq![],
        filtered_entries: all_positions(entries.len()),
        search_active: false,
        show_absolute_time: false,
        last_key_was_g: false,
        pending_restore_mode: None,
        show_help: false,
        status_message: None,
    }
}

/// The position in `entries` of the selected entry, if the selection points
/// into the filtered list.
pub open spec fn selected_idx(a: AppView) -> Option<usize> {
    match a.selected {
        Some(s) => if s < a.filtered_entries.len() {
            Some(a.filtered_entries[s as int])
        } else {
            None
        },
        None => None,
    }
}

/// The selected entry, if there is one.
pub open spec fn selected_entry_view(a: AppView) -> Option<EntryView> {
    match selected_idx(a) {
        Some(i) => if i < a.entries.len() {
            Some(a.entries[i as int])
        } else {
            None
        },
        None => None,
    }
}

/// The selection after the filtered list changed to `len` entries: none for
/// an empty list, clamped to the last entry, or the first entry when there
/// was none.
pub open spec fn reselect(selected: Option<usize>, len: nat) -> Option<usize> {
    if len == 0 {
        None
    } else {
        match selected {
            Some(s) => if s >= len {
                Some((len - 1) as usize)
            } else {
                Some(s)
            },
            None => Some(0),
        }
    }
}

/// Re-running the search after its text changed.
pub open spec fn update_filter_spec(a: AppView) -> AppView {
    let f = search_results(a.entries, a.search_query);
    AppView { filtered_entries: f, selected: reselect(a.selected, f.len()), ..a }
}

/// The status line cleared.
pub open spec fn clear_status_spec(a: AppView) -> AppView {
    AppView { status_message: None, ..a }
}

/// Leaving an active search: every entry listed again, the first selected.
pub open spec fn clear_filter_spec(a: AppView) -> AppView {
    AppView {
        search_query: seq![],
        search_active: false,
        search_mode: false,
        status_message: None,
        filtered_entries: all_positions(a.entries.len()),
        selected: if a.entries.len() > 0 {
            Some(0)
        } else {
            a.selected
        },
        ..a
    }
}

/// The preview after the selection may have changed: scrolled to the top
/// when an entry is selected.
pub open spec fn refresh_spec(a: AppView) -> AppView {
    if selected_entry_view(a) is Some {
        AppView { diff_scroll_offset: 0, ..a }
    } else {
        a
    }
}

/// The diffs to load after the selection may have changed: those of the
/// panels that are on, for the selected entry.
pub open spec fn refresh_action(a: AppView) -> ActionView {
    match selected_entry_view(a) {
        Some(e) => if a.show_diff || a.show_full_diff {
            ActionView::LoadDiff { hash: e.hash, stat: a.show_diff, full: a.show_full_diff }
        } else {
            ActionView::Nothing
        },
        None => ActionView::Nothing,
    }
}

/// One step down the list, clamped at the bottom.
pub open spec fn next_selection(selected: Option<usize>, len: nat) -> Option<usize> {
    match selected {
        Some(i) => if i >= len - 1 {
            Some(i)
        } else {
            Some((i + 1) as usize)
        },
        None => Some(0),
    }
}

/// One step up the list, clamped at the top.
pub open spec fn previous_selection(selected: Option<usize>) -> Option<usize> {
    match selected {
        Some(i) => if i == 0 {
            Some(0)
        } else {
            Some((i - 1) as usize)
        },
        None => Some(0),
    }
}

/// Selecting position `s`, then clearing the status and refreshing.
pub open spec fn select_spec(a: AppView, s: Option<usize>) -> AppView {
    refresh_spec(clear_status_spec(AppView { selected: s, ..a }))
}

/// Moving down (nothing happens on an empty list).
pub open spec fn next_spec(a: AppView) -> (AppView, ActionView) {
    if a.filtered_entries.len() == 0 {
        (a, ActionView::Nothing)
    } else {
        let b = select_spec(a, next_selection(a.selected, a.filtered_entries.len()));
        (b, refresh_action(b))
    }
}

/// Moving up (nothing happens on an empty list).
pub open spec fn previous_spec(a: AppView) -> (AppView, ActionView) {
    if a.filtered_entries.len() == 0 {
        (a, ActionView::Nothing)
    } else {
        let b = select_spec(a, previous_selection(a.selected));
        (b, refresh_action(b))
    }
}

/// Showing or hiding the diff panel; showing it switches to the summary
/// and loads it.
pub open spec fn toggle_diff_spec(a: AppView) -> (AppView, ActionView) {
    let b = AppView { status_message: None, show_diff: !a.show_diff, ..a };
    let c = if b.show_diff {
        AppView { show_full_diff: false, ..b }
    } else {
        b
    };
    let act = match selected_entry_view(c) {
        Some(e) => if c.show_diff {
            ActionView::LoadDiff { hash: e.hash, stat: true, full: false }
        } else {
            ActionView::Nothing
        },
        None => ActionView::Nothing,
    };
    (AppView { diff_scroll_offset: 0, ..c }, act)
}

/// Switching the shown diff panel between summary and full diff; turning
/// the full diff on loads it.
pub open spec fn toggle_diff_mode_spec(a: AppView) -> (AppView, ActionView) {
    if !a.show_diff {
        (a, ActionView::Nothing)
    } else {
        let b = AppView { status_message: None, show_full_diff: !a.show_full_diff, ..a };
        let act = match selected_entry_view(b) {
            Some(e) => if b.show_full_diff {
                ActionView::LoadDiff { hash: e.hash, stat: false, full: true }
            } else {
                ActionView::Nothing
            },
            None => ActionView::Nothing,
        };
        (AppView { diff_scroll_offset: 0, ..b }, act)
    }
}

/// The diff text the panel shows.
pub open spec fn active_diff(a: AppView) -> Seq<char> {
    if a.show_full_diff {
        a.full_diff_content
    } else {
        a.diff_content
    }
}

/// The farthest the diff panel scrolls: the line count (as a `u16`, that is
/// modulo 65536) less the visible height, not below zero.
pub open spec fn max_scroll(a: AppView) -> int {
    let count = lines(active_diff(a)).len() as int % 65536;
    if count > a.diff_visible_height {
        count - a.diff_visible_height
    } else {
        0
    }
}

/// Scrolling the diff one line down, not past its end.
pub open spec fn scroll_down_spec(a: AppView) -> AppView {
    let next = a.diff_scroll_offset + 1;
    AppView {
        diff_scroll_offset: (if next < max_scroll(a) {
            next
        } else {
            max_scroll(a)
        }) as u16,
        ..a
    }
}

/// Scrolling the diff one line up, not above its start.
pub open spec fn scroll_up_spec(a: AppView) -> AppView {
    AppView {
        diff_scroll_offset: (if a.diff_scroll_offset > 0 {
            a.diff_scroll_offset - 1
        } else {
            0
        }) as u16,
        ..a
    }
}

/// Asking to confirm a restore in `mode`.
pub open spec fn confirm_spec(a: AppView, mode: RestoreMode) -> AppView {
    AppView { pending_restore_mode: Some(mode), show_confirmation: true, status_message: None, ..a }
}

/// Declining the confirmation.
pub open spec fn cancel_spec(a: AppView) -> AppView {
    AppView { show_confirmation: false, pending_restore_mode: None, ..a }
}

/// The restore a confirmation starts: the selected entry in the pending
/// mode (a hard reset when none is pending).
pub open spec fn restore_action(a: AppView) -> ActionView {
    match selected_idx(a) {
        Some(i) => if i < a.entries.len() {
            ActionView::Restore {
                entry: i,
                hash: a.entries[i as int].hash,
                mode: match a.pending_restore_mode {
                    Some(m) => m,
                    None => RestoreMode::HardReset,
                },
            }
        } else {
            ActionView::Quit
        },
        None => ActionView::Quit,
    }
}

/// Copying the selected hash; with no entry selected the status line says so.
pub open spec fn copy_spec(a: AppView) -> (AppView, ActionView) {
    match selected_entry_view(a) {
        Some(e) => (a, ActionView::CopyHash(e.hash)),
        None => (
            AppView { status_message: Some("No commit selected to copy."@), ..a },
            ActionView::Nothing,
        ),
    }
}

/// Going to position `s` of the list (if the list is not empty), with the
/// diffs to load.
pub open spec fn jump_spec(a: AppView, s: usize) -> (AppView, ActionView) {
    let b = select_spec(a, Some(s));
    (b, refresh_action(b))
}

/// A key in search mode: typing edits the search and re-filters at once,
/// Enter applies it, Esc cancels and clears it.
pub open spec fn search_key_spec(a: AppView, code: Key) -> (AppView, ActionView) {
    match code {
        Key::Char('?') => (AppView { show_help: true, ..a }, ActionView::Nothing),
        Key::Esc => {
            let b = update_filter_spec(
                AppView { search_mode: false, search_query: seq![], search_active: false, ..a },
            );
            let c = if b.filtered_entries.len() > 0 {
                AppView { selected: Some(0), ..b }
            } else {
                b
            };
            (refresh_spec(c), refresh_action(c))
        },
        Key::Enter => (
            AppView { search_mode: false, search_active: a.search_query.len() > 0, ..a },
            ActionView::Nothing,
        ),
        Key::Backspace => {
            let q = if a.search_query.len() > 0 {
                a.search_query.drop_last()
            } else {
                a.search_query
            };
            let b = update_filter_spec(AppView { search_query: q, ..a });
            (refresh_spec(b), refresh_action(b))
        },
        Key::Char(c) => {
            let b = update_filter_spec(AppView { search_query: a.search_query.push(c), ..a });
            (refresh_spec(b), refresh_action(b))
        },
        _ => (a, ActionView::Nothing),
    }
}

/// A key while a restore waits for confirmation: `y` restores, `n` or Esc
/// declines, `?` opens help.
pub open spec fn confirm_key_spec(a: AppView, code: Key) -> (AppView, ActionView) {
    match code {
        Key::Char('?') => (AppView { show_help: true, ..a }, ActionView::Nothing),
        Key::Char('y') | Key::Char('Y') => (a, restore_action(a)),
        Key::Char('n') | Key::Char('N') | Key::Esc => (cancel_spec(a), ActionView::Nothing),
        _ => (a, ActionView::Nothing),
    }
}

/// The selection a page down moves to.
pub open spec fn page_down_target(a: AppView) -> usize {
    let current = match a.selected {
        Some(s) => s as int,
        None => 0,
    };
    let last = a.filtered_entries.len() - 1;
    (if current + 10 < last {
        current + 10
    } else {
        last
    }) as usize
}

/// The selection a page up moves to.
pub open spec fn page_up_target(a: AppView) -> usize {
    let current = match a.selected {
        Some(s) => s as int,
        None => 0,
    };
    (if current >= 10 {
        current - 10
    } else {
        0
    }) as usize
}

/// A key on the timeline itself, before the pending `g` of `gg` is
/// forgotten.
pub open spec fn normal_key_spec(a: AppView, k: KeyInput) -> (AppView, ActionView) {
    let nonempty = a.filtered_entries.len() > 0;
    let last = (a.filtered_entries.len() - 1) as usize;
    let selectable = selected_idx(a) is Some;
    match k.code {
        Key::Char('q') => (a, ActionView::Quit),
        Key::Esc => if a.search_active {
            let b = clear_filter_spec(a);
            (refresh_spec(b), refresh_action(b))
        } else {
            (a, ActionView::Quit)
        },
        Key::Char('/') => (AppView { search_mode: true, status_message: None, ..a }, ActionView::Nothing),
        Key::Char('?') => (AppView { show_help: true, ..a }, ActionView::Nothing),
        Key::Down | Key::Char('j') => if a.show_diff && k.shift {
            (scroll_down_spec(a), ActionView::Nothing)
        } else {
            next_spec(a)
        },
        Key::Up | Key::Char('k') => if a.show_diff && k.shift {
            (scroll_up_spec(a), ActionView::Nothing)
        } else {
            previous_spec(a)
        },
        Key::Char('J') => if a.show_diff {
            (scroll_down_spec(a), ActionView::Nothing)
        } else {
            (a, ActionView::Nothing)
        },
        Key::Char('K') => if a.show_diff {
            (scroll_up_spec(a), ActionView::Nothing)
        } else {
            (a, ActionView::Nothing)
        },
        Key::Home => if nonempty {
            jump_spec(a, 0)
        } else {
            (a, ActionView::Nothing)
        },
        Key::End => if nonempty {
            jump_spec(a, last)
        } else {
            (a, ActionView::Nothing)
        },
        Key::Char('g') => if a.last_key_was_g && nonempty {
            let (b, act) = jump_spec(a, 0);
            (AppView { last_key_was_g: false, ..b }, act)
        } else {
            (AppView { last_key_was_g: true, ..a }, ActionView::Nothing)
        },
        Key::Char('G') => if nonempty {
            jump_spec(a, last)
        } else {
            (a, ActionView::Nothing)
        },
        Key::PageDown => if nonempty {
            jump_spec(a, page_down_target(a))
        } else {
            (a, ActionView::Nothing)
        },
        Key::PageUp => if nonempty {
            jump_spec(a, page_up_target(a))
        } else {
            (a, ActionView::Nothing)
        },
        Key::Char(' ') => toggle_diff_spec(a),
        Key::Char('d') => toggle_diff_mode_spec(a),
        Key::Char('t') => (
            AppView { status_message: None, show_absolute_time: !a.show_absolute_time, ..a },
            ActionView::Nothing,
        ),
        Key::Char('y') => copy_spec(a),
        Key::Enter => if selectable {
            (confirm_spec(a, RestoreMode::HardReset), ActionView::Nothing)
        } else {
            (a, ActionView::Nothing)
        },
        Key::Char('s') => if selectable {
            (confirm_spec(a, RestoreMode::SoftReset), ActionView::Nothing)
        } else {
            (a, ActionView::Nothing)
        },
        Key::Char('c') => if selectable {
            (confirm_spec(a, RestoreMode::Checkout), ActionView::Nothing)
        } else {
            (a, ActionView::Nothing)
        },
        _ => (a, ActionView::Nothing),
    }
}

/// How one key event changes the timeline and what it asks for. Only key
/// presses count. Help, then search mode, then a pending confirmation take
/// the key first; on the timeline every key but `g` forgets a pending `g`.
pub open spec fn key_spec(a: AppView, k: KeyInput) -> (AppView, ActionView) {
    if !k.press {
        (a, ActionView::Nothing)
    } else if a.show_help {
        if k.code == Key::Esc || k.code == Key::Char('?') || k.code == Key::Char('q') {
            (AppView { show_help: false, ..a }, ActionView::Nothing)
        } else {
            (a, ActionView::Nothing)
        }
    } else if a.search_mode {
        search_key_spec(a, k.code)
    } else if a.show_confirmation {
        confirm_key_spec(a, k.code)
    } else {
        let (b, act) = normal_key_spec(a, k);
        if k.code == Key::Char('g') || act is Quit {
            (b, act)
        } else {
            (AppView { last_key_was_g: false, ..b }, act)
        }
    }
}

// ---------------------------------------------------------------------------
// Executable operations
// ---------------------------------------------------------------------------

/// Removes the last character of a string (`String::pop`): `None` and no
/// change for an empty string.
#[verifier::external_body]
fn pop_char(s: &mut String) -> (r: Option<char>)
    ensures
        old(s)@.len() == 0 ==> r is None && final(s)@ == old(s)@,
        old(s)@.len() > 0 ==> r == Some(old(s)@.last()) && final(s)@ == old(s)@.drop_last(),
{
    s.pop()
}

/// The positions `0..n`.
fn positions(n: usize) -> (r: Vec<usize>)
    ensures
        r@ == all_positions(n as nat),
{
    let mut r: Vec<usize> = Vec::new();
    let mut i: usize = 0;
    while i < n
        invariant
            i <= n,
            r@ == all_positions(i as nat),
        decreases n - i,
    {
        r.push(i);
        assert(r@ =~= all_positions((i + 1) as nat));
        i += 1;
    }
    r
}

impl App {
    /// The timeline for freshly loaded entries: all listed, the first one
    /// selected, every panel closed.
    pub fn new(entries: Vec<GitEntry>, has_uncommitted_changes: bool) -> (r: App)
        ensures
            r@ == initial_view(entries_view(entries@), has_uncommitted_changes),
    {
        let n = entries.len();
        let selected = if n > 0 {
            Some(0)
        } else {
            None
        };
        App {
            entries,
            selected,
            show_confirmation: false,
            show_diff: false,
            show_full_diff: false,
            diff_content: String::new(),
            full_diff_content: String::new(),
            diff_scroll_offset: 0,
            diff_visible_height: 10,
            has_uncommitted_changes,
            search_mode: false,
            search_query: String::new(),
            filtered_entries: positions(n),
            search_active: false,
            show_absolute_time: false,
            last_key_was_g: false,
            pending_restore_mode: None,
            show_help: false,
            status_message: None,
        }
    }

    /// Position of the selection in the filtered list (the top when none).
    pub fn selected_index(&self) -> (r: usize)
        ensures
            r == match self.selected {
                Some(s) => s,
                None => 0,
            },
    {
        match self.selected {
            Some(s) => s,
            None => 0,
        }
    }

    /// Position in `entries` of the selected entry.
    pub fn selected_entry_idx(&self) -> (r: Option<usize>)
        ensures
            r == selected_idx(self@),
    {
        match self.selected {
            Some(s) => if s < self.filtered_entries.len() {
                Some(self.filtered_entries[s])
            } else {
                None
            },
            None => None,
        }
    }

    /// The selected entry.
    pub fn selected_entry(&self) -> (r: Option<&GitEntry>)
        ensures
            match r {
                Some(e) => selected_entry_view(self@) == Some(e@),
                None => selected_entry_view(self@) is None,
            },
    {
        match self.selected_entry_idx() {
            Some(i) => if i < self.entries.len() {
                Some(&self.entries[i])
            } else {
                None
            },
            None => None,
        }
    }

    /// Re-runs the search over the entries after its text changed, keeping
    /// the selection within the new list.
    pub fn update_filter(&mut self)
        ensures
            final(self)@ == update_filter_spec(old(self)@),
    {
        let f = filter_entries(&self.entries, self.search_query.as_str());
        let n = f.len();
        self.filtered_entries = f;
        if n == 0 {
            self.selected = None;
        } else {
            match self.selected {
                Some(s) => if s >= n {
                    self.selected = Some(n - 1);
                },
                None => {
                    self.selected = Some(0);
                },
            }
        }
    }

    /// Shows `message` in the status line.
    pub fn set_status_message(&mut self, message: String)
        ensures
            final(self)@ == (AppView { status_message: Some(message@), ..old(self)@ }),
    {
        self.status_message = Some(message);
    }

    /// Clears the status line.
    pub fn clear_status_message(&mut self)
        ensures
            final(self)@ == clear_status_spec(old(self)@),
    {
        self.status_message = None;
    }

    /// Leaves an active search: the text cleared, every entry listed, the
    /// first one selected.
    pub fn clear_filter(&mut self)
        ensures
            final(self)@ == clear_filter_spec(old(self)@),
    {
        self.search_query = String::new();
        self.search_active = false;
        self.search_mode = false;
        self.clear_status_message();
        self.filtered_entries = positions(self.entries.len());
        if self.entries.len() > 0 {
            self.selected = Some(0);
        }
    }

    /// After the selection may have changed: scrolls the preview to the top
    /// and asks for the diffs of the panels that are on.
    pub fn update_diff_if_visible(&mut self) -> (r: KeyAction)
        ensures
            final(self)@ == refresh_spec(old(self)@),
            r@ == refresh_action(old(self)@),
    {
        match self.selected_entry_idx() {
            Some(i) => if i < self.entries.len() {
                let stat = self.show_diff;
                let full = self.show_full_diff;
                let hash = owned(self.entries[i].hash.as_str());
                self.diff_scroll_offset = 0;
                if stat || full {
                    KeyAction::LoadDiff { hash, stat, full }
                } else {
                    KeyAction::Nothing
                }
            } else {
                KeyAction::Nothing
            },
            None => KeyAction::Nothing,
        }
    }

    /// Moves the selection one entry down, staying on the last one.
    pub fn next(&mut self) -> (r: KeyAction)
        ensures
            (final(self)@, r@) == next_spec(old(self)@),
    {
        if self.filtered_entries.len() == 0 {
            return KeyAction::Nothing;
        }
        let i = match self.selected {
            Some(i) => if i >= self.filtered_entries.len() - 1 {
                i
            } else {
                i + 1
            },
            None => 0,
        };
        assert(next_selection(self@.selected, self@.filtered_entries.len()) == Some(i));
        self.jump_to(i)
    }

    /// Moves the selection one entry up, staying on the first one.
    pub fn previous(&mut self) -> (r: KeyAction)
        ensures
            (final(self)@, r@) == previous_spec(old(self)@),
    {
        if self.filtered_entries.len() == 0 {
            return KeyAction::Nothing;
        }
        let i = match self.selected {
            Some(i) => if i == 0 {
                0
            } else {
                i - 1
            },
            None => 0,
        };
        assert(previous_selection(self@.selected) == Some(i));
        self.jump_to(i)
    }

    /// Selects position `s` of the filtered list.
    fn jump_to(&mut self, s: usize) -> (r: KeyAction)
        ensures
            (final(self)@, r@) == jump_spec(old(self)@, s),
    {
        self.selected = Some(s);
        self.clear_status_message();
        self.update_diff_if_visible()
    }

    /// Shows or hides the diff panel.
    pub fn toggle_diff(&mut self) -> (r: KeyAction)
        ensures
            (final(self)@, r@) == toggle_diff_spec(old(self)@),
    {
        self.clear_status_message();
        self.show_diff = !self.show_diff;
        let mut act = KeyAction::Nothing;
        if self.show_diff {
            self.show_full_diff = false;
            match self.selected_entry() {
                Some(e) => {
                    act = KeyAction::LoadDiff { hash: owned(e.hash.as_str()), stat: true, full: false };
                },
                None => {},
            }
        }
        self.diff_scroll_offset = 0;
        act
    }

    /// Switches the diff panel between summary and full diff.
    pub fn toggle_diff_mode(&mut self) -> (r: KeyAction)
        ensures
            (final(self)@, r@) == toggle_diff_mode_spec(old(self)@),
    {
        if !self.show_diff {
            return KeyAction::Nothing;
        }
        self.clear_status_message();
        self.show_full_diff = !self.show_full_diff;
        let mut act = KeyAction::Nothing;
        if self.show_full_diff {
            match self.selected_entry() {
                Some(e) => {
                    act = KeyAction::LoadDiff { hash: owned(e.hash.as_str()), stat: false, full: true };
                },
                None => {},
            }
        }
        self.diff_scroll_offset = 0;
        act
    }

    /// Scrolls the diff one line up.
    pub fn scroll_diff_up(&mut self)
        ensures
            final(self)@ == scroll_up_spec(old(self)@),
    {
        if self.diff_scroll_offset > 0 {
            self.diff_scroll_offset = self.diff_scroll_offset - 1;
        }
    }

    /// The diff text the panel shows.
    pub fn active_diff_content(&self) -> (r: &str)
        ensures
            r@ == active_diff(self@),
    {
        if self.show_full_diff {
            self.full_diff_content.as_str()
        } else {
            self.diff_content.as_str()
        }
    }

    /// Scrolls the diff one line down, not past its last screenful.
    pub fn scroll_diff_down(&mut self)
        ensures
            final(self)@ == scroll_down_spec(old(self)@),
    {
        let text = chars_of(self.active_diff_content());
        let count = split_lines(&text).len();
        proof {
            assert(lines(active_diff(self@)).len() == count);
        }
        let count16: u16 = (count % 65536) as u16;
        let max_scroll: u16 = if count16 > self.diff_visible_height {
            count16 - self.diff_visible_height
        } else {
            0
        };
        let next: u32 = self.diff_scroll_offset as u32 + 1;
        self.diff_scroll_offset = if next < max_scroll as u32 {
            next as u16
        } else {
            max_scroll
        };
    }

    /// Asks to confirm a restore of the selected entry in `mode`.
    pub fn show_confirmation_dialog(&mut self, mode: RestoreMode)
        ensures
            final(self)@ == confirm_spec(old(self)@, mode),
    {
        self.pending_restore_mode = Some(mode);
        self.show_confirmation = true;
        self.clear_status_message();
    }

    /// Declines the pending restore.
    pub fn cancel_confirmation(&mut self)
        ensures
            final(self)@ == cancel_spec(old(self)@),
    {
        self.show_confirmation = false;
        self.pending_restore_mode = None;
    }

    /// The restore a confirmation starts: the selected entry in the pending
    /// mode, or leaving the timeline when no entry is selected.
    pub fn restore_selected(&self) -> (r: KeyAction)
        ensures
            r@ == restore_action(self@),
    {
        match self.selected_entry_idx() {
            Some(i) => if i < self.entries.len() {
                let mode = match self.pending_restore_mode {
                    Some(m) => m,
                    None => RestoreMode::HardReset,
                };
                KeyAction::Restore { entry: i, hash: owned(self.entries[i].hash.as_str()), mode }
            } else {
                KeyAction::Quit
            },
            None => KeyAction::Quit,
        }
    }

    /// Records a completed restore of entry `entry`: the pending mode is
    /// cleared, and the summary names the entry's abbreviated hash and
    /// message with what the restore did.
    pub fn finish_restore(&mut self, entry: usize, outcome: RestoreOutcome) -> (r: Option<RestoreSummary>)
        ensures
            final(self)@ == (AppView { pending_restore_mode: None, ..old(self)@ }),
            entry < old(self).entries.len() <==> r is Some,
            r matches Some(s) ==> s.hash@ == short_form(old(self)@.entries[entry as int].hash)
                && s.message@ == old(self)@.entries[entry as int].message && s.mode == outcome.mode
                && opt_text(s.backup_ref) == opt_text(outcome.backup_ref),
    {
        self.pending_restore_mode = None;
        if entry < self.entries.len() {
            assert(self@.entries[entry as int] == self.entries@[entry as int]@);
            Some(
                RestoreSummary {
                    hash: self.entries[entry].short_hash(),
                    message: owned(self.entries[entry].message.as_str()),
                    mode: outcome.mode,
                    backup_ref: outcome.backup_ref,
                },
            )
        } else {
            None
        }
    }

    /// Copies the selected hash, or says in the status line that nothing is
    /// selected.
    pub fn copy_selected_hash(&mut self) -> (r: KeyAction)
        ensures
            (final(self)@, r@) == copy_spec(old(self)@),
    {
        match self.selected_entry() {
            Some(e) => KeyAction::CopyHash(owned(e.hash.as_str())),
            None => {
                self.set_status_message(owned("No commit selected to copy."));
                KeyAction::Nothing
            },
        }
    }

    /// Reports in the status line how copying `hash` went.
    pub fn finish_copy(&mut self, hash: &str, result: &Result<(), String>)
        ensures
            final(self)@ == (AppView {
                status_message: Some(
                    match result {
                        Ok(()) => "Copied "@ + short_form(hash@) + " to clipboard."@,
                        Err(e) => "Could not copy "@ + short_form(hash@) + ": "@ + e@,
                    },
                ),
                ..old(self)@
            }),
    {
        let short = {
            let v = chars_of(hash);
            let n = if v.len() <= 7 {
                v.len()
            } else {
                7
            };
            let s = crate::text::string_from_range(&v, 0, n);
            assert(v@.subrange(0, n as int) =~= short_form(hash@));
            s
        };
        let message = match result {
            Ok(()) => {
                let m = concat2("Copied ", short.as_str());
                concat2(m.as_str(), " to clipboard.")
            },
            Err(e) => {
                let m = concat2("Could not copy ", short.as_str());
                let m = concat2(m.as_str(), ": ");
                concat2(m.as_str(), e.as_str())
            },
        };
        self.set_status_message(message);
    }
}

impl App {
    /// A key in search mode.
    fn handle_search_key(&mut self, code: Key) -> (r: KeyAction)
        ensures
            (final(self)@, r@) == search_key_spec(old(self)@, code),
    {
        match code {
            Key::Char('?') => {
                self.show_help = true;
                KeyAction::Nothing
            },
            Key::Esc => {
                self.search_mode = false;
                self.search_query = String::new();
                self.search_active = false;
                self.update_filter();
                if self.filtered_entries.len() > 0 {
                    self.selected = Some(0);
                }
                self.update_diff_if_visible()
            },
            Key::Enter => {
                self.search_mode = false;
                self.search_active = !self.search_query.as_str().is_empty();
                KeyAction::Nothing
            },
            Key::Backspace => {
                let _ = pop_char(&mut self.search_query);
                self.update_filter();
                self.update_diff_if_visible()
            },
            Key::Char(c) => {
                push_char(&mut self.search_query, c);
                self.update_filter();
                self.update_diff_if_visible()
            },
            _ => KeyAction::Nothing,
        }
    }
}

impl App {
    /// A key while a restore waits for confirmation.
    fn handle_confirm_key(&mut self, code: Key) -> (r: KeyAction)
        ensures
            (final(self)@, r@) == confirm_key_spec(old(self)@, code),
    {
        match code {
            Key::Char('?') => {
                self.show_help = true;
                KeyAction::Nothing
            },
            Key::Char('y') | Key::Char('Y') => self.restore_selected(),
            Key::Char('n') | Key::Char('N') | Key::Esc => {
                self.cancel_confirmation();
                KeyAction::Nothing
            },
            _ => KeyAction::Nothing,
        }
    }

    /// A key on the timeline itself, before the pending `g` is forgotten.
    #[verifier::rlimit(60)]
    fn handle_normal_key(&mut self, key: KeyInput) -> (r: KeyAction)
        ensures
            (final(self)@, r@) == normal_key_spec(old(self)@, key),
    {
        let n = self.filtered_entries.len();
        let nonempty = n > 0;
        let selectable = self.selected_entry_idx().is_some();
        match key.code {
            Key::Char('q') => KeyAction::Quit,
            Key::Esc => if self.search_active {
                self.clear_filter();
                self.update_diff_if_visible()
            } else {
                KeyAction::Quit
            },
            Key::Char('/') => {
                self.search_mode = true;
                self.clear_status_message();
                KeyAction::Nothing
            },
            Key::Char('?') => {
                self.show_help = true;
                KeyAction::Nothing
            },
            Key::Down | Key::Char('j') => if self.show_diff && key.shift {
                self.scroll_diff_down();
                KeyAction::Nothing
            } else {
                self.next()
            },
            Key::Up | Key::Char('k') => if self.show_diff && key.shift {
                self.scroll_diff_up();
                KeyAction::Nothing
            } else {
                self.previous()
            },
            Key::Char('J') => {
                if self.show_diff {
                    self.scroll_diff_down();
                }
                KeyAction::Nothing
            },
            Key::Char('K') => {
                if self.show_diff {
                    self.scroll_diff_up();
                }
                KeyAction::Nothing
            },
            Key::Home => if nonempty {
                self.jump_to(0)
            } else {
                KeyAction::Nothing
            },
            Key::End => if nonempty {
                self.jump_to(n - 1)
            } else {
                KeyAction::Nothing
            },
            Key::Char('g') => if self.last_key_was_g && nonempty {
                let act = self.jump_to(0);
                self.last_key_was_g = false;
                act
            } else {
                self.last_key_was_g = true;
                KeyAction::Nothing
            },
            Key::Char('G') => if nonempty {
                self.jump_to(n - 1)
            } else {
                KeyAction::Nothing
            },
            Key::PageDown => if nonempty {
                let current = self.selected_index();
                let last = n - 1;
                let target = if current >= last || last - current <= 10 {
                    last
                } else {
                    current + 10
                };
                assert(target == page_down_target(self@));
                self.jump_to(target)
            } else {
                KeyAction::Nothing
            },
            Key::PageUp => if nonempty {
                let current = self.selected_index();
                let target = if current >= 10 {
                    current - 10
                } else {
                    0
                };
                assert(target == page_up_target(self@));
                self.jump_to(target)
            } else {
                KeyAction::Nothing
            },
            Key::Char(' ') => self.toggle_diff(),
            Key::Char('d') => self.toggle_diff_mode(),
            Key::Char('t') => {
                self.clear_status_message();
                self.show_absolute_time = !self.show_absolute_time;
                KeyAction::Nothing
            },
            Key::Char('y') => self.copy_selected_hash(),
            Key::Enter => {
                if selectable {
                    self.show_confirmation_dialog(RestoreMode::HardReset);
                }
                KeyAction::Nothing
            },
            Key::Char('s') => {
                if selectable {
                    self.show_confirmation_dialog(RestoreMode::SoftReset);
                }
                KeyAction::Nothing
            },
            Key::Char('c') => {
                if selectable {
                    self.show_confirmation_dialog(RestoreMode::Checkout);
                }
                KeyAction::Nothing
            },
            _ => KeyAction::Nothing,
        }
    }

    /// Handles one key event (see `key_spec`): the state changes in place
    /// and the result says what the surroundings are to do.
    #[verifier::rlimit(60)]
    pub fn handle_key(&mut self, key: KeyInput) -> (r: KeyAction)
        ensures
            (final(self)@, r@) == key_spec(old(self)@, key),
    {
        if !key.press {
            return KeyAction::Nothing;
        }
        if self.show_help {
            if key.code == Key::Esc || key.code == Key::Char('?') || key.code == Key::Char('q') {
                self.show_help = false;
            }
            return KeyAction::Nothing;
        }
        if self.search_mode {
            return self.handle_search_key(key.code);
        }
        if self.show_confirmation {
            return self.handle_confirm_key(key.code);
        }
        let act = self.handle_normal_key(key);
        let quit = match act {
            KeyAction::Quit => true,
            _ => false,
        };
        if !(key.code == Key::Char('g') || quit) {
            self.last_key_was_g = false;
        }
        act
    }
}

// ---------------------------------------------------------------------------
// Laws
// ---------------------------------------------------------------------------

/// No restore runs without confirmation: a key asks for a restore only
/// when it is a `y` or `Y` pressed while a restore waits for confirmation
/// (no help or search open), and the restore is that of the selected entry
/// in the mode that was confirmed (a hard reset when none was recorded).
pub proof fn lemma_restore_only_when_confirmed(a: AppView, k: KeyInput)
    ensures
        key_spec(a, k).1 matches ActionView::Restore { entry, hash, mode } ==> {
            &&& k.press
            &&& !a.show_help && !a.search_mode && a.show_confirmation
            &&& (k.code == Key::Char('y') || k.code == Key::Char('Y'))
            &&& selected_idx(a) == Some(entry)
            &&& entry < a.entries.len()
            &&& hash == a.entries[entry as int].hash
            &&& mode == match a.pending_restore_mode {
                Some(m) => m,
                None => RestoreMode::HardReset,
            }
        },
{
    if k.press && !a.show_help {
        if a.search_mode {
            lemma_search_key_no_restore(a, k.code);
        } else if !a.show_confirmation {
            lemma_normal_key_no_restore(a, k);
        }
    }
}

proof fn lemma_search_key_no_restore(a: AppView, code: Key)
    ensures
        !(search_key_spec(a, code).1 is Restore),
{
}

proof fn lemma_normal_key_no_restore(a: AppView, k: KeyInput)
    ensures
        !(normal_key_spec(a, k).1 is Restore),
{
}

/// A confirmation opens only for a selected entry, from the timeline, with
/// Enter (hard reset), `s` (soft reset) or `c` (checkout).
pub proof fn lemma_confirmation_opens_for_selection(a: AppView, k: KeyInput)
    requires
        !a.show_confirmation,
    ensures
        key_spec(a, k).0.show_confirmation ==> {
            &&& k.press && !a.show_help && !a.search_mode
            &&& selected_idx(a) is Some
            &&& key_spec(a, k).0.pending_restore_mode == Some(
                match k.code {
                    Key::Enter => RestoreMode::HardReset,
                    Key::Char('s') => RestoreMode::SoftReset,
                    _ => RestoreMode::Checkout,
                },
            )
            &&& (k.code == Key::Enter || k.code == Key::Char('s') || k.code == Key::Char('c'))
        },
{
}

/// Moving through the list clamps at both ends instead of wrapping around:
/// from a selection inside the list, down goes one further or stays on the
/// last entry, up goes one back or stays on the first, and the selection
/// stays inside the list.
pub proof fn lemma_navigation_clamps(a: AppView, s: usize)
    requires
        a.selected == Some(s),
        s < a.filtered_entries.len(),
    ensures
        next_spec(a).0.selected == Some(
            if s + 1 < a.filtered_entries.len() {
                (s + 1) as usize
            } else {
                s
            },
        ),
        previous_spec(a).0.selected == Some(
            if s > 0 {
                (s - 1) as usize
            } else {
                0usize
            },
        ),
{
}

/// The timeline's consistency: the filtered list holds positions of
/// entries, and a selection exists exactly when the filtered list is not
/// empty, pointing into it.
pub open spec fn app_wf(a: AppView) -> bool {
    &&& a.entries.len() <= usize::MAX
    &&& forall|i: int| 0 <= i < a.filtered_entries.len() ==> #[trigger] a.filtered_entries[i] < a.entries.len()
    &&& (a.selected is None <==> a.filtered_entries.len() == 0)
    &&& a.selected matches Some(s) ==> s < a.filtered_entries.len()
}

/// A freshly loaded timeline is consistent, and in a consistent timeline an
/// entry is selected exactly when the filtered list is not empty.
pub proof fn lemma_initial_view_wf(entries: Seq<EntryView>, has_uncommitted_changes: bool, a: AppView)
    requires
        entries.len() <= usize::MAX,
    ensures
        app_wf(initial_view(entries, has_uncommitted_changes)),
        app_wf(a) ==> (selected_entry_view(a) is Some <==> a.filtered_entries.len() > 0),
{
}

proof fn lemma_update_filter_wf(a: AppView)
    requires
        a.entries.len() <= usize::MAX,
        a.selected matches Some(s) ==> s < a.filtered_entries.len() || a.filtered_entries.len() == 0,
    ensures
        app_wf(update_filter_spec(a)),
{
    crate::search::lemma_search_results_exact(
        a.entries,
        crate::search::query_tokens(a.search_query),
        a.entries.len() as int,
    );
}

proof fn lemma_search_key_keeps_wf(a: AppView, code: Key)
    requires
        app_wf(a),
    ensures
        app_wf(search_key_spec(a, code).0),
{
    match code {
        Key::Esc => {
            lemma_update_filter_wf(
                AppView { search_mode: false, search_query: seq![], search_active: false, ..a },
            );
        },
        Key::Backspace => {
            let q = if a.search_query.len() > 0 {
                a.search_query.drop_last()
            } else {
                a.search_query
            };
            lemma_update_filter_wf(AppView { search_query: q, ..a });
        },
        Key::Char(c) => {
            if c != '?' {
                lemma_update_filter_wf(AppView { search_query: a.search_query.push(c), ..a });
            }
        },
        _ => {},
    }
}

proof fn lemma_jump_keeps_wf(a: AppView, s: usize)
    requires
        app_wf(a),
        s < a.filtered_entries.len(),
    ensures
        app_wf(jump_spec(a, s).0),
{
}

proof fn lemma_normal_key_keeps_wf(a: AppView, k: KeyInput)
    requires
        app_wf(a),
    ensures
        app_wf(normal_key_spec(a, k).0),
{
    let n = a.filtered_entries.len();
    match k.code {
        Key::Esc => {
            if a.search_active {
                assert(app_wf(clear_filter_spec(a)));
            }
        },
        Key::Down | Key::Char('j') => {
            if !(a.show_diff && k.shift) && n > 0 {
                assert(app_wf(select_spec(a, next_selection(a.selected, n))));
            }
        },
        Key::Up | Key::Char('k') => {
            if !(a.show_diff && k.shift) && n > 0 {
                assert(app_wf(select_spec(a, previous_selection(a.selected))));
            }
        },
        Key::Home | Key::Char('g') => {
            if n > 0 {
                lemma_jump_keeps_wf(a, 0);
            }
        },
        Key::End | Key::Char('G') => {
            if n > 0 {
                lemma_jump_keeps_wf(a, (n - 1) as usize);
            }
        },
        Key::PageDown => {
            if n > 0 {
                lemma_jump_keeps_wf(a, page_down_target(a));
            }
        },
        Key::PageUp => {
            if n > 0 {
                lemma_jump_keeps_wf(a, page_up_target(a));
            }
        },
        _ => {},
    }
}

/// Every key keeps the timeline consistent: whatever is pressed, in any
/// mode, the filtered list keeps pointing at entries and the selection stays
/// inside it.
pub proof fn lemma_key_keeps_wf(a: AppView, k: KeyInput)
    requires
        app_wf(a),
    ensures
        app_wf(key_spec(a, k).0),
{
    if k.press && !a.show_help {
        if a.search_mode {
            lemma_search_key_keeps_wf(a, k.code);
        } else if !a.show_confirmation {
            lemma_normal_key_keeps_wf(a, k);
        }
    }
}

/// Moving to another entry scrolls the diff preview back to its top.
pub proof fn lemma_moving_resets_diff_scroll(a: AppView)
    requires
        app_wf(a),
        a.filtered_entries.len() > 0,
    ensures
        next_spec(a).0.diff_scroll_offset == 0,
        previous_spec(a).0.diff_scroll_offset == 0,
{
}

/// The diff preview never scrolls past its last screenful, nor above its
/// first line.
pub proof fn lemma_diff_scroll_bounded(a: AppView)
    requires
        a.diff_scroll_offset <= max_scroll(a),
    ensures
        scroll_down_spec(a).diff_scroll_offset <= max_scroll(a),
        scroll_up_spec(a).diff_scroll_offset <= a.diff_scroll_offset,
        scroll_down_spec(a).diff_scroll_offset >= a.diff_scroll_offset,
{
}

/// Esc on the timeline clears an active filter, and leaves the timeline when
/// no filter is active.
pub proof fn lemma_escape_clears_filter_or_quits(a: AppView, k: KeyInput)
    requires
        k.press,
        k.code == Key::Esc,
        !a.show_help,
        !a.search_mode,
        !a.show_confirmation,
    ensures
        a.search_active ==> key_spec(a, k).0.search_query.len() == 0 && !key_spec(a, k).0.search_active
            && key_spec(a, k).0.filtered_entries == all_positions(a.entries.len()),
        !a.search_active ==> key_spec(a, k).1 is Quit,
{
}

/// The timeline itself has the key: no help, search or confirmation is open.
pub open spec fn on_timeline(a: AppView) -> bool {
    !a.show_help && !a.search_mode && !a.show_confirmation
}

/// The key event of pressing `code` without Shift.
pub open spec fn press(code: Key) -> KeyInput {
    KeyInput { code, shift: false, press: true }
}

/// From selection `s` of a non-empty filtered list of `n` entries, PgDn
/// moves ten entries down but not past the last, PgUp ten up but not above
/// the first, Home and `G`/End to the ends; a plain Down or Up moves by one
/// within the list.
pub proof fn lemma_jump_keys_move_selection(a: AppView, s: usize)
    requires
        on_timeline(a),
        a.selected == Some(s),
        s < a.filtered_entries.len(),
    ensures
        key_spec(a, press(Key::PageDown)).0.selected == Some(
            (if s + 10 < a.filtered_entries.len() - 1 {
                s + 10
            } else {
                a.filtered_entries.len() - 1
            }) as usize,
        ),
        key_spec(a, press(Key::PageUp)).0.selected == Some(
            (if s >= 10 {
                s - 10
            } else {
                0
            }) as usize,
        ),
        key_spec(a, press(Key::Home)).0.selected == Some(0usize),
        key_spec(a, press(Key::End)).0.selected == Some((a.filtered_entries.len() - 1) as usize),
        key_spec(a, press(Key::Char('G'))).0.selected == Some((a.filtered_entries.len() - 1) as usize),
        key_spec(a, press(Key::Down)).0.selected == Some(
            (if s + 1 < a.filtered_entries.len() {
                s + 1
            } else {
                s as int
            }) as usize,
        ),
        key_spec(a, press(Key::Up)).0.selected == Some(
            (if s > 0 {
                s - 1
            } else {
                0
            }) as usize,
        ),
{
}

/// On the timeline, Space shows the diff panel when it is hidden and hides
/// it when it is shown; showing it starts on the summary, scrolled to the
/// top, and asks for the summary of the selected entry's commit.
pub proof fn lemma_space_toggles_diff_panel(a: AppView)
    requires
        on_timeline(a),
    ensures
        key_spec(a, press(Key::Char(' '))).0.show_diff == !a.show_diff,
        !a.show_diff ==> !key_spec(a, press(Key::Char(' '))).0.show_full_diff,
        key_spec(a, press(Key::Char(' '))).0.diff_scroll_offset == 0,
        !a.show_diff ==> match (a.selected, key_spec(a, press(Key::Char(' '))).1) {
            (Some(s), act) => s < a.filtered_entries.len() && a.filtered_entries[s as int]
                < a.entries.len() ==> act == ActionView::LoadDiff {
                hash: a.entries[a.filtered_entries[s as int] as int].hash,
                stat: true,
                full: false,
            },
            (None, act) => act == ActionView::Nothing,
        },
        a.show_diff ==> key_spec(a, press(Key::Char(' '))).1 == ActionView::Nothing,
        toggle_diff_spec(a).0.show_diff == !a.show_diff,
{
}

/// On the timeline, `y` asks to copy the hash of the selected entry, and
/// changes nothing but the pending `g`; with no entry selected it asks for
/// nothing and says so in the status line.
pub proof fn lemma_copy_takes_selected_hash(a: AppView, s: usize)
    requires
        on_timeline(a),
        a.selected == Some(s),
        s < a.filtered_entries.len(),
        a.filtered_entries[s as int] < a.entries.len(),
    ensures
        key_spec(a, press(Key::Char('y'))).1 == ActionView::CopyHash(
            a.entries[a.filtered_entries[s as int] as int].hash,
        ),
        key_spec(a, press(Key::Char('y'))).0 == (AppView { last_key_was_g: false, ..a }),
        copy_spec(a).1 == ActionView::CopyHash(a.entries[a.filtered_entries[s as int] as int].hash),
        copy_spec(a).0 == a,
{
}

/// On the timeline with an entry selected, Enter, `s` and `c` open the
/// confirmation of a hard reset, a soft reset and a checkout; `t` switches
/// between relative and absolute times; `?` opens help; `q` quits.
pub proof fn lemma_timeline_keys_act(a: AppView, s: usize)
    requires
        on_timeline(a),
        a.selected == Some(s),
        s < a.filtered_entries.len(),
    ensures
        key_spec(a, press(Key::Enter)).0.show_confirmation,
        key_spec(a, press(Key::Enter)).0.pending_restore_mode == Some(RestoreMode::HardReset),
        key_spec(a, press(Key::Char('s'))).0.show_confirmation,
        key_spec(a, press(Key::Char('s'))).0.pending_restore_mode == Some(RestoreMode::SoftReset),
        key_spec(a, press(Key::Char('c'))).0.show_confirmation,
        key_spec(a, press(Key::Char('c'))).0.pending_restore_mode == Some(RestoreMode::Checkout),
        key_spec(a, press(Key::Char('t'))).0.show_absolute_time == !a.show_absolute_time,
        key_spec(a, press(Key::Char('?'))).0.show_help,
        key_spec(a, press(Key::Char('q'))).1 == ActionView::Quit,
{
}

/// In search mode, a typed character (other than `?`) extends the search
/// text by that character and Backspace removes its last character.
pub proof fn lemma_search_typing_edits_query(a: AppView, c: char)
    requires
        !a.show_help,
        a.search_mode,
        c != '?',
    ensures
        key_spec(a, press(Key::Char(c))).0.search_query == a.search_query.push(c),
        a.search_query.len() > 0 ==> key_spec(a, press(Key::Backspace)).0.search_query
            == a.search_query.drop_last(),
{
}

} // verus!
