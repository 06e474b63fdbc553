//! Reflog entries, hard-reset backup refs, restore modes, and the git
//! commands of the reflog browser: which command runs for each operation and
//! what its output means.
use vstd::prelude::*;
use crate::text::{
    chars_of, concat2, decimal, decimal_string, has_prefix, strip_cr, is_blank, is_whitespace, lemma_trim_empty, trim, trim_string, is_hex_digit, is_hex_digit_char, lines, owned, parse_i64,
    parse_i64_chars, split_lines, nat_decimal, digits_value, all_digits, is_digit, find_char,
    lemma_find_char_is, digit_char, split_n, splitn, starts_with_chars, string_from_range,
};
use crate::timestamp::{
    Timestamp, valid_instant, MIN_SECS, MAX_SECS, format_relative_time, millis_in_range, relative_time, secs_in_range,
    NANOS_PER_SEC,
};

verus! {

// ---------------------------------------------------------------------------
// Data
// ---------------------------------------------------------------------------

/// One reflog entry.
#[derive(Clone, Debug)]
pub struct GitEntry {
    pub hash: String,
    pub message: String,
    pub timestamp: Timestamp,
    pub author: String,
    pub relative_time: String,
}

/// The mathematical content of a reflog entry.
pub struct EntryView {
    pub hash: Seq<char>,
    pub message: Seq<char>,
    pub timestamp: int,
    pub author: Seq<char>,
    pub relative_time: Seq<char>,
}

impl View for GitEntry {
    type V = EntryView;

    open spec fn view(&self) -> EntryView {
        EntryView {
            hash: self.hash@,
            message: self.message@,
            timestamp: self.timestamp@,
            author: self.author@,
            relative_time: self.relative_time@,
        }
    }
}

/// The views of a sequence of reflog entries.
pub open spec fn entries_view(v: Seq<GitEntry>) -> Seq<EntryView> {
    v.map_values(|e: GitEntry| e@)
}

/// A backup ref that a hard reset left under `refs/git-time-machine/backups/`.
#[derive(Clone, Debug)]
pub struct BackupRef {
    pub name: String,
    pub hash: String,
    pub subject: String,
    pub created_at: Option<Timestamp>,
    pub relative_time: String,
}

/// The mathematical content of a backup ref.
pub struct BackupView {
    pub name: Seq<char>,
    pub hash: Seq<char>,
    pub subject: Seq<char>,
    pub created_at: Option<int>,
    pub relative_time: Seq<char>,
}

/// The instant of an optional timestamp.
pub open spec fn opt_instant(t: Option<Timestamp>) -> Option<int> {
    match t {
        Some(t) => Some(t@),
        None => None,
    }
}

impl View for BackupRef {
    type V = BackupView;

    open spec fn view(&self) -> BackupView {
        BackupView {
            name: self.name@,
            hash: self.hash@,
            subject: self.subject@,
            created_at: opt_instant(self.created_at),
            relative_time: self.relative_time@,
        }
    }
}

/// The views of a sequence of backup refs.
pub open spec fn backups_view(v: Seq<BackupRef>) -> Seq<BackupView> {
    v.map_values(|b: BackupRef| b@)
}

/// How a restore moves the repository to a commit.
#[derive(Clone, Copy, Debug, PartialEq, Eq, Structural)]
pub enum RestoreMode {
    HardReset,
    SoftReset,
    Checkout,
}

/// What a completed restore did.
#[derive(Clone, Debug)]
pub struct RestoreOutcome {
    pub mode: RestoreMode,
    pub backup_ref: Option<String>,
}

/// Why a git operation of the library was refused or failed.
#[derive(Clone, Debug)]
pub enum GitError {
    /// The commit hash is empty or holds a character that is not a hex digit.
    InvalidCommitHash,
    /// `git rev-parse HEAD` failed before a hard reset; holds its stderr.
    ReadHeadFailed(String),
    /// `git update-ref` of the backup ref failed; holds its stderr.
    BackupRefFailed(String),
    /// The restore command itself failed; holds the mode and its stderr.
    RestoreFailed(RestoreMode, String),
}

/// What a finished git command handed back: whether it exited successfully,
/// and its standard output and standard error as text.
#[derive(Clone, Debug)]
pub struct GitOutput {
    pub success: bool,
    pub stdout: String,
    pub stderr: String,
}

/// Handle on one repository: the path of its top-level directory.
pub struct GitManager {
    repo_path: String,
}

impl View for GitManager {
    type V = Seq<char>;

    /// The path of the repository's top-level directory.
    closed spec fn view(&self) -> Seq<char> {
        self.repo_path@
    }
}

// ---------------------------------------------------------------------------
// Specifications
// ---------------------------------------------------------------------------

/// The first seven characters of a hash, or all of it when it is shorter.
pub open spec fn short_form(s: Seq<char>) -> Seq<char> {
    if s.len() <= 7 {
        s
    } else {
        s.take(7)
    }
}

/// A commit hash the library passes to git: non-empty, hex digits only.
pub open spec fn valid_commit_hash(s: Seq<char>) -> bool {
    s.len() > 0 && forall|i: int| 0 <= i < s.len() ==> is_hex_digit(#[trigger] s[i])
}

/// Where hard-reset backup refs live.
pub open spec fn backup_prefix() -> Seq<char> {
    "refs/git-time-machine/backups/"@
}

/// The reflog entry that one line of `git reflog --format=%H%x00%s%x00%ct%x00%an`
/// describes, seen at instant `now`: hash, subject, commit time, author.
/// A line with fewer than four fields or a commit time that is not an integer
/// describes none. A commit time out of the range of UTC date-times stands
/// for `now`.
pub open spec fn reflog_entry(line: Seq<char>, now: int) -> Option<EntryView> {
    let parts = splitn(line, 4, '\0');
    if parts.len() >= 4 {
        match parse_i64(parts[2]) {
            Some(secs) => {
                let ts = if secs_in_range(secs as int) {
                    secs * NANOS_PER_SEC
                } else {
                    now
                };
                Some(
                    EntryView {
                        hash: parts[0],
                        message: parts[1],
                        timestamp: ts,
                        author: parts[3],
                        relative_time: relative_time(ts, now),
                    },
                )
            },
            None => None,
        }
    } else {
        None
    }
}

/// The reflog entries of a reflog listing, in the listing's order.
pub open spec fn reflog_entries(output: Seq<char>, now: int) -> Seq<EntryView> {
    lines(output).filter_map(|l: Seq<char>| reflog_entry(l, now))
}

/// The creation instant that a backup ref's name records:
/// `refs/git-time-machine/backups/<millis>-<rest>`, with `<millis>` an
/// integer number of milliseconds in the range of UTC date-times.
pub open spec fn backup_created_at(name: Seq<char>) -> Option<int> {
    if has_prefix(name, backup_prefix()) {
        let parts = splitn(name.skip(backup_prefix().len() as int), 2, '-');
        if parts.len() == 2 {
            match parse_i64(parts[0]) {
                Some(ms) => if millis_in_range(ms as int) {
                    Some(ms * 1000000)
                } else {
                    None
                },
                None => None,
            }
        } else {
            None
        }
    } else {
        None
    }
}

/// The backup ref that one line of
/// `git for-each-ref --format=%(refname)%00%(objectname)%00%(subject)`
/// describes, seen at instant `now`; a line with fewer than three fields
/// describes none.
pub open spec fn backup_ref_of_line(line: Seq<char>, now: int) -> Option<BackupView> {
    let parts = splitn(line, 3, '\0');
    if parts.len() < 3 {
        None
    } else {
        let created = backup_created_at(parts[0]);
        Some(
            BackupView {
                name: parts[0],
                hash: parts[1],
                subject: parts[2],
                created_at: created,
                relative_time: match created {
                    Some(t) => relative_time(t, now),
                    None => "unknown"@,
                },
            },
        )
    }
}

/// The backup refs of a ref listing, in the listing's order.
pub open spec fn listed_backup_refs(output: Seq<char>, now: int) -> Seq<BackupView> {
    lines(output).filter_map(|l: Seq<char>| backup_ref_of_line(l, now))
}

// ---------------------------------------------------------------------------
// Executable functions
// ---------------------------------------------------------------------------

/// The first seven characters of `s` (`s.chars().take(7).collect()`).
fn short_form_of(s: &String) -> (r: String)
    ensures
        r@ == short_form(s@),
{
    let v = chars_of(s.as_str());
    let n = if v.len() <= 7 {
        v.len()
    } else {
        7
    };
    let r = string_from_range(&v, 0, n);
    assert(v@.subrange(0, n as int) =~= short_form(s@));
    r
}

impl GitEntry {
    /// The abbreviated hash shown in the timeline: its first seven characters.
    pub fn short_hash(&self) -> (r: String)
        ensures
            r@ == short_form(self.hash@),
    {
        short_form_of(&self.hash)
    }
}

impl BackupRef {
    /// The abbreviated hash: its first seven characters.
    pub fn short_hash(&self) -> (r: String)
        ensures
            r@ == short_form(self.hash@),
    {
        short_form_of(&self.hash)
    }

    /// The command that shows what the backup holds.
    pub fn inspect_command(&self) -> (r: String)
        ensures
            r@ == "git show --stat --oneline "@ + self.name@,
    {
        concat2("git show --stat --oneline ", self.name.as_str())
    }

    /// The command that restores the backup.
    pub fn restore_command(&self) -> (r: String)
        ensures
            r@ == "git reset --hard "@ + self.name@,
    {
        concat2("git reset --hard ", self.name.as_str())
    }
}

/// The name of a restore mode as the interface shows it.
pub open spec fn mode_label(mode: RestoreMode) -> Seq<char> {
    match mode {
        RestoreMode::HardReset => "hard reset"@,
        RestoreMode::SoftReset => "soft reset"@,
        RestoreMode::Checkout => "checkout"@,
    }
}

/// The git command line a restore mode runs, before the commit hash.
pub open spec fn mode_command_prefix(mode: RestoreMode) -> Seq<char> {
    match mode {
        RestoreMode::HardReset => "git reset --hard "@,
        RestoreMode::SoftReset => "git reset --soft "@,
        RestoreMode::Checkout => "git checkout "@,
    }
}

impl RestoreMode {
    /// The mode's name as the interface shows it.
    pub fn label(self) -> (r: &'static str)
        ensures
            r@ == mode_label(self),
    {
        match self {
            RestoreMode::HardReset => "hard reset",
            RestoreMode::SoftReset => "soft reset",
            RestoreMode::Checkout => "checkout",
        }
    }

    /// The exact git command line the mode runs for `commit_hash`.
    pub fn command(self, commit_hash: &str) -> (r: String)
        ensures
            r@ == mode_command_prefix(self) + commit_hash@,
    {
        match self {
            RestoreMode::HardReset => concat2("git reset --hard ", commit_hash),
            RestoreMode::SoftReset => concat2("git reset --soft ", commit_hash),
            RestoreMode::Checkout => concat2("git checkout ", commit_hash),
        }
    }
}

/// Checks that a commit hash is non-empty and made of hex digits only, so
/// that nothing else reaches git's command line.
pub fn validate_commit_hash(commit_hash: &str) -> (r: Result<(), GitError>)
    ensures
        r is Ok <==> valid_commit_hash(commit_hash@),
        r is Err ==> r == Err::<(), GitError>(GitError::InvalidCommitHash),
{
    let v = chars_of(commit_hash);
    if v.len() == 0 {
        return Err(GitError::InvalidCommitHash);
    }
    let mut i: usize = 0;
    while i < v.len()
        invariant
            i <= v.len(),
            v@ == commit_hash@,
            forall|j: int| 0 <= j < i ==> is_hex_digit(#[trigger] v@[j]),
        decreases v.len() - i,
    {
        if !is_hex_digit_char(v[i]) {
            return Err(GitError::InvalidCommitHash);
        }
        i += 1;
    }
    Ok(())
}

/// The reflog entry one line describes (see `reflog_entry`).
fn entry_of_line(line: &String, now: &Timestamp) -> (r: Option<GitEntry>)
    ensures
        match r {
            Some(e) => reflog_entry(line@, now@) == Some(e@),
            None => reflog_entry(line@, now@) is None,
        },
{
    let v = chars_of(line.as_str());
    let parts = split_n(&v, 4, '\0');
    if parts.len() < 4 {
        return None;
    }
    let secs_chars = chars_of(parts[2].as_str());
    match parse_i64_chars(&secs_chars) {
        Some(secs) => {
            let timestamp = match Timestamp::from_secs(secs) {
                Some(t) => t,
                None => *now,
            };
            let relative_time = format_relative_time(&timestamp, now);
            let e = GitEntry {
                hash: owned(parts[0].as_str()),
                message: owned(parts[1].as_str()),
                timestamp,
                author: owned(parts[3].as_str()),
                relative_time,
            };
            assert(e@ == reflog_entry(line@, now@).unwrap());
            Some(e)
        },
        None => None,
    }
}

/// The creation instant recorded in a backup ref's name (see
/// `backup_created_at`).
pub fn backup_ref_created_at(ref_name: &str) -> (r: Option<Timestamp>)
    ensures
        opt_instant(r) == backup_created_at(ref_name@),
{
    let v = chars_of(ref_name);
    let prefix = chars_of("refs/git-time-machine/backups/");
    if !starts_with_chars(&v, &prefix) {
        return None;
    }
    let rest = string_from_range(&v, prefix.len(), v.len());
    assert(rest@ =~= ref_name@.skip(backup_prefix().len() as int));
    let rest_chars = chars_of(rest.as_str());
    let parts = split_n(&rest_chars, 2, '-');
    if parts.len() != 2 {
        return None;
    }
    let first = chars_of(parts[0].as_str());
    match parse_i64_chars(&first) {
        Some(ms) => Timestamp::from_millis(ms),
        None => None,
    }
}

/// The backup ref one line describes (see `backup_ref_of_line`).
fn backup_of_line(line: &String, now: &Timestamp) -> (r: Option<BackupRef>)
    ensures
        match r {
            Some(b) => backup_ref_of_line(line@, now@) == Some(b@),
            None => backup_ref_of_line(line@, now@) is None,
        },
{
    let v = chars_of(line.as_str());
    let parts = split_n(&v, 3, '\0');
    if parts.len() < 3 {
        return None;
    }
    let created_at = backup_ref_created_at(parts[0].as_str());
    let relative_time = match &created_at {
        Some(t) => format_relative_time(t, now),
        None => owned("unknown"),
    };
    let b = BackupRef {
        name: owned(parts[0].as_str()),
        hash: owned(parts[1].as_str()),
        subject: owned(parts[2].as_str()),
        created_at,
        relative_time,
    };
    assert(b@ == backup_ref_of_line(line@, now@).unwrap());
    Some(b)
}

// ---------------------------------------------------------------------------
// Order of the backup listing
// ---------------------------------------------------------------------------

/// Strict lexicographic order of texts by code point, which is the order of
/// their UTF-8 bytes (`String`'s `Ord`).
pub open spec fn lex_less(a: Seq<char>, b: Seq<char>) -> bool
    decreases a.len(),
{
    if a.len() == 0 {
        b.len() > 0
    } else if b.len() == 0 {
        false
    } else if a[0] != b[0] {
        a[0] < b[0]
    } else {
        lex_less(a.drop_first(), b.drop_first())
    }
}

/// Order of optional instants, an unknown instant before every known one:
/// `a` is strictly later than `b`.
pub open spec fn instant_after(a: Option<int>, b: Option<int>) -> bool {
    match (a, b) {
        (Some(x), Some(y)) => x > y,
        (Some(_), None) => true,
        _ => false,
    }
}

/// `a` belongs strictly before `b` in the backup listing: it was created
/// later, or at the same instant (both unknown alike) with a greater name.
pub open spec fn listed_before(a: BackupView, b: BackupView) -> bool {
    instant_after(a.created_at, b.created_at) || (a.created_at == b.created_at && lex_less(
        b.name,
        a.name,
    ))
}

/// No backup comes after one that belongs behind it: newest first, and by
/// name in descending order among equal creation instants.
pub open spec fn newest_first(s: Seq<BackupView>) -> bool {
    forall|i: int, j: int| 0 <= i < j < s.len() ==> !listed_before(#[trigger] s[j], #[trigger] s[i])
}

/// Where `x` goes in a listing: before the first element it belongs before.
pub open spec fn insertion_point(r: Seq<BackupView>, x: BackupView) -> int
    decreases r.len(),
{
    if r.len() == 0 {
        0
    } else if listed_before(x, r[0]) {
        0
    } else {
        1 + insertion_point(r.drop_first(), x)
    }
}

/// Stable insertion sort into listing order: each element goes after every
/// element that does not belong behind it.
pub open spec fn sort_newest_first(s: Seq<BackupView>) -> Seq<BackupView>
    decreases s.len(),
{
    if s.len() == 0 {
        s
    } else {
        let r = sort_newest_first(s.drop_last());
        r.insert(insertion_point(r, s.last()), s.last())
    }
}

proof fn lemma_lex_less_asymmetric(a: Seq<char>, b: Seq<char>)
    ensures
        !(lex_less(a, b) && lex_less(b, a)),
    decreases a.len(),
{
    if a.len() > 0 && b.len() > 0 && a[0] == b[0] {
        lemma_lex_less_asymmetric(a.drop_first(), b.drop_first());
    }
}

proof fn lemma_lex_less_transitive(a: Seq<char>, b: Seq<char>, c: Seq<char>)
    requires
        lex_less(a, b),
        lex_less(b, c),
    ensures
        lex_less(a, c),
    decreases a.len(),
{
    if a.len() > 0 && b.len() > 0 && c.len() > 0 && a[0] == b[0] && b[0] == c[0] {
        lemma_lex_less_transitive(a.drop_first(), b.drop_first(), c.drop_first());
    }
}

/// Texts that agree on their first `i` characters compare like their rests.
proof fn lemma_lex_less_skip(a: Seq<char>, b: Seq<char>, i: int)
    requires
        0 <= i <= a.len(),
        i <= b.len(),
        forall|j: int| 0 <= j < i ==> a[j] == b[j],
    ensures
        lex_less(a, b) == lex_less(a.skip(i), b.skip(i)),
    decreases i,
{
    if i > 0 {
        assert forall|j: int| 0 <= j < i - 1 implies a.drop_first()[j] == b.drop_first()[j] by {
            assert(a.drop_first()[j] == a[j + 1]);
            assert(b.drop_first()[j] == b[j + 1]);
        }
        lemma_lex_less_skip(a.drop_first(), b.drop_first(), i - 1);
        assert(a.drop_first().skip(i - 1) =~= a.skip(i));
        assert(b.drop_first().skip(i - 1) =~= b.skip(i));
    } else {
        assert(a.skip(0) =~= a);
        assert(b.skip(0) =~= b);
    }
}

proof fn lemma_listed_before_asymmetric(a: BackupView, b: BackupView)
    ensures
        !(listed_before(a, b) && listed_before(b, a)),
{
    lemma_lex_less_asymmetric(a.name, b.name);
}

proof fn lemma_listed_before_transitive(a: BackupView, b: BackupView, c: BackupView)
    requires
        listed_before(a, b),
        listed_before(b, c),
    ensures
        listed_before(a, c),
{
    if a.created_at == b.created_at && b.created_at == c.created_at {
        lemma_lex_less_transitive(c.name, b.name, a.name);
    }
}

proof fn lemma_insertion_point(r: Seq<BackupView>, x: BackupView)
    ensures
        0 <= insertion_point(r, x) <= r.len(),
        forall|j: int| 0 <= j < insertion_point(r, x) ==> !listed_before(x, #[trigger] r[j]),
        insertion_point(r, x) < r.len() ==> listed_before(x, r[insertion_point(r, x)]),
    decreases r.len(),
{
    if r.len() > 0 && !listed_before(x, r[0]) {
        lemma_insertion_point(r.drop_first(), x);
        assert forall|j: int| 0 <= j < insertion_point(r, x) implies !listed_before(
            x,
            #[trigger] r[j],
        ) by {
            if j > 0 {
                assert(r[j] == r.drop_first()[j - 1]);
            }
        }
    }
}

proof fn lemma_insertion_point_is(r: Seq<BackupView>, x: BackupView, k: int)
    requires
        0 <= k <= r.len(),
        forall|j: int| 0 <= j < k ==> !listed_before(x, #[trigger] r[j]),
        k < r.len() ==> listed_before(x, r[k]),
    ensures
        insertion_point(r, x) == k,
    decreases r.len(),
{
    if r.len() > 0 && k > 0 {
        assert(!listed_before(x, r[0]));
        assert forall|j: int| 0 <= j < k - 1 implies !listed_before(x, #[trigger] r.drop_first()[j]) by {
            assert(r.drop_first()[j] == r[j + 1]);
        }
        lemma_insertion_point_is(r.drop_first(), x, k - 1);
    }
}

proof fn lemma_insert_keeps_order(r: Seq<BackupView>, x: BackupView)
    requires
        newest_first(r),
    ensures
        newest_first(r.insert(insertion_point(r, x), x)),
{
    lemma_insertion_point(r, x);
    let k = insertion_point(r, x);
    let s = r.insert(k, x);
    assert forall|i: int, j: int| 0 <= i < j < s.len() implies !listed_before(
        #[trigger] s[j],
        #[trigger] s[i],
    ) by {
        if j < k {
            assert(s[i] == r[i] && s[j] == r[j]);
        } else if j == k {
            assert(s[i] == r[i]);
            assert(s[j] == x);
        } else if i == k {
            assert(s[j] == r[j - 1]);
            assert(s[i] == x);
            if listed_before(r[j - 1], x) {
                assert(listed_before(x, r[k]));
                if j - 1 == k {
                    lemma_listed_before_asymmetric(x, r[k]);
                } else {
                    assert(!listed_before(r[j - 1], r[k]));
                    lemma_listed_before_transitive(r[j - 1], x, r[k]);
                }
            }
        } else if i < k {
            assert(s[i] == r[i] && s[j] == r[j - 1]);
        } else {
            assert(s[i] == r[i - 1] && s[j] == r[j - 1]);
        }
    }
}

/// The stable sort yields a listing in order.
pub proof fn lemma_sort_newest_first_ordered(s: Seq<BackupView>)
    ensures
        newest_first(sort_newest_first(s)),
        sort_newest_first(s).len() == s.len(),
    decreases s.len(),
{
    if s.len() > 0 {
        lemma_sort_newest_first_ordered(s.drop_last());
        let r = sort_newest_first(s.drop_last());
        lemma_insert_keeps_order(r, s.last());
        lemma_insertion_point(r, s.last());
    }
}

/// The stable sort keeps every backup ref, as often as it occurs.
pub proof fn lemma_sort_newest_first_permutes(s: Seq<BackupView>)
    ensures
        sort_newest_first(s).to_multiset() =~= s.to_multiset(),
    decreases s.len(),
{
    broadcast use vstd::seq_lib::group_to_multiset_ensures;

    if s.len() > 0 {
        lemma_sort_newest_first_permutes(s.drop_last());
        let r = sort_newest_first(s.drop_last());
        lemma_sort_newest_first_ordered(s.drop_last());
        lemma_insertion_point(r, s.last());
        let k = insertion_point(r, s.last());
        r.insert_ensures(k, s.last());
        assert(r.insert(k, s.last()) =~= r.take(k) + seq![s.last()] + r.skip(k));
        assert(r =~= r.take(k) + r.skip(k));
        vstd::seq_lib::lemma_multiset_commutative(r.take(k), seq![s.last()]);
        vstd::seq_lib::lemma_multiset_commutative(r.take(k) + seq![s.last()], r.skip(k));
        vstd::seq_lib::lemma_multiset_commutative(r.take(k), r.skip(k));
        vstd::seq_lib::lemma_multiset_commutative(s.drop_last(), seq![s.last()]);
        assert(s =~= s.drop_last() + seq![s.last()]);
    }
}

/// Whether `a`'s name is greater than `b`'s (`a.name > b.name`).
fn name_greater(a: &String, b: &String) -> (r: bool)
    ensures
        r == lex_less(b@, a@),
{
    let x = chars_of(a.as_str());
    let y = chars_of(b.as_str());
    let mut i: usize = 0;
    while i < x.len() && i < y.len() && x[i] == y[i]
        invariant
            i <= x.len(),
            i <= y.len(),
            forall|j: int| 0 <= j < i ==> x@[j] == y@[j],
        decreases x.len() - i,
    {
        i += 1;
    }
    proof {
        lemma_lex_less_skip(y@, x@, i as int);
        if i < x.len() {
            assert(x@.skip(i as int)[0] == x@[i as int]);
        }
        if i < y.len() {
            assert(y@.skip(i as int)[0] == y@[i as int]);
        }
    }
    if i < x.len() && i < y.len() {
        y[i] < x[i]
    } else {
        i < x.len()
    }
}

/// Whether backup `a` belongs strictly before backup `b` in the listing.
fn comes_before(a: &BackupRef, b: &BackupRef) -> (r: bool)
    ensures
        r == listed_before(a@, b@),
{
    let same_instant = match (&a.created_at, &b.created_at) {
        (Some(x), Some(y)) => x.same_instant(y),
        (None, None) => true,
        _ => false,
    };
    let later = match (&a.created_at, &b.created_at) {
        (Some(x), Some(y)) => x.is_after(y),
        (Some(_), None) => true,
        _ => false,
    };
    later || (same_instant && name_greater(&a.name, &b.name))
}

/// Sorts backup refs newest first, ties by name in descending order,
/// keeping the given order among equal keys.
pub fn sort_backup_refs(v: Vec<BackupRef>) -> (r: Vec<BackupRef>)
    ensures
        backups_view(r@) == sort_newest_first(backups_view(v@)),
        newest_first(backups_view(r@)),
        backups_view(r@).to_multiset() =~= backups_view(v@).to_multiset(),
{
    let ghost orig = backups_view(v@);
    let mut rest = v;
    let mut r: Vec<BackupRef> = Vec::new();
    let ghost mut k: int = 0;
    assert(orig.take(0) =~= Seq::<BackupView>::empty());
    while rest.len() > 0
        invariant
            0 <= k <= orig.len(),
            backups_view(rest@) =~= orig.skip(k),
            backups_view(r@) == sort_newest_first(orig.take(k)),
        decreases rest.len(),
    {
        proof {
            assert(backups_view(rest@).len() == rest@.len());
            assert(k < orig.len());
            assert(backups_view(rest@)[0] == rest@[0]@);
        }
        let ghost old_rest = backups_view(rest@);
        let x = rest.remove(0);
        assert(backups_view(rest@) =~= old_rest.drop_first());
        let ghost rv = backups_view(r@);
        proof {
            assert(orig.skip(k)[0] == x@);
            assert(orig.take(k + 1).drop_last() =~= orig.take(k));
            assert(orig.take(k + 1).last() == x@);
        }
        let mut j: usize = 0;
        while j < r.len() && !comes_before(&x, &r[j])
            invariant
                j <= r.len(),
                rv == backups_view(r@),
                forall|jj: int| 0 <= jj < j ==> !listed_before(x@, #[trigger] rv[jj]),
            decreases r.len() - j,
        {
            proof {
                assert(rv[j as int] == r@[j as int]@);
            }
            j += 1;
        }
        proof {
            if j < r.len() {
                assert(rv[j as int] == r@[j as int]@);
            }
            lemma_insertion_point_is(rv, x@, j as int);
        }
        r.insert(j, x);
        proof {
            assert(backups_view(r@) =~= rv.insert(j as int, x@));
            k = k + 1;
            assert(backups_view(rest@) =~= orig.skip(k));
        }
    }
    proof {
        assert(orig.take(k) =~= orig);
        lemma_sort_newest_first_ordered(orig);
        lemma_sort_newest_first_permutes(orig);
    }
    r
}

// ---------------------------------------------------------------------------
// Errors
// ---------------------------------------------------------------------------

/// The mathematical content of a `GitError`.
pub enum ErrorView {
    InvalidCommitHash,
    ReadHeadFailed(Seq<char>),
    BackupRefFailed(Seq<char>),
    RestoreFailed(RestoreMode, Seq<char>),
}

impl View for GitError {
    type V = ErrorView;

    open spec fn view(&self) -> ErrorView {
        match self {
            GitError::InvalidCommitHash => ErrorView::InvalidCommitHash,
            GitError::ReadHeadFailed(e) => ErrorView::ReadHeadFailed(e@),
            GitError::BackupRefFailed(e) => ErrorView::BackupRefFailed(e@),
            GitError::RestoreFailed(m, e) => ErrorView::RestoreFailed(*m, e@),
        }
    }
}

/// The message that reports an error.
pub open spec fn error_message(e: ErrorView) -> Seq<char> {
    match e {
        ErrorView::InvalidCommitHash => "Invalid commit hash format"@,
        ErrorView::ReadHeadFailed(err) => "Failed to read current HEAD before hard reset: "@ + err,
        ErrorView::BackupRefFailed(err) => "Failed to create hard-reset backup ref: "@ + err,
        ErrorView::RestoreFailed(m, err) => "Failed to "@ + mode_label(m) + ": "@ + err,
    }
}

impl GitError {
    /// The message that reports this error.
    pub fn message(&self) -> (r: String)
        ensures
            r@ == error_message(self@),
    {
        match self {
            GitError::InvalidCommitHash => owned("Invalid commit hash format"),
            GitError::ReadHeadFailed(e) => concat2(
                "Failed to read current HEAD before hard reset: ",
                e.as_str(),
            ),
            GitError::BackupRefFailed(e) => concat2(
                "Failed to create hard-reset backup ref: ",
                e.as_str(),
            ),
            GitError::RestoreFailed(m, e) => {
                let head = concat2("Failed to ", m.label());
                let head = concat2(head.as_str(), ": ");
                concat2(head.as_str(), e.as_str())
            },
        }
    }
}

// ---------------------------------------------------------------------------
// Commands and their output
// ---------------------------------------------------------------------------

/// Which diff a preview shows.
#[derive(Clone, Copy, Debug, PartialEq, Eq, Structural)]
pub enum DiffKind {
    /// `git diff --stat`: files and line counts.
    Stat,
    /// `git diff --no-color`: the whole patch.
    Full,
}

/// Reflog entries the timeline loads: up to 1000 with `show_all`, else 50.
pub open spec fn reflog_args_spec(show_all: bool) -> Seq<Seq<char>> {
    seq![
        "reflog"@,
        "--format=%H%x00%s%x00%ct%x00%an"@,
        if show_all {
            "-n1000"@
        } else {
            "-n50"@
        },
    ]
}

/// The arguments of the git command of a restore mode for a commit.
pub open spec fn restore_args_spec(mode: RestoreMode, hash: Seq<char>) -> Seq<Seq<char>> {
    match mode {
        RestoreMode::HardReset => seq!["reset"@, "--hard"@, hash],
        RestoreMode::SoftReset => seq!["reset"@, "--soft"@, hash],
        RestoreMode::Checkout => seq!["checkout"@, hash],
    }
}

/// The arguments of a diff preview of `HEAD` against a commit.
pub open spec fn diff_args_spec(kind: DiffKind, hash: Seq<char>) -> Seq<Seq<char>> {
    match kind {
        DiffKind::Stat => seq!["diff"@, "--stat"@, "HEAD"@, hash],
        DiffKind::Full => seq!["diff"@, "--no-color"@, "HEAD"@, hash],
    }
}

/// What a diff preview shows for a finished `git diff`.
pub open spec fn diff_text_spec(success: bool, stdout: Seq<char>, stderr: Seq<char>) -> Seq<char> {
    if !success {
        "Error getting diff: "@ + stderr
    } else if trim(stdout).len() == 0 {
        "No changes between current HEAD and selected commit."@
    } else {
        stdout
    }
}

fn strings2(a: &str, b: &str) -> (r: Vec<String>)
    ensures
        r.deep_view() == seq![a@, b@],
{
    let mut r: Vec<String> = Vec::new();
    r.push(owned(a));
    r.push(owned(b));
    assert(r.deep_view() =~= seq![a@, b@]);
    r
}

fn strings3(a: &str, b: &str, c: &str) -> (r: Vec<String>)
    ensures
        r.deep_view() == seq![a@, b@, c@],
{
    let mut r: Vec<String> = Vec::new();
    r.push(owned(a));
    r.push(owned(b));
    r.push(owned(c));
    assert(r.deep_view() =~= seq![a@, b@, c@]);
    r
}

fn strings4(a: &str, b: &str, c: &str, d: &str) -> (r: Vec<String>)
    ensures
        r.deep_view() == seq![a@, b@, c@, d@],
{
    let mut r: Vec<String> = Vec::new();
    r.push(owned(a));
    r.push(owned(b));
    r.push(owned(c));
    r.push(owned(d));
    assert(r.deep_view() =~= seq![a@, b@, c@, d@]);
    r
}

impl GitManager {
    /// The arguments of the command that finds the repository's top level.
    pub fn toplevel_args() -> (r: Vec<String>)
        ensures
            r.deep_view() == seq!["rev-parse"@, "--show-toplevel"@],
    {
        strings2("rev-parse", "--show-toplevel")
    }

    /// A manager for the repository whose top level `git rev-parse
    /// --show-toplevel` printed: the printed path without surrounding
    /// whitespace.
    pub fn new(toplevel_output: &str) -> (r: GitManager)
        ensures
            r@ == trim(toplevel_output@),
    {
        GitManager { repo_path: trim_string(toplevel_output) }
    }

    /// The repository's top-level directory; every command runs there.
    pub fn repo_path(&self) -> (r: &str)
        ensures
            r@ == self@,
    {
        self.repo_path.as_str()
    }

    /// The arguments of the reflog listing.
    pub fn reflog_args(show_all: bool) -> (r: Vec<String>)
        ensures
            r.deep_view() == reflog_args_spec(show_all),
    {
        let limit = if show_all {
            "-n1000"
        } else {
            "-n50"
        };
        strings3("reflog", "--format=%H%x00%s%x00%ct%x00%an", limit)
    }

    /// The reflog entries of a listing, seen at `now`, in the listing's order
    /// (newest first, as git prints them).
    pub fn parse_reflog(output: &str, now: &Timestamp) -> (r: Vec<GitEntry>)
        ensures
            entries_view(r@) == reflog_entries(output@, now@),
    {
        let v = chars_of(output);
        let ls = split_lines(&v);
        let ghost f = |l: Seq<char>| reflog_entry(l, now@);
        let ghost lv = ls.deep_view();
        let mut r: Vec<GitEntry> = Vec::new();
        let mut i: usize = 0;
        assert(lv.take(0) =~= Seq::<Seq<char>>::empty());
        while i < ls.len()
            invariant
                i <= ls.len(),
                lv == ls.deep_view(),
                lv == lines(output@),
                f == (|l: Seq<char>| reflog_entry(l, now@)),
                entries_view(r@) == lv.take(i as int).filter_map(f),
            decreases ls.len() - i,
        {
            proof {
                lv.lemma_filter_map_take_succ(f, i as int);
                assert(lv[i as int] == ls@[i as int]@);
            }
            let ghost old_r = entries_view(r@);
            assert(f(lv[i as int]) == reflog_entry(lv[i as int], now@));
            match entry_of_line(&ls[i], now) {
                Some(e) => {
                    r.push(e);
                    assert(entries_view(r@) =~= old_r + seq![e@]);
                },
                None => {
                    assert(old_r + Seq::empty() =~= old_r);
                },
            }
            i += 1;
        }
        assert(lv.take(ls.len() as int) =~= lv);
        r
    }

    /// The arguments of the backup ref listing.
    pub fn backup_refs_args() -> (r: Vec<String>)
        ensures
            r.deep_view() == seq![
                "for-each-ref"@,
                "refs/git-time-machine/backups"@,
                "--format=%(refname)%00%(objectname)%00%(subject)"@,
            ],
    {
        strings3(
            "for-each-ref",
            "refs/git-time-machine/backups",
            "--format=%(refname)%00%(objectname)%00%(subject)",
        )
    }

    /// The backup refs of a ref listing, seen at `now`: newest first, ties by
    /// name in descending order, unknown creation times last.
    pub fn parse_backup_refs(output: &str, now: &Timestamp) -> (r: Vec<BackupRef>)
        ensures
            backups_view(r@) == sort_newest_first(listed_backup_refs(output@, now@)),
            newest_first(backups_view(r@)),
            backups_view(r@).to_multiset() =~= listed_backup_refs(output@, now@).to_multiset(),
    {
        let v = chars_of(output);
        let ls = split_lines(&v);
        let ghost f = |l: Seq<char>| backup_ref_of_line(l, now@);
        let ghost lv = ls.deep_view();
        let mut r: Vec<BackupRef> = Vec::new();
        let mut i: usize = 0;
        assert(lv.take(0) =~= Seq::<Seq<char>>::empty());
        while i < ls.len()
            invariant
                i <= ls.len(),
                lv == ls.deep_view(),
                lv == lines(output@),
                f == (|l: Seq<char>| backup_ref_of_line(l, now@)),
                backups_view(r@) == lv.take(i as int).filter_map(f),
            decreases ls.len() - i,
        {
            proof {
                lv.lemma_filter_map_take_succ(f, i as int);
                assert(lv[i as int] == ls@[i as int]@);
            }
            let ghost old_r = backups_view(r@);
            assert(f(lv[i as int]) == backup_ref_of_line(lv[i as int], now@));
            match backup_of_line(&ls[i], now) {
                Some(b) => {
                    r.push(b);
                    assert(backups_view(r@) =~= old_r + seq![b@]);
                },
                None => {
                    assert(old_r + Seq::empty() =~= old_r);
                },
            }
            i += 1;
        }
        assert(lv.take(ls.len() as int) =~= lv);
        sort_backup_refs(r)
    }

    /// The arguments of the working-tree status check.
    pub fn status_args() -> (r: Vec<String>)
        ensures
            r.deep_view() == seq!["status"@, "--porcelain"@],
    {
        strings2("status", "--porcelain")
    }

    /// Whether `git status --porcelain` reported uncommitted changes: it
    /// printed something other than whitespace.
    pub fn changes_in_status(status_output: &str) -> (r: bool)
        ensures
            r == (trim(status_output@).len() > 0),
            r == exists|j: int| 0 <= j < status_output@.len() && !is_whitespace(#[trigger] status_output@[j]),
    {
        proof {
            lemma_trim_empty(status_output@);
        }
        !is_blank(status_output)
    }

    /// The arguments of a diff preview of `HEAD` against `commit_hash`, or,
    /// for a hash that is not valid, the text the preview shows instead of
    /// running git.
    pub fn diff_args(kind: DiffKind, commit_hash: &str) -> (r: Result<Vec<String>, String>)
        ensures
            valid_commit_hash(commit_hash@) <==> r is Ok,
            r matches Ok(args) ==> args.deep_view() == diff_args_spec(kind, commit_hash@),
            r matches Err(text) ==> text@ == "Invalid commit hash format"@,
    {
        match validate_commit_hash(commit_hash) {
            Err(_) => Err(owned("Invalid commit hash format")),
            Ok(()) => match kind {
                DiffKind::Stat => Ok(strings4("diff", "--stat", "HEAD", commit_hash)),
                DiffKind::Full => Ok(strings4("diff", "--no-color", "HEAD", commit_hash)),
            },
        }
    }

    /// What a diff preview shows for a finished `git diff`: its error, a note
    /// that nothing differs, or the diff itself.
    pub fn diff_text(output: &GitOutput) -> (r: String)
        ensures
            r@ == diff_text_spec(output.success, output.stdout@, output.stderr@),
    {
        if !output.success {
            concat2("Error getting diff: ", output.stderr.as_str())
        } else if is_blank(output.stdout.as_str()) {
            owned("No changes between current HEAD and selected commit.")
        } else {
            owned(output.stdout.as_str())
        }
    }
}

// ---------------------------------------------------------------------------
// Restoring a commit
// ---------------------------------------------------------------------------

/// The git command a restore is waiting on.
#[derive(Clone, Copy, Debug, PartialEq, Eq, Structural)]
pub enum RestoreStage {
    /// `git rev-parse HEAD`: the commit a hard reset is about to leave.
    ReadHead,
    /// `git update-ref <backup> HEAD`: the backup ref of a hard reset.
    CreateBackup,
    /// The reset or checkout itself.
    Reset,
}

/// A restore in progress: the mode, the target commit, the backup ref made
/// so far, and the command it waits on.
pub struct RestoreProcess {
    mode: RestoreMode,
    commit_hash: String,
    backup_ref: Option<String>,
    stage: RestoreStage,
}

/// The mathematical content of a restore in progress.
pub struct ProcessView {
    pub mode: RestoreMode,
    pub commit_hash: Seq<char>,
    pub backup_ref: Option<Seq<char>>,
    pub stage: RestoreStage,
}

/// The text of an optional string.
pub open spec fn opt_text(s: Option<String>) -> Option<Seq<char>> {
    match s {
        Some(s) => Some(s@),
        None => None,
    }
}

impl View for RestoreProcess {
    type V = ProcessView;

    closed spec fn view(&self) -> ProcessView {
        ProcessView {
            mode: self.mode,
            commit_hash: self.commit_hash@,
            backup_ref: opt_text(self.backup_ref),
            stage: self.stage,
        }
    }
}

/// The states a restore passes through: only a hard reset reads `HEAD` and
/// makes a backup ref, and it has made its backup ref before it resets.
pub open spec fn process_wf(p: ProcessView) -> bool {
    &&& valid_commit_hash(p.commit_hash)
    &&& match p.stage {
        RestoreStage::ReadHead => p.mode == RestoreMode::HardReset && p.backup_ref is None,
        RestoreStage::CreateBackup => p.mode == RestoreMode::HardReset && p.backup_ref is Some,
        RestoreStage::Reset => (p.mode == RestoreMode::HardReset) == (p.backup_ref is Some),
    }
}

/// The name of the backup ref a hard reset makes at instant `now` when
/// `HEAD` is `head`: `refs/git-time-machine/backups/<millis>-<short head>`.
pub open spec fn backup_ref_name(now: int, head: Seq<char>) -> Seq<char> {
    backup_prefix() + decimal(now / 1000000) + "-"@ + short_form(head)
}

/// The arguments of the command a restore waits on.
pub open spec fn stage_args(p: ProcessView) -> Seq<Seq<char>> {
    match p.stage {
        RestoreStage::ReadHead => seq!["rev-parse"@, "HEAD"@],
        RestoreStage::CreateBackup => seq!["update-ref"@, p.backup_ref->0, "HEAD"@],
        RestoreStage::Reset => restore_args_spec(p.mode, p.commit_hash),
    }
}

/// What a completed restore did, mathematically.
pub struct OutcomeView {
    pub mode: RestoreMode,
    pub backup_ref: Option<Seq<char>>,
}

impl View for RestoreOutcome {
    type V = OutcomeView;

    open spec fn view(&self) -> OutcomeView {
        OutcomeView { mode: self.mode, backup_ref: opt_text(self.backup_ref) }
    }
}

/// Where a restore goes after the command it waited on finished.
pub enum TransitionView {
    Next(ProcessView),
    Finished(OutcomeView),
    Failed(ErrorView),
}

/// The step of a restore after its command finished with exit status
/// `success`, output `stdout` and error text `stderr`, at instant `now`.
pub open spec fn restore_transition(
    p: ProcessView,
    success: bool,
    stdout: Seq<char>,
    stderr: Seq<char>,
    now: int,
) -> TransitionView {
    match p.stage {
        RestoreStage::ReadHead => if !success {
            TransitionView::Failed(ErrorView::ReadHeadFailed(stderr))
        } else if !valid_commit_hash(trim(stdout)) {
            TransitionView::Failed(ErrorView::InvalidCommitHash)
        } else {
            TransitionView::Next(
                ProcessView {
                    stage: RestoreStage::CreateBackup,
                    backup_ref: Some(backup_ref_name(now, trim(stdout))),
                    ..p
                },
            )
        },
        RestoreStage::CreateBackup => if !success {
            TransitionView::Failed(ErrorView::BackupRefFailed(stderr))
        } else {
            TransitionView::Next(ProcessView { stage: RestoreStage::Reset, ..p })
        },
        RestoreStage::Reset => if !success {
            TransitionView::Failed(ErrorView::RestoreFailed(p.mode, stderr))
        } else {
            TransitionView::Finished(OutcomeView { mode: p.mode, backup_ref: p.backup_ref })
        },
    }
}

/// Where a restore goes after the command it waited on finished.
pub enum RestoreStep {
    /// It runs another command.
    Next(RestoreProcess),
    /// It is complete.
    Finished(RestoreOutcome),
}

/// The transition a step and an error make, mathematically.
pub open spec fn step_view(r: Result<RestoreStep, GitError>) -> TransitionView {
    match r {
        Ok(RestoreStep::Next(p)) => TransitionView::Next(p@),
        Ok(RestoreStep::Finished(o)) => TransitionView::Finished(o@),
        Err(e) => TransitionView::Failed(e@),
    }
}

impl RestoreProcess {
    #[verifier::type_invariant]
    closed spec fn wf(self) -> bool {
        process_wf(self@)
    }

    /// Starts restoring `commit_hash` in `mode`. A hash that is empty or
    /// holds anything but hex digits is refused before any git command. A
    /// hard reset first reads `HEAD` to back it up; the other modes go
    /// straight to their command.
    pub fn start(commit_hash: &str, mode: RestoreMode) -> (r: Result<RestoreProcess, GitError>)
        ensures
            r is Ok <==> valid_commit_hash(commit_hash@),
            r matches Err(e) ==> e@ == ErrorView::InvalidCommitHash,
            r matches Ok(p) ==> p@ == (ProcessView {
                mode,
                commit_hash: commit_hash@,
                backup_ref: None,
                stage: if mode == RestoreMode::HardReset {
                    RestoreStage::ReadHead
                } else {
                    RestoreStage::Reset
                },
            }),
    {
        match validate_commit_hash(commit_hash) {
            Err(e) => Err(e),
            Ok(()) => {
                let stage = if mode == RestoreMode::HardReset {
                    RestoreStage::ReadHead
                } else {
                    RestoreStage::Reset
                };
                Ok(RestoreProcess { mode, commit_hash: owned(commit_hash), backup_ref: None, stage })
            },
        }
    }

    /// The mode of the restore.
    pub fn mode(&self) -> (r: RestoreMode)
        ensures
            r == self@.mode,
    {
        self.mode
    }

    /// The command the restore waits on.
    pub fn stage(&self) -> (r: RestoreStage)
        ensures
            r == self@.stage,
    {
        self.stage
    }

    /// The arguments of the git command the restore waits on.
    pub fn args(&self) -> (r: Vec<String>)
        ensures
            r.deep_view() == stage_args(self@),
            process_wf(self@),
    {
        proof {
            use_type_invariant(self);
        }
        match self.stage {
            RestoreStage::ReadHead => strings2("rev-parse", "HEAD"),
            RestoreStage::CreateBackup => match &self.backup_ref {
                Some(b) => strings3("update-ref", b.as_str(), "HEAD"),
                None => strings3("update-ref", "", "HEAD"),
            },
            RestoreStage::Reset => match self.mode {
                RestoreMode::HardReset => strings3("reset", "--hard", self.commit_hash.as_str()),
                RestoreMode::SoftReset => strings3("reset", "--soft", self.commit_hash.as_str()),
                RestoreMode::Checkout => strings2("checkout", self.commit_hash.as_str()),
            },
        }
    }

    /// Moves the restore on after its command finished with `output`, at
    /// instant `now` (which names the backup ref of a hard reset).
    pub fn advance(self, output: &GitOutput, now: &Timestamp) -> (r: Result<RestoreStep, GitError>)
        ensures
            step_view(r) == restore_transition(
                self@,
                output.success,
                output.stdout@,
                output.stderr@,
                now@,
            ),
    {
        proof {
            use_type_invariant(&self);
        }
        match self.stage {
            RestoreStage::ReadHead => {
                if !output.success {
                    return Err(GitError::ReadHeadFailed(owned(output.stderr.as_str())));
                }
                let head = trim_string(output.stdout.as_str());
                if validate_commit_hash(head.as_str()).is_err() {
                    return Err(GitError::InvalidCommitHash);
                }
                let name = concat2("refs/git-time-machine/backups/", decimal_string(now.millis()).as_str());
                let name = concat2(name.as_str(), "-");
                let name = concat2(name.as_str(), short_form_of(&head).as_str());
                assert(name@ =~= backup_ref_name(now@, head@));
                Ok(
                    RestoreStep::Next(
                        RestoreProcess {
                            mode: self.mode,
                            commit_hash: self.commit_hash,
                            backup_ref: Some(name),
                            stage: RestoreStage::CreateBackup,
                        },
                    ),
                )
            },
            RestoreStage::CreateBackup => {
                if !output.success {
                    return Err(GitError::BackupRefFailed(owned(output.stderr.as_str())));
                }
                Ok(
                    RestoreStep::Next(
                        RestoreProcess {
                            mode: self.mode,
                            commit_hash: self.commit_hash,
                            backup_ref: self.backup_ref,
                            stage: RestoreStage::Reset,
                        },
                    ),
                )
            },
            RestoreStage::Reset => {
                if !output.success {
                    return Err(GitError::RestoreFailed(self.mode, owned(output.stderr.as_str())));
                }
                Ok(RestoreStep::Finished(RestoreOutcome { mode: self.mode, backup_ref: self.backup_ref }))
            },
        }
    }
}

// ---------------------------------------------------------------------------
// Laws
// ---------------------------------------------------------------------------

/// Every step of a restore leads to a restore in a state it can be in; a
/// hard reset reaches its reset command only right after its backup ref was
/// created successfully, and a restore that completes carries a backup ref
/// exactly when it was a hard reset.
pub proof fn lemma_restore_backs_up_before_hard_reset(
    p: ProcessView,
    success: bool,
    stdout: Seq<char>,
    stderr: Seq<char>,
    now: int,
)
    requires
        process_wf(p),
    ensures
        restore_transition(p, success, stdout, stderr, now) matches TransitionView::Next(q)
            ==> process_wf(q) && q.mode == p.mode && q.commit_hash == p.commit_hash,
        restore_transition(p, success, stdout, stderr, now) matches TransitionView::Next(q) ==> (
        q.stage == RestoreStage::Reset && q.mode == RestoreMode::HardReset ==> p.stage
            == RestoreStage::CreateBackup && success && q.backup_ref == p.backup_ref
            && q.backup_ref is Some),
        restore_transition(p, success, stdout, stderr, now) matches TransitionView::Finished(o)
            ==> p.stage == RestoreStage::Reset && success && o.mode == p.mode && (o.backup_ref is Some
            <==> o.mode == RestoreMode::HardReset),
{
}

proof fn lemma_digit_char(d: int)
    requires
        0 <= d < 10,
    ensures
        is_digit(digit_char(d)),
        (digit_char(d) as int) - ('0' as int) == d,
{
}

/// The decimal text of a natural number is a run of digits worth it.
proof fn lemma_nat_decimal_digits(n: nat)
    ensures
        all_digits(nat_decimal(n)),
        digits_value(nat_decimal(n)) == n,
    decreases n,
{
    if n < 10 {
        lemma_digit_char(n as int);
        assert(nat_decimal(n).drop_last() =~= Seq::<char>::empty());
        assert(digits_value(nat_decimal(n)) == digits_value(Seq::<char>::empty()) * 10 + ((
        digit_char(n as int) as int) - ('0' as int)));
    } else {
        lemma_nat_decimal_digits(n / 10);
        lemma_digit_char((n % 10) as int);
        let s = nat_decimal(n / 10);
        let d = digit_char((n % 10) as int);
        assert(nat_decimal(n) == s.push(d));
        assert(s.push(d).drop_last() =~= s);
        assert(s.push(d).last() == d);
        assert(digits_value(s.push(d)) == digits_value(s) * 10 + ((d as int) - ('0' as int)));
        assert((n / 10) * 10 + n % 10 == n);
        assert forall|i: int| 0 <= i < s.push(d).len() implies is_digit(#[trigger] s.push(d)[i]) by {
            if i < s.len() {
                assert(s.push(d)[i] == s[i]);
            }
        }
    }
}

/// Parsing the decimal text of an `i64` gives it back.
pub proof fn lemma_parse_decimal(n: int)
    requires
        i64::MIN <= n <= i64::MAX,
    ensures
        parse_i64(decimal(n)) == Some(n as i64),
{
    if n >= 0 {
        lemma_nat_decimal_digits(n as nat);
        let s = nat_decimal(n as nat);
        assert(is_digit(s[0]));
    } else {
        lemma_nat_decimal_digits((-n) as nat);
        let s = nat_decimal((-n) as nat);
        let d = decimal(n);
        assert(d == seq!['-'] + s);
        assert(d[0] == '-');
        assert(d.drop_first() =~= s);
    }
}

/// The first piece before separator `c`, when it holds no `c`, is split off
/// whole, and the rest follows the separator.
proof fn lemma_split_first(a: Seq<char>, rest: Seq<char>, c: char, n: nat)
    requires
        free_of(a, c),
        n >= 2,
    ensures
        splitn(a + seq![c] + rest, n, c) == seq![a] + splitn(rest, (n - 1) as nat, c),
{
    let t = a + seq![c] + rest;
    assert forall|j: int| 0 <= j < a.len() implies t[j] != c by {
        assert(t[j] == a[j]);
    }
    assert(t[a.len() as int] == c);
    lemma_find_char_is(t, c, a.len() as int);
    assert(t.take(a.len() as int) =~= a);
    assert(t.skip(a.len() as int + 1) =~= rest);
}

/// A text with no line feed and no final carriage return, followed by a
/// line feed, is one line.
proof fn lemma_single_line(body: Seq<char>)
    requires
        free_of(body, '\n'),
        !(body.len() > 0 && body.last() == '\r'),
    ensures
        lines(body + seq!['\n']) == seq![body],
{
    let line = body + seq!['\n'];
    let b = body.len() as int;
    assert forall|j: int| 0 <= j < b implies line[j] != '\n' by {
        assert(line[j] == body[j]);
    }
    lemma_find_char_is(line, '\n', b);
    assert(line.take(b) =~= body);
    assert(line.skip(b + 1) =~= Seq::<char>::empty());
    assert(strip_cr(body) == body);
    assert(lines(line.skip(b + 1)) =~= Seq::<Seq<char>>::empty());
    assert(lines(line) == seq![strip_cr(line.take(b))] + lines(line.skip(b + 1)));
    assert(lines(line) =~= seq![body]);
}

/// A reflog line written from a hash, a subject, a commit time in seconds
/// (in the range of UTC date-times) and an author is read back as one entry
/// with exactly those fields: the entry's time is the commit time, whatever
/// the instant `now` it is seen at, and only its relative time depends on
/// `now`.
pub proof fn lemma_reflog_line_read_back(
    hash: Seq<char>,
    message: Seq<char>,
    secs: int,
    author: Seq<char>,
    now: int,
)
    requires
        free_of(hash, '\0'),
        free_of(hash, '\n'),
        free_of(message, '\0'),
        free_of(message, '\n'),
        free_of(author, '\n'),
        !(author.len() > 0 && author.last() == '\r'),
        secs_in_range(secs),
    ensures
        reflog_entries(
            hash + seq!['\0'] + message + seq!['\0'] + decimal(secs) + seq!['\0'] + author + seq!['\n'],
            now,
        ) == seq![
            EntryView {
                hash,
                message,
                timestamp: secs * NANOS_PER_SEC,
                author,
                relative_time: relative_time(secs * NANOS_PER_SEC, now),
            },
        ],
{
    let d = decimal(secs);
    let body = hash + seq!['\0'] + message + seq!['\0'] + d + seq!['\0'] + author;
    assert(free_of(d, '\0') && free_of(d, '\n')) by {
        if secs >= 0 {
            lemma_nat_decimal_digits(secs as nat);
            assert forall|j: int| 0 <= j < d.len() implies d[j] != '\0' && d[j] != '\n' by {
                assert(is_digit(d[j]));
            }
        } else {
            lemma_nat_decimal_digits((-secs) as nat);
            let s = nat_decimal((-secs) as nat);
            assert forall|j: int| 0 <= j < d.len() implies d[j] != '\0' && d[j] != '\n' by {
                if j > 0 {
                    assert(d[j] == s[j - 1]);
                    assert(is_digit(s[j - 1]));
                }
            }
        }
    }
    assert(free_of(body, '\n')) by {
        assert forall|j: int| 0 <= j < body.len() implies body[j] != '\n' by {
            let h = hash.len() as int;
            let m = message.len() as int;
            let k = d.len() as int;
            if j < h {
                assert(body[j] == hash[j]);
            } else if j == h || j == h + 1 + m || j == h + 2 + m + k {
                assert(body[j] == '\0');
            } else if j < h + 1 + m {
                assert(body[j] == message[j - h - 1]);
            } else if j < h + 2 + m + k {
                assert(body[j] == d[j - h - 2 - m]);
            } else {
                assert(body[j] == author[j - h - 3 - m - k]);
            }
        }
    }
    assert(body.last() != '\r') by {
        if author.len() > 0 {
            assert(body.last() == author.last());
        } else {
            assert(body.last() == '\0');
        }
    }
    lemma_single_line(body);
    let r1 = message + seq!['\0'] + d + seq!['\0'] + author;
    let r2 = d + seq!['\0'] + author;
    assert(body =~= hash + seq!['\0'] + r1);
    assert(r1 =~= message + seq!['\0'] + r2);
    lemma_split_first(hash, r1, '\0', 4);
    lemma_split_first(message, r2, '\0', 3);
    lemma_split_first(d, author, '\0', 2);
    let parts = splitn(body, 4, '\0');
    assert(parts =~= seq![hash, message, d, author]);
    lemma_parse_decimal(secs);
    let v = EntryView {
        hash,
        message,
        timestamp: secs * NANOS_PER_SEC,
        author,
        relative_time: relative_time(secs * NANOS_PER_SEC, now),
    };
    assert(reflog_entry(body, now) == Some(v));
    let f = |l: Seq<char>| reflog_entry(l, now);
    assert(seq![body].drop_last() =~= Seq::<Seq<char>>::empty());
    assert(seq![body].last() == body);
    assert(f(body) == Some(v));
    assert(Seq::<Seq<char>>::empty().filter_map(f) =~= Seq::<EntryView>::empty());
    assert(seq![body].filter_map(f) =~= seq![v]);
}

/// The creation instant read back from the name of a backup ref is the
/// instant the hard reset named it at, to the millisecond.
pub proof fn lemma_backup_name_records_creation(now: int, head: Seq<char>)
    requires
        valid_instant(now),
        now >= 0,
        valid_commit_hash(head),
    ensures
        backup_created_at(backup_ref_name(now, head)) == Some((now / 1000000) * 1000000),
{
    let ms = now / 1000000;
    let digits = decimal(ms);
    let name = backup_ref_name(now, head);
    let rest = digits + "-"@ + short_form(head);
    reveal_strlit("-");
    reveal_strlit("refs/git-time-machine/backups/");
    assert(name =~= backup_prefix() + rest);
    assert(name.take(backup_prefix().len() as int) =~= backup_prefix());
    assert(name.skip(backup_prefix().len() as int) =~= rest);
    lemma_nat_decimal_digits(ms as nat);
    assert(ms <= i64::MAX) by (nonlinear_arith)
        requires
            ms == now / 1000000,
            now < (MAX_SECS + 1) * 1000000000,
            now >= 0,
    ;
    assert forall|j: int| 0 <= j < digits.len() implies rest[j] != '-' by {
        assert(rest[j] == digits[j]);
        assert(is_digit(digits[j]));
    }
    assert(rest[digits.len() as int] == '-');
    lemma_find_char_is(rest, '-', digits.len() as int);
    let parts = splitn(rest, 2, '-');
    assert(parts =~= seq![rest.take(digits.len() as int)] + splitn(rest.skip(digits.len() as int + 1), 1, '-'));
    assert(rest.take(digits.len() as int) =~= digits);
    lemma_parse_decimal(ms);
    assert(MIN_SECS * 1000 <= ms <= MAX_SECS * 1000 + 999) by (nonlinear_arith)
        requires
            ms == now / 1000000,
            now < (MAX_SECS + 1) * 1000000000,
            now >= 0,
            MIN_SECS < 0,
    ;
}

/// `s` does not hold the character `c`.
pub open spec fn free_of(s: Seq<char>, c: char) -> bool {
    forall|j: int| 0 <= j < s.len() ==> s[j] != c
}

/// A hard reset's backup ref name holds no field separator and no line break.
proof fn lemma_backup_name_plain(now: int, head: Seq<char>)
    requires
        now >= 0,
        valid_commit_hash(head),
    ensures
        free_of(backup_ref_name(now, head), '\0'),
        free_of(backup_ref_name(now, head), '\n'),
{
    let ms = now / 1000000;
    lemma_nat_decimal_digits(ms as nat);
    reveal_strlit("-");
    reveal_strlit("refs/git-time-machine/backups/");
    let p = backup_prefix();
    let d = decimal(ms);
    let h = short_form(head);
    let name = backup_ref_name(now, head);
    assert(name =~= p + d + "-"@ + h);
    assert forall|j: int| 0 <= j < name.len() implies name[j] != '\0' && name[j] != '\n' by {
        if j < p.len() {
            assert(name[j] == p[j]);
        } else if j < p.len() + d.len() {
            assert(name[j] == d[j - p.len()]);
            assert(is_digit(d[j - p.len()]));
        } else if j == p.len() + d.len() {
            assert(name[j] == '-');
        } else {
            let k = j - p.len() - d.len() - 1;
            assert(name[j] == h[k]);
            assert(h[k] == head[k]);
            assert(is_hex_digit(head[k]));
        }
    }
}

/// The backup ref that a hard reset named at instant `now`, with `HEAD` at
/// `head`, is listed back from the line `git for-each-ref` prints for it
/// (`<name>\0<hash>\0<subject>` and a line feed) with that name, the commit
/// `hash` it holds, its subject and its creation time to the millisecond,
/// and aged as seen at `later`.
pub proof fn lemma_backup_listed_back(
    now: int,
    head: Seq<char>,
    hash: Seq<char>,
    subject: Seq<char>,
    later: int,
)
    requires
        valid_instant(now),
        now >= 0,
        valid_commit_hash(head),
        valid_commit_hash(hash),
        free_of(subject, '\n'),
        !(subject.len() > 0 && subject.last() == '\r'),
    ensures
        ({
            let name = backup_ref_name(now, head);
            let created = (now / 1000000) * 1000000;
            sort_newest_first(
                listed_backup_refs(name + seq!['\0'] + hash + seq!['\0'] + subject + seq!['\n'], later),
            ) == seq![
                BackupView {
                    name,
                    hash,
                    subject,
                    created_at: Some(created),
                    relative_time: relative_time(created, later),
                },
            ]
        }),
{
    let name = backup_ref_name(now, head);
    let created = (now / 1000000) * 1000000;
    lemma_backup_name_plain(now, head);
    lemma_backup_name_records_creation(now, head);
    let body = name + seq!['\0'] + hash + seq!['\0'] + subject;
    let line = body + seq!['\n'];
    assert forall|j: int| 0 <= j < hash.len() implies hash[j] != '\0' && hash[j] != '\n' by {
        assert(is_hex_digit(hash[j]));
    }
    // The listing is one line: the body.
    assert forall|j: int| 0 <= j < body.len() implies line[j] != '\n' by {
        assert(line[j] == body[j]);
        if j < name.len() {
            assert(body[j] == name[j]);
        } else if j == name.len() {
            assert(body[j] == '\0');
        } else if j < name.len() + 1 + hash.len() {
            assert(body[j] == hash[j - name.len() - 1]);
        } else if j == name.len() + 1 + hash.len() {
            assert(body[j] == '\0');
        } else {
            assert(body[j] == subject[j - name.len() - 2 - hash.len()]);
        }
    }
    lemma_find_char_is(line, '\n', body.len() as int);
    assert(line.take(body.len() as int) =~= body);
    assert(line.skip(body.len() as int + 1) =~= Seq::<char>::empty());
    assert(body.last() != '\r') by {
        if subject.len() > 0 {
            assert(body.last() == subject.last());
        } else {
            assert(body.last() == '\0');
        }
    }
    assert(strip_cr(body) == body);
    let b = body.len() as int;
    assert(line.len() > 0);
    assert(find_char(line, '\n') == b);
    assert(lines(line.skip(b + 1)) =~= Seq::<Seq<char>>::empty());
    assert(lines(line) == seq![strip_cr(line.take(b))] + lines(line.skip(b + 1)));
    assert(lines(line) =~= seq![body]);
    // Its three fields.
    assert forall|j: int| 0 <= j < name.len() implies body[j] != '\0' by {
        assert(body[j] == name[j]);
    }
    lemma_find_char_is(body, '\0', name.len() as int);
    assert(body.take(name.len() as int) =~= name);
    let rest = body.skip(name.len() as int + 1);
    assert(rest =~= hash + seq!['\0'] + subject);
    assert forall|j: int| 0 <= j < hash.len() implies rest[j] != '\0' by {
        assert(rest[j] == hash[j]);
    }
    lemma_find_char_is(rest, '\0', hash.len() as int);
    assert(rest.take(hash.len() as int) =~= hash);
    assert(rest.skip(hash.len() as int + 1) =~= subject);
    let parts = splitn(body, 3, '\0');
    assert(splitn(rest, 2, '\0') =~= seq![hash] + splitn(subject, 1, '\0'));
    assert(parts =~= seq![name, hash, subject]);
    let v = BackupView {
        name,
        hash,
        subject,
        created_at: Some(created),
        relative_time: relative_time(created, later),
    };
    assert(backup_ref_of_line(body, later) == Some(v));
    let f = |l: Seq<char>| backup_ref_of_line(l, later);
    assert(seq![body].drop_last() =~= Seq::<Seq<char>>::empty());
    assert(seq![body].last() == body);
    assert(f(body) == Some(v));
    assert(Seq::<Seq<char>>::empty().filter_map(f) =~= Seq::<BackupView>::empty());
    assert(seq![body].filter_map(f) =~= seq![v]);
    assert(listed_backup_refs(line, later) =~= seq![v]);
    let e = Seq::<BackupView>::empty();
    assert(seq![v].drop_last() =~= e);
    assert(sort_newest_first(e) == e);
    assert(insertion_point(e, v) == 0);
    assert(e.insert(0, v) =~= seq![v]);
}

} // verus!
