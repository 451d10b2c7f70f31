//! Decisions and texts of the views: which commits a search shows, the
//! conflict banner, long sidebar lists and their headers, the sidebar status
//! line, blame cells, conventional-commit prefixes and keyboard focus.
use vstd::prelude::*;
use vstd::utf8::{decode_utf8, encode_utf8};

use crate::models::{DiffFile, RepoStatus, StashEntry, SubmoduleInfo};
use crate::repo::{BranchInfo, WorktreeInfo};
use crate::repo::{str_eq, trimmed};
use crate::text::{
    chars_of, decimal, push_all, push_decimal, push_range, starts_with, starts_with_text, string_of, trim,
};

verus! {

broadcast use vstd::string::group_string_axioms;

// ---------------------------------------------------------------------------
// Commit search
// ---------------------------------------------------------------------------

/// The Unicode lower-case form of a text, as `str::to_lowercase` computes it.
pub uninterp spec fn lowercase(s: Seq<char>) -> Seq<char>;

/// `str::to_lowercase`. The contract names its result: the lower-case
/// mapping of Unicode, which depends on the text alone.
#[verifier::external_body]
fn to_lowercase(s: &str) -> (r: String)
    ensures
        r@ == lowercase(s@),
{
    s.to_lowercase()
}

/// Whether `needle` occurs in `hay`.
pub open spec fn occurs_in(needle: Seq<char>, hay: Seq<char>) -> bool {
    exists|i: int|
        0 <= i <= hay.len() - needle.len() && #[trigger] hay.subrange(i, i + needle.len()) == needle
}

/// Whether `needle` occurs in `hay` at position `i`.
fn occurs_at(hay: &Vec<char>, needle: &Vec<char>, i: usize) -> (r: bool)
    requires
        i + needle.len() <= hay.len(),
    ensures
        r == (hay@.subrange(i as int, i + needle.len()) == needle@),
{
    let mut k: usize = 0;
    while k < needle.len()
        invariant
            i + needle.len() <= hay.len(),
            k <= needle.len(),
            forall|t: int| 0 <= t < k ==> hay@[i + t] == needle@[t],
        decreases needle.len() - k,
    {
        if hay[i + k] != needle[k] {
            assert(hay@.subrange(i as int, i + needle.len())[k as int] != needle@[k as int]);
            return false;
        }
        k = k + 1;
    }
    assert(hay@.subrange(i as int, i + needle.len()) =~= needle@);
    true
}

/// Whether `needle` occurs in `hay`.
fn contains_text(hay: &Vec<char>, needle: &Vec<char>) -> (r: bool)
    ensures
        r == occurs_in(needle@, hay@),
{
    if needle.len() > hay.len() {
        return false;
    }
    let last = hay.len() - needle.len();
    let mut i: usize = 0;
    loop
        invariant
            last == hay.len() - needle.len(),
            i <= last,
            forall|j: int| 0 <= j < i ==> #[trigger] hay@.subrange(j, j + needle.len()) != needle@,
        decreases last - i,
    {
        if occurs_at(hay, needle, i) {
            return true;
        }
        if i == last {
            return false;
        }
        i = i + 1;
    }
}

/// Whether a commit row stays visible under the search `query`: always when
/// the query is blank or the row is the "load more" row; otherwise when the
/// lower-cased query occurs in the lower-cased summary, short id or id.
pub open spec fn commit_matches(
    query: Seq<char>,
    summary: Seq<char>,
    short_id: Seq<char>,
    id: Seq<char>,
    is_sentinel: bool,
) -> bool {
    let q = lowercase(trim(query));
    ||| q.len() == 0
    ||| is_sentinel
    ||| occurs_in(q, lowercase(summary))
    ||| occurs_in(q, lowercase(short_id))
    ||| occurs_in(q, lowercase(id))
}

/// The commit-list search: whether a row shows under `query`.
pub fn commit_matches_filter(query: &str, summary: &str, short_id: &str, id: &str, is_sentinel: bool) -> (r: bool)
    ensures
        r == commit_matches(query@, summary@, short_id@, id@, is_sentinel),
{
    let t = trimmed(query);
    let q = to_lowercase(t.as_str());
    if q.as_str().is_empty() {
        return true;
    }
    if is_sentinel {
        return true;
    }
    let qv = chars_of(q.as_str());
    let s = to_lowercase(summary);
    if contains_text(&chars_of(s.as_str()), &qv) {
        return true;
    }
    let h = to_lowercase(short_id);
    if contains_text(&chars_of(h.as_str()), &qv) {
        return true;
    }
    let f = to_lowercase(id);
    contains_text(&chars_of(f.as_str()), &qv)
}


/// The window's commit search (the search bar over the history): the
/// lower-cased query, as typed, is empty or occurs in the lower-cased
/// summary, author name or short id.
pub open spec fn commit_search_matches(query: Seq<char>, summary: Seq<char>, author: Seq<char>, short_id: Seq<char>) -> bool {
    let q = lowercase(query);
    ||| q.len() == 0
    ||| occurs_in(q, lowercase(summary))
    ||| occurs_in(q, lowercase(author))
    ||| occurs_in(q, lowercase(short_id))
}

/// Whether a commit shows under the window's search query.
pub fn commit_matches_search(query: &str, summary: &str, author: &str, short_id: &str) -> (r: bool)
    ensures
        r == commit_search_matches(query@, summary@, author@, short_id@),
{
    let q = to_lowercase(query);
    if q.as_str().is_empty() {
        return true;
    }
    let qv = chars_of(q.as_str());
    let s = to_lowercase(summary);
    if contains_text(&chars_of(s.as_str()), &qv) {
        return true;
    }
    let a = to_lowercase(author);
    if contains_text(&chars_of(a.as_str()), &qv) {
        return true;
    }
    let h = to_lowercase(short_id);
    contains_text(&chars_of(h.as_str()), &qv)
}

// ---------------------------------------------------------------------------
// Conflict banner
// ---------------------------------------------------------------------------

/// An operation that can be continued or aborted.
#[derive(Debug, Clone, Copy, PartialEq, Eq, Structural)]
pub enum GitOperation {
    Merge,
    Rebase,
}

/// The banner over the changes view while a merge or rebase is in progress
/// or files are in conflict.
#[derive(Debug, Clone)]
pub struct ConflictBanner {
    pub message: String,
    /// The operation its Continue and Abort buttons act on, when there are
    /// buttons.
    pub operation: Option<GitOperation>,
}

pub open spec fn banner_message(has_conflicts: bool, is_rebasing: bool) -> Seq<char> {
    if has_conflicts {
        "Conflicts detected — resolve files and mark as resolved"@
    } else if is_rebasing {
        "Rebase in progress"@
    } else {
        "Merge in progress"@
    }
}

/// The banner to show: none when there is no conflict and neither a merge
/// nor a rebase in progress. Continue and Abort act on the rebase when one
/// is in progress, else on the merge.
pub fn conflict_banner(has_conflicts: bool, is_merging: bool, is_rebasing: bool) -> (r: Option<ConflictBanner>)
    ensures
        r is None <==> (!has_conflicts && !is_merging && !is_rebasing),
        r matches Some(b) ==> b.message@ == banner_message(has_conflicts, is_rebasing) && b.operation
            == if is_merging || is_rebasing {
            Some(
                if is_rebasing {
                    GitOperation::Rebase
                } else {
                    GitOperation::Merge
                },
            )
        } else {
            None
        },
{
    if !has_conflicts && !is_merging && !is_rebasing {
        return None;
    }
    let msg = if has_conflicts {
        "Conflicts detected — resolve files and mark as resolved"
    } else if is_rebasing {
        "Rebase in progress"
    } else {
        "Merge in progress"
    };
    let operation = if is_merging || is_rebasing {
        Some(
            if is_rebasing {
                GitOperation::Rebase
            } else {
                GitOperation::Merge
            },
        )
    } else {
        None
    };
    Some(ConflictBanner { message: msg.to_owned(), operation })
}

// ---------------------------------------------------------------------------
// Long sidebar lists
// ---------------------------------------------------------------------------

/// How many of `rows` rows a list limited to `limit` rows hides: none for
/// the limit 0; the rows past the limit otherwise.
pub open spec fn hidden_rows(rows: nat, limit: u32) -> nat {
    if limit == 0 {
        0
    } else if rows > limit {
        (rows - limit) as nat
    } else {
        0
    }
}

/// The hidden rows of a limited list and the label of the row that shows
/// them (`Show all (<n> more)`); none when no row is hidden.
pub fn apply_row_limit(rows: usize, limit: u32) -> (r: Option<(usize, String)>)
    ensures
        r is None <==> hidden_rows(rows as nat, limit) == 0,
        r matches Some((n, label)) ==> n == hidden_rows(rows as nat, limit) && label@ == "Show all ("@
            + decimal(n as nat) + " more)"@,
{
    let hidden: usize = if limit == 0 {
        0
    } else if rows > limit as usize {
        rows - limit as usize
    } else {
        0
    };
    if hidden == 0 {
        return None;
    }
    let mut out: Vec<char> = Vec::new();
    push_all(&mut out, &chars_of("Show all ("));
    push_decimal(&mut out, hidden as u64);
    push_all(&mut out, &chars_of(" more)"));
    Some((hidden, string_of(&out)))
}

// ---------------------------------------------------------------------------
// Blame cells
// ---------------------------------------------------------------------------

/// A text cut to fit `max` bytes: its first `max - 1` bytes and an
/// ellipsis when it is longer.
pub open spec fn truncated(s: Seq<char>, max: nat) -> Seq<char> {
    let b = encode_utf8(s);
    if b.len() > max {
        decode_utf8(b.subrange(0, max - 1)) + seq!['…']
    } else {
        s
    }
}

/// Cuts a blame cell (an author name) to `max` bytes. The cut must fall
/// between characters.
pub fn truncate(s: &str, max: usize) -> (r: String)
    requires
        encode_utf8(s@).len() > max ==> 1 <= max && vstd::utf8::is_char_boundary(encode_utf8(s@), max - 1),
    ensures
        r@ == truncated(s@, max as nat),
{
    let n = s.as_bytes().len();
    if n > max {
        let (head, _) = s.split_at(max - 1);
        proof {
            vstd::utf8::encode_utf8_decode_utf8(head@);
            assert(encode_utf8(head@) == encode_utf8(s@).subrange(0, max - 1));
        }
        let mut out = chars_of(head);
        out.push('…');
        string_of(&out)
    } else {
        s.to_owned()
    }
}


// ---------------------------------------------------------------------------
// Conventional-commit prefixes
// ---------------------------------------------------------------------------

/// The beginnings by which a commit message is recognised as already having
/// a conventional-commit type.
pub open spec fn prefix_patterns() -> Seq<Seq<char>> {
    seq![
        "feat: "@, "fix: "@, "docs: "@, "style: "@, "refactor: "@, "perf: "@, "test: "@,
        "build: "@, "ci: "@, "chore: "@, "revert: "@, "feat("@, "fix("@, "docs("@, "style("@,
        "refactor("@, "perf("@, "test("@, "build("@, "ci("@, "chore("@, "revert("@,
    ]
}

/// Whether a message starts with a known conventional-commit type.
pub open spec fn has_known_prefix(t: Seq<char>) -> bool {
    exists|k: int| 0 <= k < prefix_patterns().len() && starts_with(t, #[trigger] prefix_patterns()[k])
}

/// The position of the first `": "` in `t` at or after `i`, counted in
/// characters.
pub open spec fn colon_space(t: Seq<char>, i: int) -> Option<int>
    decreases t.len() - i,
{
    if i < 0 || i + 1 >= t.len() {
        None
    } else if t[i] == ':' && t[i + 1] == ' ' {
        Some(i)
    } else {
        colon_space(t, i + 1)
    }
}

/// A message with a conventional-commit type put in front. When the message
/// already starts with a known type and holds a `": "`, everything up to and
/// including the first `": "` is replaced (measured and removed in
/// characters).
pub open spec fn with_prefix(text: Seq<char>, prefix: Seq<char>) -> Seq<char> {
    match colon_space(text, 0) {
        Some(c) => if has_known_prefix(text) {
            prefix + text.subrange(c + 2, text.len() as int)
        } else {
            prefix + text
        },
        None => prefix + text,
    }
}


fn known_prefix(t: &Vec<char>) -> (r: bool)
    ensures
        r == has_known_prefix(t@),
{
    let patterns: Vec<&str> = vec![
        "feat: ", "fix: ", "docs: ", "style: ", "refactor: ", "perf: ", "test: ", "build: ",
        "ci: ", "chore: ", "revert: ", "feat(", "fix(", "docs(", "style(", "refactor(", "perf(",
        "test(", "build(", "ci(", "chore(", "revert(",
    ];
    assert(patterns@.map_values(|p: &str| p@) == prefix_patterns());
    let mut k: usize = 0;
    while k < patterns.len()
        invariant
            k <= patterns.len(),
            patterns@.map_values(|p: &str| p@) == prefix_patterns(),
            forall|j: int| 0 <= j < k ==> !starts_with(t@, #[trigger] prefix_patterns()[j]),
        decreases patterns.len() - k,
    {
        assert(patterns@.map_values(|p: &str| p@)[k as int] == patterns@[k as int]@);
        if starts_with_text(t, patterns[k]) {
            assert(starts_with(t@, prefix_patterns()[k as int]));
            return true;
        }
        k = k + 1;
    }
    false
}

fn find_colon_space(t: &Vec<char>) -> (r: Option<usize>)
    ensures
        match r {
            Some(c) => colon_space(t@, 0) == Some(c as int) && c + 2 <= t.len(),
            None => colon_space(t@, 0) is None,
        },
{
    let mut i: usize = 0;
    while i < t.len()
        invariant
            i <= t.len(),
            colon_space(t@, 0) == colon_space(t@, i as int),
        decreases t.len() - i,
    {
        if i + 1 < t.len() && t[i] == ':' && t[i + 1] == ' ' {
            return Some(i);
        }
        i = i + 1;
    }
    None
}

/// Puts a conventional-commit type (`feat: `, `fix(scope): `, ...) in front
/// of a commit message, replacing the type it already has.
pub fn insert_prefix(text: &str, prefix: &str) -> (r: String)
    ensures
        r@ == with_prefix(text@, prefix@),
{
    let t = chars_of(text);
    let found = find_colon_space(&t);
    let mut out = chars_of(prefix);
    match found {
        Some(c) => {
            if known_prefix(&t) {
                push_range(&mut out, &t, c + 2, t.len());
            } else {
                push_all(&mut out, &t);
            }
        },
        None => {
            push_all(&mut out, &t);
        },
    }
    string_of(&out)
}


// ---------------------------------------------------------------------------
// Sidebar status
// ---------------------------------------------------------------------------

/// `<n> <word>` when `n` is not zero.
pub open spec fn count_part(n: nat, word: Seq<char>) -> Seq<Seq<char>> {
    if n > 0 {
        seq![decimal(n) + " "@ + word]
    } else {
        Seq::empty()
    }
}

/// Texts joined with `, `.
pub open spec fn joined(parts: Seq<Seq<char>>) -> Seq<char>
    decreases parts.len(),
{
    if parts.len() == 0 {
        Seq::empty()
    } else if parts.len() == 1 {
        parts[0]
    } else {
        joined(parts.drop_last()) + ", "@ + parts.last()
    }
}

/// The status line of the sidebar: the counts of modified, staged and
/// untracked files that are not zero, or `Clean`; empty when the status is
/// unknown.
pub open spec fn status_line(status: Option<RepoStatus>) -> Seq<char> {
    match status {
        Some(s) => {
            let parts = count_part(s.unstaged@.len(), "modified"@) + count_part(s.staged@.len(), "staged"@)
                + count_part(s.untracked@.len(), "untracked"@);
            if parts.len() == 0 {
                "Clean"@
            } else {
                joined(parts)
            }
        },
        None => Seq::empty(),
    }
}

fn push_count(out: &mut Vec<char>, first: bool, n: usize, word: &str) -> (r: bool)
    ensures
        r == (first && n == 0),
        final(out)@ == if n == 0 {
            old(out)@
        } else if first {
            old(out)@ + decimal(n as nat) + " "@ + word@
        } else {
            old(out)@ + ", "@ + decimal(n as nat) + " "@ + word@
        },
{
    if n == 0 {
        return first;
    }
    if !first {
        push_all(out, &chars_of(", "));
    }
    push_decimal(out, n as u64);
    push_all(out, &chars_of(" "));
    push_all(out, &chars_of(word));
    false
}

/// Joining parts after adding the part for a count.
proof fn lemma_joined_count(parts: Seq<Seq<char>>, n: nat, word: Seq<char>)
    ensures
        joined(parts + count_part(n, word)) == if n == 0 {
            joined(parts)
        } else if parts.len() == 0 {
            decimal(n) + " "@ + word
        } else {
            joined(parts) + ", "@ + decimal(n) + " "@ + word
        },
{
    if n == 0 {
        assert(parts + count_part(n, word) =~= parts);
    } else {
        let x = decimal(n) + " "@ + word;
        let q = parts + count_part(n, word);
        assert(q =~= parts.push(x));
        assert(q.drop_last() =~= parts);
        if parts.len() == 0 {
            assert(q.len() == 1);
        }
    }
}

/// The status line of the sidebar for a repository.
#[verifier::spinoff_prover]
pub fn status_summary(status: Option<&RepoStatus>) -> (r: String)
    ensures
        r@ == status_line(match status {
            Some(s) => Some(*s),
            None => None,
        }),
{
    match status {
        Some(s) => {
            let mut out: Vec<char> = Vec::new();
            let ghost p1 = count_part(s.unstaged@.len(), "modified"@);
            let ghost p2 = count_part(s.staged@.len(), "staged"@);
            let ghost p3 = count_part(s.untracked@.len(), "untracked"@);
            proof {
                lemma_joined_count(Seq::empty(), s.unstaged@.len(), "modified"@);
                assert(Seq::<Seq<char>>::empty() + p1 =~= p1);
                lemma_joined_count(p1, s.staged@.len(), "staged"@);
                lemma_joined_count(p1 + p2, s.untracked@.len(), "untracked"@);
            }
            let first = push_count(&mut out, true, s.unstaged.len(), "modified");
            let first = push_count(&mut out, first, s.staged.len(), "staged");
            let first = push_count(&mut out, first, s.untracked.len(), "untracked");
            assert(out@ == joined(p1 + p2 + p3));
            if first {
                string_of(&chars_of("Clean"))
            } else {
                string_of(&out)
            }
        },
        None => String::new(),
    }
}

// ---------------------------------------------------------------------------
// Keyboard focus and section headers
// ---------------------------------------------------------------------------

/// The panel that gets the focus next among `count` panels when the focus
/// is on panel `current` and moves forward or back: forward wraps past the
/// last panel to the first, back from the first goes to the last.
pub fn next_focus_panel(current: u8, count: usize, forward: bool) -> (r: usize)
    requires
        count > 0,
    ensures
        r == if forward {
            ((current + 1) % (count as int)) as usize
        } else if current == 0 {
            (count - 1) as usize
        } else {
            (current - 1) as usize
        },
{
    let idx = current as usize;
    if forward {
        (idx + 1) % count
    } else if idx == 0 {
        count - 1
    } else {
        idx - 1
    }
}

/// The header of a sidebar section: shown only when the section has rows,
/// labelled with its title and row count, and found by a widget name made
/// from the lower-cased title.
#[derive(Debug, Clone)]
pub struct SectionHeader {
    pub visible: bool,
    pub label: String,
    pub widget_name: String,
}

pub fn update_section_header(title: &str, count: usize) -> (r: SectionHeader)
    ensures
        r.visible == (count > 0),
        r.label@ == title@ + " ("@ + decimal(count as nat) + ")"@,
        r.widget_name@ == "section-label-"@ + lowercase(title@),
{
    let mut label = chars_of(title);
    push_all(&mut label, &chars_of(" ("));
    push_decimal(&mut label, count as u64);
    push_all(&mut label, &chars_of(")"));
    let mut name = chars_of("section-label-");
    let lower = to_lowercase(title);
    push_all(&mut name, &chars_of(lower.as_str()));
    SectionHeader { visible: count > 0, label: string_of(&label), widget_name: string_of(&name) }
}


// ---------------------------------------------------------------------------
// Sidebar lists
// ---------------------------------------------------------------------------

/// A branch row of the sidebar.
#[derive(Debug, Clone)]
pub struct BranchRow {
    pub name: String,
    /// The style of the branch icon: `success` for the head, else `dim-label`.
    pub icon_class: &'static str,
    /// The check mark of the head branch.
    pub check_mark: bool,
    /// `▲<ahead> ▼<behind>` for a local branch that differs from its upstream.
    pub badge: Option<String>,
}

/// The row of a branch: its name, a highlighted icon and a check mark when
/// it is the head, and its ahead/behind counts when it is local and not
/// even with its upstream.
pub open spec fn branch_row_ok(b: BranchInfo, r: BranchRow) -> bool {
    &&& r.name@ == b.name@
    &&& r.icon_class@ == if b.is_head {
        "success"@
    } else {
        "dim-label"@
    }
    &&& r.check_mark == b.is_head
    &&& match r.badge {
        Some(t) => !b.is_remote && (b.ahead > 0 || b.behind > 0) && t@ == "▲"@ + decimal(b.ahead as nat) + " ▼"@
            + decimal(b.behind as nat),
        None => !(!b.is_remote && (b.ahead > 0 || b.behind > 0)),
    }
}

fn branch_row(b: &BranchInfo) -> (r: BranchRow)
    ensures
        branch_row_ok(*b, r),
{
    let badge = if !b.is_remote && (b.ahead > 0 || b.behind > 0) {
        let mut t = chars_of("▲");
        push_decimal(&mut t, b.ahead as u64);
        push_all(&mut t, &chars_of(" ▼"));
        push_decimal(&mut t, b.behind as u64);
        Some(string_of(&t))
    } else {
        None
    };
    BranchRow {
        name: b.name.clone(),
        icon_class: if b.is_head {
            "success"
        } else {
            "dim-label"
        },
        check_mark: b.is_head,
        badge,
    }
}

/// The first `n` branches that are remote-tracking (`remote`) or local, in
/// order.
pub open spec fn branches_where(bs: Seq<BranchInfo>, remote: bool, n: int) -> Seq<BranchInfo>
    decreases n,
{
    if n <= 0 {
        Seq::empty()
    } else if bs[n - 1].is_remote == remote {
        branches_where(bs, remote, n - 1).push(bs[n - 1])
    } else {
        branches_where(bs, remote, n - 1)
    }
}

/// The branch rows of the sidebar: the local branches in one list and the
/// remote-tracking ones in the other, each in the order given.
pub fn populate_branches(branches: &[BranchInfo]) -> (r: (Vec<BranchRow>, Vec<BranchRow>))
    ensures
        r.0@.len() == branches_where(branches@, false, branches@.len() as int).len(),
        r.1@.len() == branches_where(branches@, true, branches@.len() as int).len(),
        forall|k: int|
            0 <= k < r.0@.len() ==> branch_row_ok(
                branches_where(branches@, false, branches@.len() as int)[k],
                #[trigger] r.0@[k],
            ),
        forall|k: int|
            0 <= k < r.1@.len() ==> branch_row_ok(
                branches_where(branches@, true, branches@.len() as int)[k],
                #[trigger] r.1@[k],
            ),
{
    let mut local: Vec<BranchRow> = Vec::new();
    let mut remote: Vec<BranchRow> = Vec::new();
    let mut i: usize = 0;
    while i < branches.len()
        invariant
            i <= branches.len(),
            local@.len() == branches_where(branches@, false, i as int).len(),
            remote@.len() == branches_where(branches@, true, i as int).len(),
            forall|k: int|
                0 <= k < local@.len() ==> branch_row_ok(
                    branches_where(branches@, false, i as int)[k],
                    #[trigger] local@[k],
                ),
            forall|k: int|
                0 <= k < remote@.len() ==> branch_row_ok(
                    branches_where(branches@, true, i as int)[k],
                    #[trigger] remote@[k],
                ),
        decreases branches.len() - i,
    {
        let b = &branches[i];
        let row = branch_row(b);
        if b.is_remote {
            let ghost before = remote@;
            remote.push(row);
            proof {
                assert forall|k: int| 0 <= k < remote@.len() implies branch_row_ok(
                    branches_where(branches@, true, i + 1)[k],
                    #[trigger] remote@[k],
                ) by {
                    if k < before.len() {
                        assert(remote@[k] == before[k]);
                    }
                }
            }
        } else {
            let ghost before = local@;
            local.push(row);
            proof {
                assert forall|k: int| 0 <= k < local@.len() implies branch_row_ok(
                    branches_where(branches@, false, i + 1)[k],
                    #[trigger] local@[k],
                ) by {
                    if k < before.len() {
                        assert(local@[k] == before[k]);
                    }
                }
            }
        }
        i = i + 1;
    }
    (local, remote)
}

/// A worktree row of the sidebar.
#[derive(Debug, Clone)]
pub struct WorktreeRow {
    pub icon: &'static str,
    pub name: String,
    /// The path, shown as the tooltip.
    pub tooltip: String,
    /// The button that opens a worktree other than the current one.
    pub open_button: bool,
}

/// The worktree rows of the sidebar: none when the repository has only its
/// main worktree; otherwise one per worktree, the current one marked.
pub fn populate_worktrees(worktrees: &[WorktreeInfo]) -> (r: Vec<WorktreeRow>)
    ensures
        worktrees@.len() <= 1 ==> r@.len() == 0,
        worktrees@.len() > 1 ==> r@.len() == worktrees@.len(),
        worktrees@.len() > 1 ==> forall|k: int|
            0 <= k < r@.len() ==> {
                let w = worktrees@[k];
                &&& (#[trigger] r@[k]).icon@ == if w.is_current {
                    "object-select-symbolic"@
                } else {
                    "folder-symbolic"@
                }
                &&& r@[k].name@ == w.name@
                &&& r@[k].tooltip@ == w.path@
                &&& r@[k].open_button == !w.is_current
            },
{
    let mut rows: Vec<WorktreeRow> = Vec::new();
    if worktrees.len() <= 1 {
        return rows;
    }
    let mut i: usize = 0;
    while i < worktrees.len()
        invariant
            i <= worktrees.len(),
            worktrees@.len() > 1,
            rows@.len() == i,
            forall|k: int|
                0 <= k < i ==> {
                    let w = worktrees@[k];
                    &&& (#[trigger] rows@[k]).icon@ == if w.is_current {
                        "object-select-symbolic"@
                    } else {
                        "folder-symbolic"@
                    }
                    &&& rows@[k].name@ == w.name@
                    &&& rows@[k].tooltip@ == w.path@
                    &&& rows@[k].open_button == !w.is_current
                },
        decreases worktrees.len() - i,
    {
        let w = &worktrees[i];
        let ghost before = rows@;
        rows.push(
            WorktreeRow {
                icon: if w.is_current {
                    "object-select-symbolic"
                } else {
                    "folder-symbolic"
                },
                name: w.name.clone(),
                tooltip: w.path.clone(),
                open_button: !w.is_current,
            },
        );
        assert forall|k: int| 0 <= k < i + 1 implies {
            let w = worktrees@[k];
            &&& (#[trigger] rows@[k]).icon@ == if w.is_current {
                "object-select-symbolic"@
            } else {
                "folder-symbolic"@
            }
            &&& rows@[k].name@ == w.name@
            &&& rows@[k].tooltip@ == w.path@
            &&& rows@[k].open_button == !w.is_current
        } by {
            if k < i {
                assert(rows@[k] == before[k]);
            }
        }
        i = i + 1;
    }
    rows
}

/// A stash row of the sidebar. Its Apply and Drop buttons act on `index`.
#[derive(Debug, Clone)]
pub struct StashRow {
    /// `<index>: <message>`.
    pub label: String,
    pub tooltip: String,
    pub index: usize,
}

/// The row of a stash entry.
pub open spec fn stash_row_ok(e: StashEntry, r: StashRow) -> bool {
    &&& r.label@ == decimal(e.index as nat) + ": "@ + e.message@
    &&& r.tooltip@ == e.message@
    &&& r.index == e.index
}

/// The stash rows of the sidebar, one per entry, in order.
pub fn populate_stashes(entries: &[StashEntry]) -> (r: Vec<StashRow>)
    ensures
        r@.len() == entries@.len(),
        forall|k: int| 0 <= k < r@.len() ==> stash_row_ok(entries@[k], #[trigger] r@[k]),
{
    let mut rows: Vec<StashRow> = Vec::new();
    let mut i: usize = 0;
    while i < entries.len()
        invariant
            i <= entries.len(),
            rows@.len() == i,
            forall|k: int| 0 <= k < i ==> stash_row_ok(entries@[k], #[trigger] rows@[k]),
        decreases entries.len() - i,
    {
        let e = &entries[i];
        let mut t: Vec<char> = Vec::new();
        push_decimal(&mut t, e.index as u64);
        push_all(&mut t, &chars_of(": "));
        push_all(&mut t, &chars_of(e.message.as_str()));
        let ghost before = rows@;
        rows.push(StashRow { label: string_of(&t), tooltip: e.message.clone(), index: e.index });
        assert forall|k: int| 0 <= k < i + 1 implies stash_row_ok(entries@[k], #[trigger] rows@[k]) by {
            if k < i {
                assert(rows@[k] == before[k]);
            }
        }
        i = i + 1;
    }
    rows
}

/// A submodule row of the sidebar. Its Update button updates the submodule
/// called `name`.
#[derive(Debug, Clone)]
pub struct SubmoduleRow {
    pub icon: &'static str,
    pub name: String,
    /// The URL, shown as the tooltip.
    pub tooltip: String,
    /// The `not init` caption of a submodule that is not initialised.
    pub not_init: bool,
}

/// The row of a submodule.
pub open spec fn submodule_row_ok(m: SubmoduleInfo, r: SubmoduleRow) -> bool {
    &&& r.icon@ == if m.is_initialized {
        "folder-remote-symbolic"@
    } else {
        "folder-symbolic"@
    }
    &&& r.name@ == m.name@
    &&& r.tooltip@ == m.url@
    &&& r.not_init == !m.is_initialized
}

/// The submodule rows of the sidebar, one per submodule, in order.
pub fn populate_submodules(submodules: &[SubmoduleInfo]) -> (r: Vec<SubmoduleRow>)
    ensures
        r@.len() == submodules@.len(),
        forall|k: int| 0 <= k < r@.len() ==> submodule_row_ok(submodules@[k], #[trigger] r@[k]),
{
    let mut rows: Vec<SubmoduleRow> = Vec::new();
    let mut i: usize = 0;
    while i < submodules.len()
        invariant
            i <= submodules.len(),
            rows@.len() == i,
            forall|k: int| 0 <= k < i ==> submodule_row_ok(submodules@[k], #[trigger] rows@[k]),
        decreases submodules.len() - i,
    {
        let m = &submodules[i];
        let ghost before = rows@;
        rows.push(
            SubmoduleRow {
                icon: if m.is_initialized {
                    "folder-remote-symbolic"
                } else {
                    "folder-symbolic"
                },
                name: m.name.clone(),
                tooltip: m.url.clone(),
                not_init: !m.is_initialized,
            },
        );
        assert forall|k: int| 0 <= k < i + 1 implies submodule_row_ok(
            submodules@[k],
            #[trigger] rows@[k],
        ) by {
            if k < i {
                assert(rows@[k] == before[k]);
            }
        }
        i = i + 1;
    }
    rows
}

/// A row of the stash popover: `stash@{<index>}` over the message, with a
/// Pop button and a Drop button that acts on `drop_index`.
#[derive(Debug, Clone)]
pub struct StashPopoverRow {
    pub title: String,
    pub subtitle: String,
    pub drop_index: usize,
}

/// What the stash popover shows under its `Stash List` heading.
#[derive(Debug, Clone)]
pub enum StashPopoverBody {
    /// A dimmed notice.
    Notice(&'static str),
    /// One row per stash entry.
    Rows(Vec<StashPopoverRow>),
    /// Nothing: the repository could not be opened again.
    Blank,
}

/// The row of a stash entry in the popover.
pub open spec fn stash_popover_row_ok(e: StashEntry, r: StashPopoverRow) -> bool {
    &&& r.title@ == "stash@{"@ + decimal(e.index as nat) + "}"@
    &&& r.subtitle@ == e.message@
    &&& r.drop_index == e.index
}

/// The body of the stash popover. `repo_selected` tells whether a
/// repository is open, `reopened` whether it could be opened again to read
/// its stashes, and `entries` the stash list, `None` where reading it
/// failed.
pub fn stash_popover_body(repo_selected: bool, reopened: bool, entries: Option<&[StashEntry]>) -> (r:
    StashPopoverBody)
    ensures
        !repo_selected ==> r == StashPopoverBody::Notice("No repository selected"),
        repo_selected && !reopened ==> r is Blank,
        repo_selected && reopened && (entries is None || entries->0@.len() == 0) ==> r
            == StashPopoverBody::Notice("No stashes"),
        repo_selected && reopened && entries is Some && entries->0@.len() > 0 ==> match r {
            StashPopoverBody::Rows(rows) => rows@.len() == entries->0@.len() && forall|k: int|
                0 <= k < rows@.len() ==> stash_popover_row_ok(entries->0@[k], #[trigger] rows@[k]),
            _ => false,
        },
{
    if !repo_selected {
        return StashPopoverBody::Notice("No repository selected");
    }
    if !reopened {
        return StashPopoverBody::Blank;
    }
    match entries {
        Some(es) if es.len() > 0 => {
            let mut rows: Vec<StashPopoverRow> = Vec::new();
            let mut i: usize = 0;
            while i < es.len()
                invariant
                    i <= es.len(),
                    rows@.len() == i,
                    forall|k: int| 0 <= k < i ==> stash_popover_row_ok(es@[k], #[trigger] rows@[k]),
                decreases es.len() - i,
            {
                let e = &es[i];
                let mut t = chars_of("stash@{");
                push_decimal(&mut t, e.index as u64);
                push_all(&mut t, &chars_of("}"));
                let ghost before = rows@;
                rows.push(
                    StashPopoverRow {
                        title: string_of(&t),
                        subtitle: e.message.clone(),
                        drop_index: e.index,
                    },
                );
                assert forall|k: int| 0 <= k < i + 1 implies stash_popover_row_ok(
                    es@[k],
                    #[trigger] rows@[k],
                ) by {
                    if k < i {
                        assert(rows@[k] == before[k]);
                    }
                }
                i = i + 1;
            }
            StashPopoverBody::Rows(rows)
        },
        _ => StashPopoverBody::Notice("No stashes"),
    }
}

// ---------------------------------------------------------------------------
// Branch comparison
// ---------------------------------------------------------------------------

/// The entry that a branch picker first selects: the position of the
/// branch called `initial`, when there is one (else the picker keeps its
/// own default).
pub fn initial_selection(branches: &[BranchInfo], initial: Option<&str>) -> (r: Option<usize>)
    ensures
        match initial {
            None => r is None,
            Some(n) => match r {
                Some(k) => k < branches@.len() && branches@[k as int].name@ == n@ && forall|j: int|
                    0 <= j < k ==> branches@[j].name@ != n@,
                None => forall|j: int| 0 <= j < branches@.len() ==> branches@[j].name@ != n@,
            },
        },
{
    match initial {
        None => None,
        Some(n) => {
            let mut k: usize = 0;
            while k < branches.len()
                invariant
                    k <= branches.len(),
                    initial == Some(n),
                    forall|j: int| 0 <= j < k ==> branches@[j].name@ != n@,
                decreases branches.len() - k,
            {
                if str_eq(branches[k].name.as_str(), n) {
                    return Some(k);
                }
                k = k + 1;
            }
            None
        },
    }
}

/// The name of the branch at `selected`, empty when there is none.
pub open spec fn picked_name(branches: Seq<BranchInfo>, selected: int) -> Seq<char> {
    if 0 <= selected < branches.len() {
        branches[selected].name@
    } else {
        Seq::empty()
    }
}

/// The pair of branches that the Compare button compares: the base and
/// target picked, provided both are named and they differ.
pub fn compare_pick(branches: &[BranchInfo], base: u32, target: u32) -> (r: Option<(String, String)>)
    ensures
        ({
            let b = picked_name(branches@, base as int);
            let t = picked_name(branches@, target as int);
            match r {
                Some(p) => p.0@ == b && p.1@ == t && b.len() > 0 && t.len() > 0 && b != t,
                None => !(b.len() > 0 && t.len() > 0 && b != t),
            }
        }),
{
    let b = if (base as usize) < branches.len() {
        branches[base as usize].name.clone()
    } else {
        String::new()
    };
    let t = if (target as usize) < branches.len() {
        branches[target as usize].name.clone()
    } else {
        String::new()
    };
    proof {
        assert(b@ == picked_name(branches@, base as int));
        assert(t@ == picked_name(branches@, target as int));
    }
    let bl = b.as_str().unicode_len();
    let tl = t.as_str().unicode_len();
    if bl > 0 && tl > 0 && !str_eq(b.as_str(), t.as_str()) {
        Some((b, t))
    } else {
        None
    }
}

/// Total inserted lines of the first `n` files.
pub open spec fn total_insertions(files: Seq<DiffFile>, n: int) -> int
    decreases n,
{
    if n <= 0 {
        0
    } else {
        total_insertions(files, n - 1) + files[n - 1].stats.insertions
    }
}

/// Total deleted lines of the first `n` files.
pub open spec fn total_deletions(files: Seq<DiffFile>, n: int) -> int
    decreases n,
{
    if n <= 0 {
        0
    } else {
        total_deletions(files, n - 1) + files[n - 1].stats.deletions
    }
}

proof fn lemma_totals_monotone(files: Seq<DiffFile>, i: int, n: int)
    requires
        0 <= i <= n <= files.len(),
    ensures
        total_insertions(files, i) <= total_insertions(files, n),
        total_deletions(files, i) <= total_deletions(files, n),
    decreases n - i,
{
    if i < n {
        lemma_totals_monotone(files, i, n - 1);
    }
}

/// A file row of the comparison: the path over its line counts.
#[derive(Debug, Clone)]
pub struct CompareRow {
    pub title: String,
    /// `+<insertions> −<deletions>`.
    pub subtitle: String,
}

/// What the comparison shows: a summary line, and the file rows or, when
/// nothing differs, the notice `No differences`.
#[derive(Debug, Clone)]
pub struct CompareResults {
    /// `<files> file(s), +<insertions>/-<deletions> lines`.
    pub summary: String,
    pub rows: Vec<CompareRow>,
    pub notice: Option<&'static str>,
}

/// The results of a branch comparison for the files that differ.
pub fn compare_results(files: &[DiffFile]) -> (r: CompareResults)
    requires
        total_insertions(files@, files@.len() as int) <= usize::MAX,
        total_deletions(files@, files@.len() as int) <= usize::MAX,
    ensures
        r.summary@ == decimal(files@.len() as nat) + " file(s), +"@ + decimal(
            total_insertions(files@, files@.len() as int) as nat,
        ) + "/-"@ + decimal(total_deletions(files@, files@.len() as int) as nat) + " lines"@,
        r.notice == if files@.len() == 0 {
            Some("No differences")
        } else {
            None::<&'static str>
        },
        r.rows@.len() == files@.len(),
        forall|k: int|
            0 <= k < r.rows@.len() ==> {
                &&& (#[trigger] r.rows@[k]).title@ == files@[k].path@
                &&& r.rows@[k].subtitle@ == "+"@ + decimal(files@[k].stats.insertions as nat) + " −"@
                    + decimal(files@[k].stats.deletions as nat)
            },
{
    let mut added: usize = 0;
    let mut removed: usize = 0;
    let mut rows: Vec<CompareRow> = Vec::new();
    let mut i: usize = 0;
    while i < files.len()
        invariant
            i <= files.len(),
            total_insertions(files@, files@.len() as int) <= usize::MAX,
            total_deletions(files@, files@.len() as int) <= usize::MAX,
            added == total_insertions(files@, i as int),
            removed == total_deletions(files@, i as int),
            rows@.len() == i,
            forall|k: int|
                0 <= k < i ==> {
                    &&& (#[trigger] rows@[k]).title@ == files@[k].path@
                    &&& rows@[k].subtitle@ == "+"@ + decimal(files@[k].stats.insertions as nat) + " −"@
                        + decimal(files@[k].stats.deletions as nat)
                },
        decreases files.len() - i,
    {
        proof {
            lemma_totals_monotone(files@, i + 1, files@.len() as int);
        }
        let f = &files[i];
        added = added + f.stats.insertions;
        removed = removed + f.stats.deletions;
        let mut sub = chars_of("+");
        push_decimal(&mut sub, f.stats.insertions as u64);
        push_all(&mut sub, &chars_of(" −"));
        push_decimal(&mut sub, f.stats.deletions as u64);
        let ghost before = rows@;
        rows.push(CompareRow { title: f.path.clone(), subtitle: string_of(&sub) });
        assert forall|k: int| 0 <= k < i + 1 implies {
            &&& (#[trigger] rows@[k]).title@ == files@[k].path@
            &&& rows@[k].subtitle@ == "+"@ + decimal(files@[k].stats.insertions as nat) + " −"@
                + decimal(files@[k].stats.deletions as nat)
        } by {
            if k < i {
                assert(rows@[k] == before[k]);
            }
        }
        i = i + 1;
    }
    let mut summary: Vec<char> = Vec::new();
    push_decimal(&mut summary, files.len() as u64);
    push_all(&mut summary, &chars_of(" file(s), +"));
    push_decimal(&mut summary, added as u64);
    push_all(&mut summary, &chars_of("/-"));
    push_decimal(&mut summary, removed as u64);
    push_all(&mut summary, &chars_of(" lines"));
    let notice = if files.len() == 0 {
        Some("No differences")
    } else {
        None
    };
    CompareResults { summary: string_of(&summary), rows, notice }
}

} // verus!
