//! What the window's dialogs decide: which names and messages they accept,
//! what a tag or a reset asks for, and the ahead counter of the header.
use vstd::prelude::*;

use crate::models::ResetMode;
use crate::repo::{short_id, short_of, str_eq, trimmed};
use crate::text::{
    chars_of, decimal, lemma_parse_decimal, parse_usize, parse_usize_range, push_all, push_decimal,
    string_of, trim,
};

verus! {

broadcast use vstd::string::group_string_axioms;

// ---------------------------------------------------------------------------
// Names and messages typed into a dialog
// ---------------------------------------------------------------------------

/// What a dialog takes from its entry: the text without surrounding
/// whitespace, unless nothing is left (then the dialog does nothing). The
/// new-branch dialog and the edit-message dialog read their entries so.
pub fn entered_text(text: &str) -> (r: Option<String>)
    ensures
        match r {
            Some(t) => t@ == trim(text@) && t@.len() > 0,
            None => trim(text@).len() == 0,
        },
{
    let t = trimmed(text);
    if t.as_str().unicode_len() == 0 {
        None
    } else {
        Some(t)
    }
}

/// The new name that the rename dialog applies to `old`: the trimmed entry,
/// unless it is empty or the old name itself.
pub fn rename_target(old: &str, text: &str) -> (r: Option<String>)
    ensures
        match r {
            Some(t) => t@ == trim(text@) && t@.len() > 0 && t@ != old@,
            None => trim(text@).len() == 0 || trim(text@) == old@,
        },
{
    let t = trimmed(text);
    if t.as_str().unicode_len() == 0 || str_eq(t.as_str(), old) {
        None
    } else {
        Some(t)
    }
}

/// The report after renaming a branch.
pub fn renamed_message(old: &str, new: &str) -> (r: String)
    ensures
        r@ == "Renamed '"@ + old@ + "' → '"@ + new@ + "'"@,
{
    let mut out = chars_of("Renamed '");
    push_all(&mut out, &chars_of(old));
    push_all(&mut out, &chars_of("' → '"));
    push_all(&mut out, &chars_of(new));
    push_all(&mut out, &chars_of("'"));
    string_of(&out)
}

/// The question the delete-branch dialog asks.
pub fn delete_branch_question(name: &str) -> (r: String)
    ensures
        r@ == "Delete branch '"@ + name@ + "'? This cannot be undone."@,
{
    let mut out = chars_of("Delete branch '");
    push_all(&mut out, &chars_of(name));
    push_all(&mut out, &chars_of("'? This cannot be undone."));
    string_of(&out)
}

/// The report after deleting a branch.
pub fn deleted_branch_message(name: &str) -> (r: String)
    ensures
        r@ == "Deleted branch '"@ + name@ + "'"@,
{
    let mut out = chars_of("Deleted branch '");
    push_all(&mut out, &chars_of(name));
    push_all(&mut out, &chars_of("'"));
    string_of(&out)
}

// ---------------------------------------------------------------------------
// Tags
// ---------------------------------------------------------------------------

/// A tag to create: its name and, for an annotated tag, its message.
#[derive(Debug, Clone)]
pub struct TagRequest {
    pub name: String,
    pub message: Option<String>,
}

/// The tag that the create-tag dialog asks for: none without a name; an
/// annotated tag carries the trimmed message, or its name when the message
/// is blank.
pub fn tag_request(name_text: &str, annotated: bool, message_text: &str) -> (r: Option<TagRequest>)
    ensures
        trim(name_text@).len() == 0 ==> r is None,
        trim(name_text@).len() > 0 ==> (r matches Some(t) && t.name@ == trim(name_text@) && match t.message {
            Some(m) => annotated && m@ == if trim(message_text@).len() == 0 {
                trim(name_text@)
            } else {
                trim(message_text@)
            },
            None => !annotated,
        }),
{
    let name = trimmed(name_text);
    if name.as_str().unicode_len() == 0 {
        return None;
    }
    let message = if annotated {
        let m = trimmed(message_text);
        if m.as_str().unicode_len() == 0 {
            Some(name.clone())
        } else {
            Some(m)
        }
    } else {
        None
    };
    Some(TagRequest { name, message })
}

// ---------------------------------------------------------------------------
// Reset
// ---------------------------------------------------------------------------

/// The confirmation dialog of a reset.
#[derive(Debug, Clone)]
pub struct ResetDialog {
    pub heading: String,
    pub body: String,
    /// The label of the button that resets.
    pub confirm: String,
    /// Whether that button is styled as destructive (a hard reset).
    pub destructive: bool,
}

pub open spec fn mode_name(mode: ResetMode) -> Seq<char> {
    match mode {
        ResetMode::Soft => "Soft"@,
        ResetMode::Mixed => "Mixed"@,
        ResetMode::Hard => "Hard"@,
    }
}

/// What a reset of each kind does, as the dialog explains it.
pub open spec fn mode_effect(mode: ResetMode) -> Seq<char> {
    match mode {
        ResetMode::Hard => "? This will discard ALL uncommitted changes (working directory and index)."@,
        ResetMode::Mixed => "? Staged changes will be unstaged, working directory unchanged."@,
        ResetMode::Soft => "? Index and working directory are unchanged."@,
    }
}

/// The dialog that confirms resetting HEAD to `commit_id`.
pub fn reset_dialog(commit_id: &str, mode: ResetMode) -> (r: ResetDialog)
    ensures
        r.heading@ == "Reset "@ + mode_name(mode) + " to "@ + short_of(commit_id@) + "?"@,
        r.body@ == "Reset HEAD to "@ + short_of(commit_id@) + mode_effect(mode),
        r.confirm@ == "Reset "@ + mode_name(mode),
        r.destructive == (mode == ResetMode::Hard),
{
    let (name, effect) = match mode {
        ResetMode::Soft => ("Soft", "? Index and working directory are unchanged."),
        ResetMode::Mixed => ("Mixed", "? Staged changes will be unstaged, working directory unchanged."),
        ResetMode::Hard => (
            "Hard",
            "? This will discard ALL uncommitted changes (working directory and index).",
        ),
    };
    let short = chars_of(short_id(commit_id).as_str());
    let mut heading = chars_of("Reset ");
    push_all(&mut heading, &chars_of(name));
    push_all(&mut heading, &chars_of(" to "));
    push_all(&mut heading, &short);
    push_all(&mut heading, &chars_of("?"));
    let mut body = chars_of("Reset HEAD to ");
    push_all(&mut body, &short);
    push_all(&mut body, &chars_of(effect));
    let mut confirm = chars_of("Reset ");
    push_all(&mut confirm, &chars_of(name));
    ResetDialog {
        heading: string_of(&heading),
        body: string_of(&body),
        confirm: string_of(&confirm),
        destructive: mode == ResetMode::Hard,
    }
}

// ---------------------------------------------------------------------------
// Ahead counter
// ---------------------------------------------------------------------------

/// The header's count of unpushed commits: `▲ <n>`.
pub fn ahead_label(n: usize) -> (r: String)
    ensures
        r@ == "▲ "@ + decimal(n as nat),
{
    let mut out = chars_of("▲ ");
    push_decimal(&mut out, n as u64);
    string_of(&out)
}

/// The count that the header shows, read back from its label: the number
/// after `▲ `, or 0 when the label does not read so.
pub open spec fn ahead_of_label(label: Seq<char>) -> usize {
    let p = "▲ "@;
    if label.len() >= p.len() && label.subrange(0, p.len() as int) == p && parse_usize(
        label.subrange(p.len() as int, label.len() as int),
    ) is Some {
        parse_usize(label.subrange(p.len() as int, label.len() as int))->0
    } else {
        0
    }
}

/// Reads the count of unpushed commits back from the header's label (how
/// the history decides which commits of a further page are unpushed).
pub fn ahead_from_label(label: &str) -> (r: usize)
    ensures
        r == ahead_of_label(label@),
{
    proof {
        reveal_strlit("▲ ");
    }
    let v = chars_of(label);
    let p = chars_of("▲ ");
    if v.len() < 2 || v[0] != p[0] || v[1] != p[1] {
        proof {
            if v@.len() >= 2 && v@.subrange(0, 2) == p@ {
                assert(v@[0] == v@.subrange(0, 2)[0] && v@[1] == v@.subrange(0, 2)[1]);
            }
        }
        return 0;
    }
    assert(v@.subrange(0, 2) =~= p@);
    match parse_usize_range(&v, 2, v.len()) {
        Some(n) => n,
        None => 0,
    }
}

/// The header's count survives the round trip through its label: reading
/// `ahead_label(n)` back gives `n`.
pub proof fn law_ahead_label_round_trip(n: usize)
    ensures
        ahead_of_label("▲ "@ + decimal(n as nat)) == n,
{
    reveal_strlit("▲ ");
    let l = "▲ "@ + decimal(n as nat);
    assert(l.subrange(0, 2) == "▲ "@);
    assert(l.subrange(2, l.len() as int) == decimal(n as nat));
    lemma_parse_decimal(n as nat);
}

// ---------------------------------------------------------------------------
// Commit context menu
// ---------------------------------------------------------------------------

/// What an entry of a commit's context menu does.
#[derive(Debug, Clone, Copy, PartialEq, Eq, Structural)]
pub enum CommitAction {
    CopySha,
    CopyMessage,
    Checkout,
    /// A line between groups of entries.
    Separator,
    CherryPick,
    Revert,
    ResetSoft,
    ResetMixed,
    ResetHard,
    CreateTag,
    ExportPatch,
    /// An interactive rebase of the commits above this one (as many as its
    /// position in the list).
    InteractiveRebase(usize),
    /// Editing the message of the head commit.
    EditMessage,
}

/// An entry of a commit's context menu: what it does and its label (empty
/// for a separator).
#[derive(Debug, Clone)]
pub struct CommitMenuEntry {
    pub action: CommitAction,
    pub label: String,
}

/// The context menu of the commit at position `index` of the history (0 is
/// the head), whose short id is `short_sha`: copying, checkout, cherry-pick
/// and revert, the three resets, tag and patch; then an interactive rebase
/// onto it for any commit but the head, and editing the message for the
/// head.
pub open spec fn commit_menu_of(index: nat, short_sha: Seq<char>) -> Seq<(CommitAction, Seq<char>)> {
    seq![
        (CommitAction::CopySha, "Copy SHA ("@ + short_sha + ")"@),
        (CommitAction::CopyMessage, "Copy Message"@),
        (CommitAction::Checkout, "Checkout This Commit"@),
        (CommitAction::Separator, Seq::<char>::empty()),
        (CommitAction::CherryPick, "Cherry-pick"@),
        (CommitAction::Revert, "Revert Commit"@),
        (CommitAction::Separator, Seq::<char>::empty()),
        (CommitAction::ResetSoft, "Reset Soft to Here"@),
        (CommitAction::ResetMixed, "Reset Mixed to Here"@),
        (CommitAction::ResetHard, "Reset Hard to Here"@),
        (CommitAction::CreateTag, "Create Tag…"@),
        (CommitAction::ExportPatch, "Export as Patch…"@),
    ] + if index > 0 {
        seq![(CommitAction::InteractiveRebase(index as usize), "Interactive Rebase…"@)]
    } else {
        seq![(CommitAction::EditMessage, "Edit Commit Message"@)]
    }
}

pub open spec fn menu_view(v: Seq<CommitMenuEntry>) -> Seq<(CommitAction, Seq<char>)> {
    v.map_values(|e: CommitMenuEntry| (e.action, e.label@))
}

fn entry(action: CommitAction, label: &str) -> (r: CommitMenuEntry)
    ensures
        r.action == action,
        r.label@ == label@,
{
    CommitMenuEntry { action, label: label.to_owned() }
}

/// The entries of a commit's context menu (see `commit_menu_of`).
pub fn commit_menu(index: usize, short_sha: &str) -> (r: Vec<CommitMenuEntry>)
    ensures
        menu_view(r@) == commit_menu_of(index as nat, short_sha@),
{
    let mut copy = chars_of("Copy SHA (");
    push_all(&mut copy, &chars_of(short_sha));
    push_all(&mut copy, &chars_of(")"));
    let mut v: Vec<CommitMenuEntry> = Vec::new();
    v.push(CommitMenuEntry { action: CommitAction::CopySha, label: string_of(&copy) });
    v.push(entry(CommitAction::CopyMessage, "Copy Message"));
    v.push(entry(CommitAction::Checkout, "Checkout This Commit"));
    v.push(CommitMenuEntry { action: CommitAction::Separator, label: String::new() });
    v.push(entry(CommitAction::CherryPick, "Cherry-pick"));
    v.push(entry(CommitAction::Revert, "Revert Commit"));
    v.push(CommitMenuEntry { action: CommitAction::Separator, label: String::new() });
    v.push(entry(CommitAction::ResetSoft, "Reset Soft to Here"));
    v.push(entry(CommitAction::ResetMixed, "Reset Mixed to Here"));
    v.push(entry(CommitAction::ResetHard, "Reset Hard to Here"));
    v.push(entry(CommitAction::CreateTag, "Create Tag…"));
    v.push(entry(CommitAction::ExportPatch, "Export as Patch…"));
    if index > 0 {
        v.push(entry(CommitAction::InteractiveRebase(index), "Interactive Rebase…"));
    } else {
        v.push(entry(CommitAction::EditMessage, "Edit Commit Message"));
    }
    assert(menu_view(v@) =~= commit_menu_of(index as nat, short_sha@));
    v
}

} // verus!
