//! The changes view: the flat list of changed files, what each file's row
//! shows, the buttons over a file's diff, and the icon of a file in a
//! commit.
use vstd::prelude::*;

use crate::models::{DiffFile, DiffHunk, DiffLine, DiffLineKind, FileStatus, FileStatusKind, RepoStatus};
use crate::repo::{paths_view, statuses_view};
use crate::text::{
    chars_of, decimal, lemma_decimal_digits, lemma_parse_decimal, parse_usize, parse_usize_range, push_all,
    push_decimal, string_of, trim_end, trim_end_len, push_range, after_last, after_last_start, starts_with,
    starts_with_text,
};

verus! {

broadcast use vstd::string::group_string_axioms;

/// An entry representing a changed file for the accordion list.
#[derive(Debug, Clone)]
pub struct ChangedFileEntry {
    pub path: String,
    pub status: FileStatusKind,
    pub is_staged: bool,
}

pub open spec fn changed_view(v: Seq<ChangedFileEntry>) -> Seq<(Seq<char>, FileStatusKind, bool)> {
    v.map_values(|e: ChangedFileEntry| (e.path@, e.status, e.is_staged))
}

/// The changed files of a status: unstaged ones, then untracked ones (as
/// new), then staged ones.
pub open spec fn changed_files(s: RepoStatus) -> Seq<(Seq<char>, FileStatusKind, bool)> {
    statuses_view(s.unstaged@).map_values(
        |f: (Seq<char>, FileStatusKind)| (f.0, f.1, false),
    ) + paths_view(s.untracked@).map_values(|p: Seq<char>| (p, FileStatusKind::New, false))
        + statuses_view(s.staged@).map_values(|f: (Seq<char>, FileStatusKind)| (f.0, f.1, true))
}

fn push_statuses(out: &mut Vec<ChangedFileEntry>, v: &Vec<FileStatus>, staged: bool)
    ensures
        changed_view(final(out)@) == changed_view(old(out)@) + statuses_view(v@).map_values(
            |f: (Seq<char>, FileStatusKind)| (f.0, f.1, staged),
        ),
{
    let ghost add = statuses_view(v@).map_values(|f: (Seq<char>, FileStatusKind)| (f.0, f.1, staged));
    let mut i: usize = 0;
    while i < v.len()
        invariant
            i <= v.len(),
            add == statuses_view(v@).map_values(|f: (Seq<char>, FileStatusKind)| (f.0, f.1, staged)),
            changed_view(out@) == changed_view(old(out)@) + add.take(i as int),
        decreases v.len() - i,
    {
        let f = &v[i];
        let ghost before = changed_view(out@);
        out.push(ChangedFileEntry { path: f.path.clone(), status: f.status, is_staged: staged });
        assert(changed_view(out@) == before.push((f.path@, f.status, staged)));
        assert(add.take(i + 1) == add.take(i as int).push(add[i as int]));
        i = i + 1;
    }
    assert(add.take(v.len() as int) == add);
}

/// Collects all changed files of a status into a flat list.
pub fn collect_changed_files(status: &RepoStatus) -> (r: Vec<ChangedFileEntry>)
    ensures
        changed_view(r@) == changed_files(*status),
{
    let mut files: Vec<ChangedFileEntry> = Vec::new();
    assert(changed_view(files@) == Seq::<(Seq<char>, FileStatusKind, bool)>::empty());
    push_statuses(&mut files, &status.unstaged, false);
    let ghost mid = changed_view(files@);
    let ghost add = paths_view(status.untracked@).map_values(
        |p: Seq<char>| (p, FileStatusKind::New, false),
    );
    let mut i: usize = 0;
    while i < status.untracked.len()
        invariant
            i <= status.untracked.len(),
            add == paths_view(status.untracked@).map_values(
                |p: Seq<char>| (p, FileStatusKind::New, false),
            ),
            changed_view(files@) == mid + add.take(i as int),
        decreases status.untracked.len() - i,
    {
        let p = &status.untracked[i];
        let ghost before = changed_view(files@);
        files.push(ChangedFileEntry { path: p.clone(), status: FileStatusKind::New, is_staged: false });
        assert(changed_view(files@) == before.push((p@, FileStatusKind::New, false)));
        assert(add.take(i + 1) == add.take(i as int).push(add[i as int]));
        i = i + 1;
    }
    assert(add.take(status.untracked.len() as int) == add);
    push_statuses(&mut files, &status.staged, true);
    files
}

/// Icon name and style class for a file of a commit: added lines only,
/// removed lines only, or both (or neither).
pub fn diff_file_icon(file: &DiffFile) -> (r: (&'static str, &'static str))
    ensures
        (file.stats.insertions > 0 && file.stats.deletions == 0) ==> r.0@ == "list-add-symbolic"@
            && r.1@ == "success"@,
        (file.stats.deletions > 0 && file.stats.insertions == 0) ==> r.0@ == "list-remove-symbolic"@
            && r.1@ == "error"@,
        !((file.stats.insertions > 0) != (file.stats.deletions > 0)) ==> r.0@
            == "document-edit-symbolic"@ && r.1@ == "accent"@,
{
    let has_additions = file.stats.insertions > 0;
    let has_deletions = file.stats.deletions > 0;
    if has_additions && !has_deletions {
        ("list-add-symbolic", "success")
    } else if has_deletions && !has_additions {
        ("list-remove-symbolic", "error")
    } else {
        ("document-edit-symbolic", "accent")
    }
}


/// Icon name, style class and tooltip of a file's change.
pub open spec fn status_look(k: FileStatusKind) -> (Seq<char>, Seq<char>, Seq<char>) {
    match k {
        FileStatusKind::New => ("list-add-symbolic"@, "success"@, "Added"@),
        FileStatusKind::Modified => ("document-edit-symbolic"@, "accent"@, "Modified"@),
        FileStatusKind::Deleted => ("list-remove-symbolic"@, "error"@, "Deleted"@),
        FileStatusKind::Renamed => ("edit-find-replace-symbolic"@, "accent"@, "Renamed"@),
        FileStatusKind::Typechange => ("dialog-warning-symbolic"@, "warning"@, "Typechange"@),
    }
}

/// A button of a changed file's row.
#[derive(Debug, Clone, Copy, PartialEq, Eq, Structural)]
pub enum FileAction {
    Stage,
    Unstage,
    Discard,
    Blame,
}

/// What the row of a changed file shows.
#[derive(Debug, Clone)]
pub struct FileRowDisplay {
    pub icon: &'static str,
    pub css_class: &'static str,
    pub tooltip: &'static str,
    /// The mark of a staged file.
    pub staged_mark: bool,
    /// Its buttons, in order.
    pub actions: Vec<FileAction>,
}

/// The buttons of a changed file: unstage for a staged file, stage and
/// discard for another; blame for every file.
pub open spec fn file_actions(is_staged: bool) -> Seq<FileAction> {
    if is_staged {
        seq![FileAction::Unstage, FileAction::Blame]
    } else {
        seq![FileAction::Stage, FileAction::Discard, FileAction::Blame]
    }
}

/// What the row of a changed file shows.
pub fn file_row_display(file: &ChangedFileEntry) -> (r: FileRowDisplay)
    ensures
        (r.icon@, r.css_class@, r.tooltip@) == status_look(file.status),
        r.staged_mark == file.is_staged,
        r.actions@ == file_actions(file.is_staged),
{
    let (icon, css_class, tooltip) = match file.status {
        FileStatusKind::New => ("list-add-symbolic", "success", "Added"),
        FileStatusKind::Modified => ("document-edit-symbolic", "accent", "Modified"),
        FileStatusKind::Deleted => ("list-remove-symbolic", "error", "Deleted"),
        FileStatusKind::Renamed => ("edit-find-replace-symbolic", "accent", "Renamed"),
        FileStatusKind::Typechange => ("dialog-warning-symbolic", "warning", "Typechange"),
    };
    let mut actions: Vec<FileAction> = Vec::new();
    if file.is_staged {
        actions.push(FileAction::Unstage);
    } else {
        actions.push(FileAction::Stage);
        actions.push(FileAction::Discard);
    }
    actions.push(FileAction::Blame);
    assert(actions@ =~= file_actions(file.is_staged));
    FileRowDisplay { icon, css_class, tooltip, staged_mark: file.is_staged, actions }
}


/// A button of a file's diff that stages or unstages one hunk.
#[derive(Debug, Clone)]
pub struct HunkButton {
    pub label: String,
    pub widget_name: String,
}

/// The hunk buttons of a diff with `n` hunks: one per hunk, numbered from 1
/// in its label and from 0 in its name, when there is more than one hunk.
pub open spec fn hunk_buttons_of(n: nat, is_staged: bool) -> Seq<(Seq<char>, Seq<char>)> {
    if n > 1 {
        Seq::new(
            n,
            |i: int|
                if is_staged {
                    ("Unstage Hunk "@ + decimal((i + 1) as nat), "unstage-hunk-"@ + decimal(i as nat))
                } else {
                    ("Stage Hunk "@ + decimal((i + 1) as nat), "stage-hunk-"@ + decimal(i as nat))
                },
        )
    } else {
        Seq::empty()
    }
}

/// The buttons over a file's diff: its hunk buttons (see `hunk_buttons_of`)
/// and the label of the button that acts on the selected lines.
pub fn populate_hunk_actions(num_hunks: usize, is_staged: bool) -> (r: (Vec<HunkButton>, &'static str))
    ensures
        r.0@.map_values(|b: HunkButton| (b.label@, b.widget_name@)) == hunk_buttons_of(num_hunks as nat, is_staged),
        r.1@ == if is_staged {
            "Unstage Selected Lines"@
        } else {
            "Stage Selected Lines"@
        },
{
    let mut buttons: Vec<HunkButton> = Vec::new();
    let ghost want = hunk_buttons_of(num_hunks as nat, is_staged);
    if num_hunks > 1 {
        let mut i: usize = 0;
        while i < num_hunks
            invariant
                i <= num_hunks,
                num_hunks > 1,
                want == hunk_buttons_of(num_hunks as nat, is_staged),
                buttons@.len() == i,
                forall|k: int| 0 <= k < i ==> (#[trigger] buttons@[k].label@, buttons@[k].widget_name@) == want[k],
            decreases num_hunks - i,
        {
            let mut label = if is_staged {
                chars_of("Unstage Hunk ")
            } else {
                chars_of("Stage Hunk ")
            };
            push_decimal(&mut label, (i + 1) as u64);
            let mut name = if is_staged {
                chars_of("unstage-hunk-")
            } else {
                chars_of("stage-hunk-")
            };
            push_decimal(&mut name, i as u64);
            let ghost before = buttons@;
            buttons.push(HunkButton { label: string_of(&label), widget_name: string_of(&name) });
            assert forall|k: int| 0 <= k < i + 1 implies (#[trigger] buttons@[k].label@, buttons@[k].widget_name@)
                == want[k] by {
                if k < i {
                    assert(buttons@[k] == before[k]);
                }
            }
            i = i + 1;
        }
    }
    assert(buttons@.map_values(|b: HunkButton| (b.label@, b.widget_name@)) =~= want);
    let select = if is_staged {
        "Unstage Selected Lines"
    } else {
        "Stage Selected Lines"
    };
    (buttons, select)
}

/// What a click on a hunk button asks for.
#[derive(Debug, Clone, Copy, PartialEq, Eq, Structural)]
pub enum HunkAction {
    Stage(usize),
    Unstage(usize),
}

/// The action of the hunk button called `name`: `stage-hunk-<i>` stages
/// hunk `i` and `unstage-hunk-<i>` unstages it, where `<i>` reads as a
/// `usize`; any other name does nothing.
pub open spec fn hunk_action_of(name: Seq<char>) -> Option<HunkAction> {
    let s = "stage-hunk-"@;
    let u = "unstage-hunk-"@;
    if starts_with(name, s) {
        match parse_usize(name.subrange(s.len() as int, name.len() as int)) {
            Some(i) => Some(HunkAction::Stage(i)),
            None => None,
        }
    } else if starts_with(name, u) {
        match parse_usize(name.subrange(u.len() as int, name.len() as int)) {
            Some(i) => Some(HunkAction::Unstage(i)),
            None => None,
        }
    } else {
        None
    }
}

/// Reads the action of a clicked hunk button from its widget name.
pub fn hunk_button_action(name: &str) -> (r: Option<HunkAction>)
    ensures
        r == hunk_action_of(name@),
{
    proof {
        reveal_strlit("stage-hunk-");
        reveal_strlit("unstage-hunk-");
    }
    let v = chars_of(name);
    if starts_with_text(&v, "stage-hunk-") {
        match parse_usize_range(&v, 11, v.len()) {
            Some(i) => Some(HunkAction::Stage(i)),
            None => None,
        }
    } else if starts_with_text(&v, "unstage-hunk-") {
        match parse_usize_range(&v, 13, v.len()) {
            Some(i) => Some(HunkAction::Unstage(i)),
            None => None,
        }
    } else {
        None
    }
}

/// A hunk button does what its label says: the name that
/// `populate_hunk_actions` gives the button of hunk `i` reads back, through
/// `hunk_button_action`, as staging hunk `i` (or unstaging it, in the
/// staged list).
pub proof fn law_hunk_button_round_trip(n: nat, is_staged: bool, i: int)
    requires
        n > 1,
        0 <= i < n,
        n <= usize::MAX + 1,
    ensures
        hunk_action_of(hunk_buttons_of(n, is_staged)[i].1) == Some(
            if is_staged {
                HunkAction::Unstage(i as usize)
            } else {
                HunkAction::Stage(i as usize)
            },
        ),
{
    reveal_strlit("stage-hunk-");
    reveal_strlit("unstage-hunk-");
    let name = hunk_buttons_of(n, is_staged)[i].1;
    lemma_parse_decimal(i as nat);
    if is_staged {
        let p = "unstage-hunk-"@;
        assert(name == p + decimal(i as nat));
        assert(name.subrange(0, p.len() as int) == p);
        assert(name.subrange(p.len() as int, name.len() as int) == decimal(i as nat));
        assert(!starts_with(name, "stage-hunk-"@)) by {
            assert(name[0] == 'u');
            if starts_with(name, "stage-hunk-"@) {
                assert(name.subrange(0, 11)[0] == name[0]);
            }
        }
    } else {
        let p = "stage-hunk-"@;
        assert(name == p + decimal(i as nat));
        assert(name.subrange(0, p.len() as int) == p);
        assert(name.subrange(p.len() as int, name.len() as int) == decimal(i as nat));
    }
}

// ---------------------------------------------------------------------------
// Line selection
// ---------------------------------------------------------------------------

/// One line of a hunk's line selector.
#[derive(Debug, Clone)]
pub struct SelectorLine {
    /// The name of the line's check box, for an added or deleted line; a
    /// context line has a spacer in its place.
    pub check_name: Option<String>,
    /// The line with its `+`, `-` or ` ` prefix and without trailing
    /// whitespace.
    pub text: String,
    pub css_class: &'static str,
}

/// The line selector of one hunk: its widget name, the hunk header, and a
/// row per line.
#[derive(Debug, Clone)]
pub struct LineSelector {
    pub name: String,
    pub header: String,
    pub lines: Vec<SelectorLine>,
}

pub open spec fn kind_prefix(k: DiffLineKind) -> Seq<char> {
    match k {
        DiffLineKind::Addition => "+"@,
        DiffLineKind::Deletion => "-"@,
        DiffLineKind::Context => " "@,
    }
}

pub open spec fn kind_class(k: DiffLineKind) -> Seq<char> {
    match k {
        DiffLineKind::Addition => "success"@,
        DiffLineKind::Deletion => "error"@,
        DiffLineKind::Context => "dim-label"@,
    }
}

/// The name of the check box of line `i` of hunk `h`.
pub open spec fn check_name(h: nat, i: nat) -> Seq<char> {
    "line-check-"@ + decimal(h) + "-"@ + decimal(i)
}

/// Whether a line can be selected: it is added or deleted.
pub open spec fn selectable(l: DiffLine) -> bool {
    l.kind != DiffLineKind::Context
}

/// The row of line `i` of hunk `h`.
pub open spec fn selector_line_ok(h: nat, i: nat, l: DiffLine, r: SelectorLine) -> bool {
    &&& match r.check_name {
        Some(n) => selectable(l) && n@ == check_name(h, i),
        None => !selectable(l),
    }
    &&& r.text@ == kind_prefix(l.kind) + trim_end(l.content@)
    &&& r.css_class@ == kind_class(l.kind)
}

fn selector_line(h: usize, i: usize, l: &DiffLine) -> (r: SelectorLine)
    ensures
        selector_line_ok(h as nat, i as nat, *l, r),
{
    let check_name = if l.kind == DiffLineKind::Context {
        None
    } else {
        let mut n = chars_of("line-check-");
        push_decimal(&mut n, h as u64);
        push_all(&mut n, &chars_of("-"));
        push_decimal(&mut n, i as u64);
        Some(string_of(&n))
    };
    let (prefix, css_class) = match l.kind {
        DiffLineKind::Addition => ("+", "success"),
        DiffLineKind::Deletion => ("-", "error"),
        DiffLineKind::Context => (" ", "dim-label"),
    };
    let mut t = chars_of(prefix);
    let c = chars_of(l.content.as_str());
    let end = trim_end_len(&c);
    push_range(&mut t, &c, 0, end);
    SelectorLine { check_name, text: string_of(&t), css_class }
}

/// The line selector of hunk number `hunk_index`: named
/// `line-selector-<hunk_index>`, headed by the hunk header, with a row per
/// line whose check box is named `line-check-<hunk_index>-<line>`.
pub fn build_line_selector(hunk: &DiffHunk, hunk_index: usize) -> (r: LineSelector)
    ensures
        r.name@ == "line-selector-"@ + decimal(hunk_index as nat),
        r.header@ == hunk.header@,
        r.lines@.len() == hunk.lines@.len(),
        forall|k: int|
            0 <= k < r.lines@.len() ==> selector_line_ok(
                hunk_index as nat,
                k as nat,
                hunk.lines@[k],
                #[trigger] r.lines@[k],
            ),
{
    let mut name = chars_of("line-selector-");
    push_decimal(&mut name, hunk_index as u64);
    let mut lines: Vec<SelectorLine> = Vec::new();
    let mut i: usize = 0;
    while i < hunk.lines.len()
        invariant
            i <= hunk.lines.len(),
            lines@.len() == i,
            forall|k: int|
                0 <= k < i ==> selector_line_ok(
                    hunk_index as nat,
                    k as nat,
                    hunk.lines@[k],
                    #[trigger] lines@[k],
                ),
        decreases hunk.lines.len() - i,
    {
        let row = selector_line(hunk_index, i, &hunk.lines[i]);
        let ghost before = lines@;
        lines.push(row);
        assert forall|k: int| 0 <= k < i + 1 implies selector_line_ok(
            hunk_index as nat,
            k as nat,
            hunk.lines@[k],
            #[trigger] lines@[k],
        ) by {
            if k < i {
                assert(lines@[k] == before[k]);
            }
        }
        i = i + 1;
    }
    LineSelector { name: string_of(&name), header: hunk.header.clone(), lines }
}

/// The line indices that a set of check boxes selects: for each active box,
/// in order, the number after the last `-` of its name, where that reads as
/// a `usize`.
pub open spec fn selected_indices(checks: Seq<(Seq<char>, bool)>) -> Seq<usize>
    decreases checks.len(),
{
    if checks.len() == 0 {
        Seq::empty()
    } else {
        let rest = selected_indices(checks.drop_last());
        let (name, active) = checks.last();
        if active && parse_usize(after_last(name, '-')) is Some {
            rest.push(parse_usize(after_last(name, '-'))->0)
        } else {
            rest
        }
    }
}

/// The line indices selected in a line selector, from its check boxes as
/// `(name, active)` pairs (see `selected_indices`).
pub fn collect_selected_lines(checks: &[(String, bool)]) -> (r: Vec<usize>)
    ensures
        r@ == selected_indices(checks@.map_values(|c: (String, bool)| (c.0@, c.1))),
{
    let ghost cv = checks@.map_values(|c: (String, bool)| (c.0@, c.1));
    let mut r: Vec<usize> = Vec::new();
    let mut i: usize = 0;
    while i < checks.len()
        invariant
            i <= checks.len(),
            cv == checks@.map_values(|c: (String, bool)| (c.0@, c.1)),
            r@ == selected_indices(cv.take(i as int)),
        decreases checks.len() - i,
    {
        assert(cv.take(i + 1).drop_last() == cv.take(i as int));
        assert(cv.take(i + 1).last() == cv[i as int]);
        let (name, active) = (&checks[i].0, checks[i].1);
        if active {
            let v = chars_of(name.as_str());
            let start = after_last_start(&v, '-');
            let parsed = parse_usize_range(&v, start, v.len());
            if let Some(idx) = parsed {
                r.push(idx);
            }
        }
        i = i + 1;
    }
    assert(cv.take(checks.len() as int) == cv);
    r
}

/// The check boxes of a hunk's line selector, as `(name, active)` pairs:
/// one per selectable line among the first `n`, with `active[i]` telling
/// whether line `i` is ticked.
pub open spec fn selector_checks(h: nat, lines: Seq<DiffLine>, active: Seq<bool>, n: int) -> Seq<
    (Seq<char>, bool),
>
    decreases n,
{
    if n <= 0 {
        Seq::empty()
    } else if selectable(lines[n - 1]) {
        selector_checks(h, lines, active, n - 1).push((check_name(h, (n - 1) as nat), active[n - 1]))
    } else {
        selector_checks(h, lines, active, n - 1)
    }
}

/// The indices of the ticked selectable lines among the first `n`, in
/// order.
pub open spec fn ticked_lines(lines: Seq<DiffLine>, active: Seq<bool>, n: int) -> Seq<usize>
    decreases n,
{
    if n <= 0 {
        Seq::empty()
    } else if selectable(lines[n - 1]) && active[n - 1] {
        ticked_lines(lines, active, n - 1).push((n - 1) as usize)
    } else {
        ticked_lines(lines, active, n - 1)
    }
}

proof fn lemma_after_last_dash_decimal(p: Seq<char>, d: Seq<char>)
    requires
        forall|k: int| 0 <= k < d.len() ==> d[k] != '-',
    ensures
        after_last(p + "-"@ + d, '-') == d,
    decreases d.len(),
{
    reveal_strlit("-");
    let s = p + "-"@ + d;
    if d.len() == 0 {
        assert(s.last() == '-');
    } else {
        assert(s.drop_last() == p + "-"@ + d.drop_last());
        assert(s.last() == d.last());
        lemma_after_last_dash_decimal(p, d.drop_last());
        assert(d.drop_last().push(d.last()) == d);
    }
}

/// Reading the ticked boxes of a hunk's line selector gives back the
/// indices of the ticked lines: the number that `line_selector` writes into
/// each check box's name is the line's index, and `collect_selected_lines`
/// reads it back.
pub proof fn law_selected_lines_round_trip(h: nat, lines: Seq<DiffLine>, active: Seq<bool>, n: int)
    requires
        0 <= n <= lines.len(),
        n <= active.len(),
        lines.len() <= usize::MAX + 1,
    ensures
        selected_indices(selector_checks(h, lines, active, n)) == ticked_lines(lines, active, n),
    decreases n,
{
    if n > 0 {
        law_selected_lines_round_trip(h, lines, active, n - 1);
        if selectable(lines[n - 1]) {
            let i = (n - 1) as nat;
            let checks = selector_checks(h, lines, active, n);
            assert(checks.drop_last() == selector_checks(h, lines, active, n - 1));
            lemma_decimal_digits(i);
            let d = decimal(i);
            assert forall|k: int| 0 <= k < d.len() implies d[k] != '-' by {
                assert(crate::text::is_digit(d[k]));
            }
            assert(check_name(h, i) == ("line-check-"@ + decimal(h)) + "-"@ + d);
            lemma_after_last_dash_decimal("line-check-"@ + decimal(h), d);
            lemma_parse_decimal(i);
        }
    }
}

} // verus!
