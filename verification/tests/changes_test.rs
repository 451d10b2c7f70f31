use gitpulsar::changes::{
    collect_changed_files, diff_file_icon, file_row_display, populate_hunk_actions, ChangedFileEntry, FileAction,
    build_line_selector, collect_selected_lines, hunk_button_action, HunkAction,
};
use gitpulsar::syntax::{line_spans, HighlightSpan};
use gitpulsar::models::{DiffFile, DiffHunk, DiffLine, DiffLineKind, DiffStats, FileStatus, FileStatusKind, RepoStatus};

fn file_with(insertions: usize, deletions: usize) -> DiffFile {
    DiffFile { path: "a.rs".to_string(), hunks: vec![], stats: DiffStats { insertions, deletions } }
}

#[test]
fn changed_files_list_unstaged_untracked_then_staged() {
    let status = RepoStatus {
        staged: vec![FileStatus { path: "s.rs".to_string(), status: FileStatusKind::Renamed }],
        unstaged: vec![FileStatus { path: "u.rs".to_string(), status: FileStatusKind::Deleted }],
        untracked: vec!["n.rs".to_string()],
    };
    let files = collect_changed_files(&status);
    let got: Vec<(&str, FileStatusKind, bool)> =
        files.iter().map(|f| (f.path.as_str(), f.status, f.is_staged)).collect();
    assert_eq!(
        got,
        vec![
            ("u.rs", FileStatusKind::Deleted, false),
            ("n.rs", FileStatusKind::New, false),
            ("s.rs", FileStatusKind::Renamed, true),
        ]
    );
}

#[test]
fn clean_status_has_no_changed_files() {
    let status = RepoStatus { staged: vec![], unstaged: vec![], untracked: vec![] };
    assert!(collect_changed_files(&status).is_empty());
}

#[test]
fn file_icons_follow_line_counts() {
    assert_eq!(diff_file_icon(&file_with(3, 0)), ("list-add-symbolic", "success"));
    assert_eq!(diff_file_icon(&file_with(0, 2)), ("list-remove-symbolic", "error"));
    assert_eq!(diff_file_icon(&file_with(1, 1)), ("document-edit-symbolic", "accent"));
    assert_eq!(diff_file_icon(&file_with(0, 0)), ("document-edit-symbolic", "accent"));
}

#[test]
fn spans_cover_pieces_and_skip_empty_ones() {
    let red = (255, 0, 0);
    let blue = (0, 0, 255);
    let spans = line_spans(&[(red, 3), (blue, 0), (blue, 4)]);
    assert_eq!(
        spans,
        vec![
            HighlightSpan { start: 0, end: 3, fg: red },
            HighlightSpan { start: 3, end: 7, fg: blue },
        ]
    );
    assert!(line_spans(&[]).is_empty());
}

#[test]
fn file_rows_show_status_and_the_right_buttons() {
    let staged = ChangedFileEntry { path: "a".to_string(), status: FileStatusKind::Renamed, is_staged: true };
    let d = file_row_display(&staged);
    assert_eq!((d.icon, d.css_class, d.tooltip), ("edit-find-replace-symbolic", "accent", "Renamed"));
    assert!(d.staged_mark);
    assert_eq!(d.actions, vec![FileAction::Unstage, FileAction::Blame]);
    let work = ChangedFileEntry { path: "b".to_string(), status: FileStatusKind::Typechange, is_staged: false };
    let d = file_row_display(&work);
    assert_eq!((d.icon, d.css_class, d.tooltip), ("dialog-warning-symbolic", "warning", "Typechange"));
    assert!(!d.staged_mark);
    assert_eq!(d.actions, vec![FileAction::Stage, FileAction::Discard, FileAction::Blame]);
    let new = ChangedFileEntry { path: "c".to_string(), status: FileStatusKind::New, is_staged: false };
    assert_eq!(file_row_display(&new).tooltip, "Added");
}

#[test]
fn hunk_buttons_only_for_several_hunks() {
    let (buttons, select) = populate_hunk_actions(1, false);
    assert!(buttons.is_empty());
    assert_eq!(select, "Stage Selected Lines");
    let (buttons, select) = populate_hunk_actions(3, false);
    let got: Vec<(&str, &str)> = buttons.iter().map(|b| (b.label.as_str(), b.widget_name.as_str())).collect();
    assert_eq!(got, vec![("Stage Hunk 1", "stage-hunk-0"), ("Stage Hunk 2", "stage-hunk-1"), ("Stage Hunk 3", "stage-hunk-2")]);
    assert_eq!(select, "Stage Selected Lines");
    let (buttons, select) = populate_hunk_actions(2, true);
    assert_eq!(buttons[1].label, "Unstage Hunk 2");
    assert_eq!(buttons[1].widget_name, "unstage-hunk-1");
    assert_eq!(select, "Unstage Selected Lines");
    assert!(populate_hunk_actions(0, true).0.is_empty());
}

fn line(kind: DiffLineKind, content: &str) -> DiffLine {
    DiffLine { kind, content: content.to_string(), old_lineno: None, new_lineno: None }
}

#[test]
fn line_selector_names_changeable_lines() {
    let hunk = DiffHunk {
        header: "@@ -1,3 +1,3 @@".to_string(),
        lines: vec![
            line(DiffLineKind::Context, "fn main() {  "),
            line(DiffLineKind::Deletion, "    old();\n"),
            line(DiffLineKind::Addition, "    new();\t "),
        ],
    };
    let sel = build_line_selector(&hunk, 2);
    assert_eq!(sel.name, "line-selector-2");
    assert_eq!(sel.header, "@@ -1,3 +1,3 @@");
    assert_eq!(sel.lines.len(), 3);
    assert_eq!(sel.lines[0].check_name, None);
    assert_eq!((sel.lines[0].text.as_str(), sel.lines[0].css_class), (" fn main() {", "dim-label"));
    assert_eq!(sel.lines[1].check_name.as_deref(), Some("line-check-2-1"));
    assert_eq!((sel.lines[1].text.as_str(), sel.lines[1].css_class), ("-    old();", "error"));
    assert_eq!(sel.lines[2].check_name.as_deref(), Some("line-check-2-2"));
    assert_eq!((sel.lines[2].text.as_str(), sel.lines[2].css_class), ("+    new();", "success"));
}

#[test]
fn ticked_check_boxes_give_back_line_indices() {
    let hunk = DiffHunk {
        header: "@@ -1 +1,2 @@".to_string(),
        lines: vec![
            line(DiffLineKind::Context, "a"),
            line(DiffLineKind::Addition, "b"),
            line(DiffLineKind::Deletion, "c"),
            line(DiffLineKind::Addition, "d"),
        ],
    };
    let sel = build_line_selector(&hunk, 0);
    let ticked = [false, true, false, true];
    let checks: Vec<(String, bool)> = sel
        .lines
        .iter()
        .enumerate()
        .filter_map(|(i, l)| l.check_name.clone().map(|n| (n, ticked[i])))
        .collect();
    assert_eq!(collect_selected_lines(&checks), vec![1, 3]);
}

#[test]
fn unreadable_check_names_are_skipped() {
    let checks = vec![
        ("line-check-0-7".to_string(), true),
        ("line-check-0-x".to_string(), true),
        ("12".to_string(), true),
        ("line-check-0-+4".to_string(), true),
        ("line-check-0-".to_string(), true),
        ("line-check-0-5".to_string(), false),
    ];
    assert_eq!(collect_selected_lines(&checks), vec![7, 12, 4]);
}

#[test]
fn hunk_buttons_read_back_their_hunk() {
    let (unstaged, _) = populate_hunk_actions(3, false);
    for (i, b) in unstaged.iter().enumerate() {
        assert_eq!(hunk_button_action(&b.widget_name), Some(HunkAction::Stage(i)));
    }
    let (staged, _) = populate_hunk_actions(2, true);
    for (i, b) in staged.iter().enumerate() {
        assert_eq!(hunk_button_action(&b.widget_name), Some(HunkAction::Unstage(i)));
    }
    assert_eq!(hunk_button_action("stage-hunk-x"), None);
    assert_eq!(hunk_button_action("stage-hunk-"), None);
    assert_eq!(hunk_button_action("discard-hunk-1"), None);
    assert_eq!(hunk_button_action("unstage-hunk-+12"), Some(HunkAction::Unstage(12)));
}
