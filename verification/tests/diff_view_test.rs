use gitpulsar::diff_view::DiffTag::{Addition, Deletion, EmptyLine, FileHeader, HunkHeader, LineNo};
use gitpulsar::diff_view::{diff_height, diff_text_lines, render_file_diff, render_side_by_side, render_unified, DiffTag, Piece};
use gitpulsar::syntax::HighlightSpan;
use gitpulsar::models::{DiffFile, DiffHunk, DiffLine, DiffLineKind, DiffStats};

fn line(kind: DiffLineKind, content: &str, old: Option<u32>, new: Option<u32>) -> DiffLine {
    DiffLine { kind, content: content.to_string(), old_lineno: old, new_lineno: new }
}

fn sample() -> DiffFile {
    DiffFile {
        path: "a.rs".to_string(),
        hunks: vec![DiffHunk {
            header: "@@ -1,2 +1,2 @@".to_string(),
            lines: vec![
                line(DiffLineKind::Context, "x\n", Some(1), Some(1)),
                line(DiffLineKind::Deletion, "y\n", Some(2), None),
                line(DiffLineKind::Addition, "z", None, Some(2)),
            ],
        }],
        stats: DiffStats { insertions: 1, deletions: 1 },
    }
}

fn view(ps: &[Piece]) -> Vec<(&str, Vec<DiffTag>)> {
    ps.iter().map(|p| (p.text.as_str(), p.tags.clone())).collect()
}

#[test]
fn unified_view_text_and_tags() {
    let ps = render_unified(&[sample()]);
    assert_eq!(
        view(&ps),
        vec![
            ("── a.rs (+1 -1) ──\n", vec![FileHeader]),
            ("@@ -1,2 +1,2 @@\n", vec![HunkHeader]),
            ("   1    1 ", vec![LineNo]),
            ("  x\n", vec![]),
            ("   2      ", vec![LineNo, Deletion]),
            ("- y\n", vec![Deletion]),
            ("        2 ", vec![LineNo, Addition]),
            ("+ z\n", vec![Addition]),
            ("\n", vec![]),
        ]
    );
}

#[test]
fn side_by_side_columns_stay_aligned() {
    let (left, right) = render_side_by_side(&[sample()]);
    assert_eq!(
        view(&left),
        vec![
            ("── a.rs (+1 -1) ──\n", vec![FileHeader]),
            ("@@ -1,2 +1,2 @@\n", vec![HunkHeader]),
            ("   1  x\n", vec![]),
            ("   2  y\n", vec![Deletion]),
            ("\n", vec![EmptyLine]),
            ("\n", vec![]),
        ]
    );
    assert_eq!(
        view(&right),
        vec![
            ("── a.rs (+1 -1) ──\n", vec![FileHeader]),
            ("@@ -1,2 +1,2 @@\n", vec![HunkHeader]),
            ("   1  x\n", vec![]),
            ("\n", vec![EmptyLine]),
            ("   2  z\n", vec![Addition]),
            ("\n", vec![]),
        ]
    );
    assert_eq!(left.len(), right.len());
}

#[test]
fn wide_and_missing_line_numbers() {
    let f = DiffFile {
        path: "b".to_string(),
        hunks: vec![DiffHunk {
            header: "@@ -12345 +0,0 @@\n".to_string(),
            lines: vec![line(DiffLineKind::Deletion, "", None, None), line(DiffLineKind::Context, "k", Some(12345), Some(7))],
        }],
        stats: DiffStats { insertions: 0, deletions: 1 },
    };
    let ps = render_unified(&[f.clone()]);
    assert_eq!(ps[2].text, "   0      ");
    assert_eq!(ps[3].text, "- \n");
    assert_eq!(ps[4].text, "12345    7 ");
    let (left, _) = render_side_by_side(&[f]);
    assert_eq!(left[2].text, "   0  \n");
    assert_eq!(left[3].text, "12345  k\n");
}

#[test]
fn no_files_no_text() {
    assert!(render_unified(&[]).is_empty());
    let (l, r) = render_side_by_side(&[]);
    assert!(l.is_empty() && r.is_empty());
}

#[test]
fn changes_view_lines_and_syntax_marks() {
    let file = sample();
    let lines = diff_text_lines(&file, None);
    let got: Vec<(&str, Option<DiffTag>)> = lines.iter().map(|l| (l.text.as_str(), l.tag)).collect();
    assert_eq!(
        got,
        vec![
            ("@@ -1,2 +1,2 @@\n", Some(HunkHeader)),
            (" x\n\n", None),
            ("-y\n\n", Some(Deletion)),
            ("+z\n", Some(Addition)),
        ]
    );
    assert!(lines.iter().all(|l| l.syntax.is_empty()));
    let hl = vec![vec![HighlightSpan { start: 0, end: 1, fg: (1, 2, 171) }], vec![], vec![]];
    let lines = diff_text_lines(&file, Some(&hl));
    assert_eq!(lines[1].syntax.len(), 1);
    let m = &lines[1].syntax[0];
    assert_eq!((m.start, m.end, m.tag_name.as_str(), m.color.as_str()), (0, 1, "syn_0102ab", "#0102ab"));
    assert!(lines[2].syntax.is_empty() && lines[0].syntax.is_empty());
}

#[test]
fn changes_view_with_real_highlighting() {
    let ss = syntect::parsing::SyntaxSet::load_defaults_newlines();
    let ts = syntect::highlighting::ThemeSet::load_defaults();
    let file = DiffFile {
        path: "src/lib.rs".to_string(),
        hunks: vec![DiffHunk {
            header: "@@ -1 +1 @@".to_string(),
            lines: vec![line(DiffLineKind::Addition, "fn main() {}\n", None, Some(1))],
        }],
        stats: DiffStats { insertions: 1, deletions: 0 },
    };
    let view = render_file_diff(&ss, &ts, &file, true);
    let lines = &view.lines;
    assert_eq!(lines[1].text, "+fn main() {}\n\n");
    assert!(!lines[1].syntax.is_empty());
    assert!(lines[1].syntax.iter().all(|m| m.tag_name.starts_with("syn_") && m.color.starts_with('#')));
    let hl = view.highlighted.as_ref().unwrap();
    assert_eq!(hl.theme, "base16-ocean.dark");
    assert_eq!(hl.lines.len(), 1);
    assert_eq!(view.height, 54);
    let light = render_file_diff(&ss, &ts, &file, false);
    assert_eq!(light.highlighted.unwrap().theme, "base16-ocean.light");
    let plain = DiffFile { path: "notes.unknown-ext".to_string(), ..file };
    let plain_view = render_file_diff(&ss, &ts, &plain, false);
    assert!(plain_view.lines[1].syntax.is_empty());
    assert!(plain_view.highlighted.is_none());
}

#[test]
fn rendered_diff_height_follows_its_line_count() {
    let ss = syntect::parsing::SyntaxSet::load_defaults_newlines();
    let ts = syntect::highlighting::ThemeSet::load_defaults();
    let many: Vec<_> = (0..30).map(|i| line(DiffLineKind::Context, "x\n", Some(i), Some(i))).collect();
    let file = DiffFile {
        path: "a.txt".to_string(),
        hunks: vec![
            DiffHunk { header: "@@ -1,10 +1,10 @@".to_string(), lines: many[..10].to_vec() },
            DiffHunk { header: "@@ -20,20 +20,20 @@".to_string(), lines: many[10..].to_vec() },
        ],
        stats: DiffStats { insertions: 0, deletions: 0 },
    };
    assert_eq!(render_file_diff(&ss, &ts, &file, true).height, 450);
    let five = DiffFile { hunks: vec![DiffHunk { header: "@@ -1,5 +1,5 @@".to_string(), lines: many[..5].to_vec() }], ..file };
    assert_eq!(render_file_diff(&ss, &ts, &five, true).height, 90);
}

#[test]
fn diff_view_height_is_capped() {
    assert_eq!(diff_height(0), 54);
    assert_eq!(diff_height(10), 180);
    assert_eq!(diff_height(100), 450);
}
