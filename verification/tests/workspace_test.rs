use gitpulsar::models::{FileStatus, FileStatusKind, RepoStatus};
use gitpulsar::workspace::{compute_indicator, create_repo_row, is_hidden_folder, sort_entries, RepoIndicator, WorkspaceEntry};

fn entry(name: &str, git: bool) -> WorkspaceEntry {
    WorkspaceEntry { name: name.to_string(), path: format!("/ws/{}", name), is_git_repo: git, indicator: None }
}

#[test]
fn indicator_reads_branch_ahead_and_dirtiness() {
    let status = RepoStatus {
        staged: vec![],
        unstaged: vec![FileStatus { path: "a".to_string(), status: FileStatusKind::Modified }],
        untracked: vec![],
    };
    let ind = compute_indicator(Some("main".to_string()), Some((3, 1)), Some(&status));
    assert!(ind.is_dirty);
    assert_eq!(ind.ahead, 3);
    assert_eq!(ind.branch, Some("main".to_string()));
}

#[test]
fn indicator_without_readings_is_clean_and_even() {
    let ind = compute_indicator(None, None, None);
    assert!(!ind.is_dirty);
    assert_eq!(ind.ahead, 0);
    assert_eq!(ind.branch, None);
    let clean = RepoStatus { staged: vec![], unstaged: vec![], untracked: vec![] };
    assert!(!compute_indicator(None, Some((0, 5)), Some(&clean)).is_dirty);
}

#[test]
fn repositories_sort_first_then_by_name() {
    let entries = vec![entry("zeta", false), entry("beta", true), entry("alpha", false), entry("Gamma", true)];
    let sorted = sort_entries(entries);
    let names: Vec<&str> = sorted.iter().map(|e| e.name.as_str()).collect();
    assert_eq!(names, vec!["Gamma", "beta", "alpha", "zeta"]);
}

#[test]
fn sorting_keeps_every_entry() {
    let sorted = sort_entries(vec![entry("b", false), entry("b", false), entry("a", true)]);
    assert_eq!(sorted.len(), 3);
    assert_eq!(sorted[0].name, "a");
    assert_eq!(sorted[1].path, "/ws/b");
    assert!(sort_entries(vec![]).is_empty());
}

#[test]
fn entries_that_sort_alike_keep_their_order() {
    let mut first = entry("same", false);
    first.path = "/one/same".to_string();
    let mut second = entry("same", false);
    second.path = "/two/same".to_string();
    let sorted = sort_entries(vec![first, entry("z", true), second]);
    let paths: Vec<&str> = sorted.iter().map(|e| e.path.as_str()).collect();
    assert_eq!(paths, vec!["/ws/z", "/one/same", "/two/same"]);
}

#[test]
fn indicator_tells_tracked_changes_from_untracked_files() {
    let untracked_only = RepoStatus { staged: vec![], unstaged: vec![], untracked: vec!["new.txt".to_string()] };
    let ind = compute_indicator(None, None, Some(&untracked_only));
    assert!(ind.is_dirty);
    assert!(!ind.has_tracked_changes);
    let staged = RepoStatus {
        staged: vec![FileStatus { path: "a".to_string(), status: FileStatusKind::New }],
        unstaged: vec![],
        untracked: vec![],
    };
    assert!(compute_indicator(None, None, Some(&staged)).has_tracked_changes);
    assert!(!compute_indicator(None, None, None).has_tracked_changes);
}

fn repo_with(is_dirty: bool, in_tracked_files: bool, ahead: usize) -> WorkspaceEntry {
    WorkspaceEntry {
        name: "proj".to_string(),
        path: "/ws/proj".to_string(),
        is_git_repo: true,
        indicator: Some(RepoIndicator { is_dirty, has_tracked_changes: in_tracked_files, ahead, branch: Some("main".to_string()) }),
    }
}

#[test]
fn repo_rows_show_coloured_dots() {
    let yellow = create_repo_row(&repo_with(true, true, 0));
    assert_eq!(yellow.icon, "git-symbolic");
    assert!(!yellow.dimmed && yellow.selectable);
    assert_eq!(yellow.dots.len(), 1);
    assert_eq!((yellow.dots[0].label.as_str(), yellow.dots[0].css_class), ("\u{25cf}", "gp-ind-yellow"));
    assert_eq!(yellow.dots[0].tooltip, "Uncommitted changes");
    assert_eq!(yellow.branch.as_deref(), Some("main"));

    let blue_green = create_repo_row(&repo_with(true, false, 4));
    assert_eq!(blue_green.dots.len(), 2);
    assert_eq!((blue_green.dots[0].css_class, blue_green.dots[0].tooltip.as_str()), ("gp-ind-blue", "Untracked files"));
    assert_eq!(blue_green.dots[1].label, "\u{25cf}4");
    assert_eq!(blue_green.dots[1].css_class, "gp-ind-green");
    assert_eq!(blue_green.dots[1].tooltip, "4 unpushed commit(s)");

    assert!(create_repo_row(&repo_with(false, false, 0)).dots.is_empty());
}

#[test]
fn plain_folders_are_dimmed_and_not_selectable() {
    let row = create_repo_row(&entry("notes", false));
    assert_eq!(row.icon, "folder-symbolic");
    assert!(row.dimmed && !row.selectable);
    assert!(row.dots.is_empty());
    assert_eq!(row.branch, None);
}

#[test]
fn hidden_folders_start_with_a_dot() {
    assert!(is_hidden_folder(".git"));
    assert!(is_hidden_folder(".config"));
    assert!(!is_hidden_folder("project"));
    assert!(!is_hidden_folder("a.b"));
    assert!(!is_hidden_folder(""));
}
