use gitpulsar::repo::{BranchInfo, WorktreeInfo};
use gitpulsar::views::{
    populate_branches, populate_worktrees, commit_matches_filter, conflict_banner, next_focus_panel, apply_row_limit, update_section_header, truncate, insert_prefix,
    GitOperation, populate_stashes, populate_submodules, stash_popover_body, StashPopoverBody, initial_selection,
    compare_pick, compare_results, commit_matches_search,
};
use gitpulsar::models::{DiffFile, DiffStats, StashEntry, SubmoduleInfo};

#[test]
fn search_ignores_case_and_surrounding_space() {
    assert!(commit_matches_filter("  FIX ", "Fix parser bug", "abc1234", "abc1234def", false));
    assert!(commit_matches_filter("DEF", "unrelated", "abc1234", "abc1234def", false));
    assert!(commit_matches_filter("c12", "unrelated", "abc1234", "abc1234def", false));
    assert!(!commit_matches_filter("zzz", "Fix parser bug", "abc1234", "abc1234def", false));
}

#[test]
fn blank_search_and_load_more_row_always_show() {
    assert!(commit_matches_filter("   ", "anything", "a", "a", false));
    assert!(commit_matches_filter("zzz", "", "", "", true));
}

#[test]
fn search_lowercases_beyond_ascii() {
    assert!(commit_matches_filter("ÉTÉ", "Notes d'été", "1", "1", false));
}

#[test]
fn conflict_banner_texts_and_actions() {
    assert!(conflict_banner(false, false, false).is_none());
    let b = conflict_banner(true, false, false).unwrap();
    assert_eq!(b.message, "Conflicts detected — resolve files and mark as resolved");
    assert_eq!(b.operation, None);
    let b = conflict_banner(false, true, false).unwrap();
    assert_eq!((b.message.as_str(), b.operation), ("Merge in progress", Some(GitOperation::Merge)));
    let b = conflict_banner(false, false, true).unwrap();
    assert_eq!((b.message.as_str(), b.operation), ("Rebase in progress", Some(GitOperation::Rebase)));
    let b = conflict_banner(true, true, true).unwrap();
    assert!(b.message.starts_with("Conflicts detected"));
    assert_eq!(b.operation, Some(GitOperation::Rebase));
}

#[test]
fn long_lists_hide_rows_past_the_limit() {
    assert_eq!(apply_row_limit(10, 0), None);
    assert_eq!(apply_row_limit(3, 3), None);
    assert_eq!(apply_row_limit(10, 3), Some((7, "Show all (7 more)".to_string())));
    assert_eq!(apply_row_limit(5, 3_000_000_000), None);
    assert_eq!(apply_row_limit(3_000_000_005, 3_000_000_000), Some((5, "Show all (5 more)".to_string())));
    assert_eq!(apply_row_limit(0, 3), None);
}

#[test]
fn blame_cells_are_cut_with_an_ellipsis() {
    assert_eq!(truncate("Alexander Hamilton-Smith", 16), "Alexander Hamil…");
    assert_eq!(truncate("short", 16), "short");
    assert_eq!(truncate("exactly16bytes!!", 16), "exactly16bytes!!");
}

#[test]
fn commit_type_prefix_is_added_or_replaced() {
    assert_eq!(insert_prefix("add parser", "feat: "), "feat: add parser");
    assert_eq!(insert_prefix("fix: typo", "docs: "), "docs: typo");
    assert_eq!(insert_prefix("feat(ui): button", "fix: "), "fix: button");
    assert_eq!(insert_prefix("feat without colon", "fix: "), "fix: feat without colon");
    assert_eq!(insert_prefix("note: x", "fix: "), "fix: note: x");
    assert_eq!(insert_prefix("", "ci: "), "ci: ");
}

#[test]
fn prefix_span_is_measured_in_characters() {
    assert_eq!(insert_prefix("feat(ü): xy", "fix: "), "fix: xy");
    assert_eq!(insert_prefix("fix(日本): 説明", "docs: "), "docs: 説明");
}

#[test]
fn focus_cycles_through_the_panels() {
    assert_eq!(next_focus_panel(0, 3, true), 1);
    assert_eq!(next_focus_panel(2, 3, true), 0);
    assert_eq!(next_focus_panel(0, 3, false), 2);
    assert_eq!(next_focus_panel(2, 3, false), 1);
    assert_eq!(next_focus_panel(5, 2, true), 0);
}

#[test]
fn section_headers_count_their_rows() {
    let h = update_section_header("Local", 3);
    assert!(h.visible);
    assert_eq!(h.label, "Local (3)");
    assert_eq!(h.widget_name, "section-label-local");
    let h = update_section_header("Remote", 0);
    assert!(!h.visible);
    assert_eq!(h.label, "Remote (0)");
}

fn branch(name: &str, head: bool, remote: bool, ahead: usize, behind: usize) -> BranchInfo {
    BranchInfo { name: name.to_string(), is_head: head, is_remote: remote, upstream: None, ahead, behind }
}

#[test]
fn branch_rows_split_local_and_remote() {
    let bs = vec![
        branch("main", true, false, 2, 0),
        branch("origin/main", false, true, 5, 5),
        branch("dev", false, false, 0, 0),
        branch("topic", false, false, 0, 3),
    ];
    let (local, remote) = populate_branches(&bs);
    let names: Vec<&str> = local.iter().map(|r| r.name.as_str()).collect();
    assert_eq!(names, vec!["main", "dev", "topic"]);
    assert_eq!(remote.len(), 1);
    assert_eq!(remote[0].badge, None);
    assert_eq!((local[0].icon_class, local[0].check_mark), ("success", true));
    assert_eq!((local[1].icon_class, local[1].check_mark), ("dim-label", false));
    assert_eq!(local[0].badge.as_deref(), Some("▲2 ▼0"));
    assert_eq!(local[1].badge, None);
    assert_eq!(local[2].badge.as_deref(), Some("▲0 ▼3"));
}

#[test]
fn worktree_rows_only_with_linked_worktrees() {
    let main = WorktreeInfo { name: "main".to_string(), path: "/r".to_string(), is_current: true };
    assert!(populate_worktrees(&[main.clone()]).is_empty());
    let wt = WorktreeInfo { name: "wt".to_string(), path: "/w".to_string(), is_current: false };
    let rows = populate_worktrees(&[main, wt]);
    assert_eq!(rows.len(), 2);
    assert_eq!((rows[0].icon, rows[0].open_button), ("object-select-symbolic", false));
    assert_eq!((rows[1].icon, rows[1].name.as_str(), rows[1].tooltip.as_str(), rows[1].open_button), ("folder-symbolic", "wt", "/w", true));
}

#[test]
fn stash_rows_carry_index_and_message() {
    let entries = vec![
        StashEntry { index: 0, message: "WIP on main: fix".to_string() },
        StashEntry { index: 12, message: "On dev: try".to_string() },
    ];
    let rows = populate_stashes(&entries);
    assert_eq!(rows.len(), 2);
    assert_eq!(rows[0].label, "0: WIP on main: fix");
    assert_eq!(rows[1].label, "12: On dev: try");
    assert_eq!(rows[1].tooltip, "On dev: try");
    assert_eq!(rows[1].index, 12);
    assert!(populate_stashes(&[]).is_empty());
}

#[test]
fn submodule_rows_mark_uninitialised_ones() {
    let subs = vec![
        SubmoduleInfo { name: "vendor/lib".to_string(), url: "https://example.org/lib.git".to_string(), is_initialized: true },
        SubmoduleInfo { name: "docs".to_string(), url: "../docs.git".to_string(), is_initialized: false },
    ];
    let rows = populate_submodules(&subs);
    assert_eq!(rows.len(), 2);
    assert_eq!((rows[0].icon, rows[0].not_init), ("folder-remote-symbolic", false));
    assert_eq!(rows[0].tooltip, "https://example.org/lib.git");
    assert_eq!((rows[1].icon, rows[1].name.as_str(), rows[1].not_init), ("folder-symbolic", "docs", true));
}

#[test]
fn stash_popover_states() {
    assert!(matches!(stash_popover_body(false, true, None), StashPopoverBody::Notice("No repository selected")));
    assert!(matches!(stash_popover_body(true, false, None), StashPopoverBody::Blank));
    assert!(matches!(stash_popover_body(true, true, None), StashPopoverBody::Notice("No stashes")));
    assert!(matches!(stash_popover_body(true, true, Some(&[])), StashPopoverBody::Notice("No stashes")));
    let entries = vec![StashEntry { index: 3, message: "On main: tmp".to_string() }];
    match stash_popover_body(true, true, Some(&entries)) {
        StashPopoverBody::Rows(rows) => {
            assert_eq!(rows.len(), 1);
            assert_eq!(rows[0].title, "stash@{3}");
            assert_eq!(rows[0].subtitle, "On main: tmp");
            assert_eq!(rows[0].drop_index, 3);
        }
        other => panic!("unexpected {:?}", other),
    }
}

#[test]
fn compare_picker_starts_on_named_branches() {
    let bs = vec![branch("main", true, false, 0, 0), branch("dev", false, false, 0, 0), branch("dev", false, true, 0, 0)];
    assert_eq!(initial_selection(&bs, Some("dev")), Some(1));
    assert_eq!(initial_selection(&bs, Some("main")), Some(0));
    assert_eq!(initial_selection(&bs, Some("gone")), None);
    assert_eq!(initial_selection(&bs, None), None);
}

#[test]
fn compare_needs_two_different_branches() {
    let bs = vec![branch("main", true, false, 0, 0), branch("dev", false, false, 0, 0)];
    assert_eq!(compare_pick(&bs, 0, 1), Some(("main".to_string(), "dev".to_string())));
    assert_eq!(compare_pick(&bs, 1, 1), None);
    assert_eq!(compare_pick(&bs, 0, 7), None);
    assert_eq!(compare_pick(&[], 0, 0), None);
}

#[test]
fn compare_results_sum_the_line_counts() {
    let files = vec![
        DiffFile { path: "src/a.rs".to_string(), hunks: vec![], stats: DiffStats { insertions: 3, deletions: 1 } },
        DiffFile { path: "b<c>.md".to_string(), hunks: vec![], stats: DiffStats { insertions: 10, deletions: 0 } },
    ];
    let r = compare_results(&files);
    assert_eq!(r.summary, "2 file(s), +13/-1 lines");
    assert_eq!(r.notice, None);
    assert_eq!(r.rows.len(), 2);
    assert_eq!(r.rows[0].title, "src/a.rs");
    assert_eq!(r.rows[0].subtitle, "+3 \u{2212}1");
    assert_eq!(r.rows[1].subtitle, "+10 \u{2212}0");
    let empty = compare_results(&[]);
    assert_eq!(empty.summary, "0 file(s), +0/-0 lines");
    assert_eq!(empty.notice, Some("No differences"));
    assert!(empty.rows.is_empty());
}

#[test]
fn window_search_covers_summary_author_and_short_id() {
    assert!(commit_matches_search("", "anything", "A", "abc"));
    assert!(commit_matches_search("PARSER", "Fix parser bug", "Ann", "abc1234"));
    assert!(commit_matches_search("ann", "Fix parser bug", "Ann Lee", "abc1234"));
    assert!(commit_matches_search("C12", "Fix", "Ann", "abc1234"));
    assert!(!commit_matches_search("zzz", "Fix parser bug", "Ann", "abc1234"));
    // The query is taken as typed: surrounding spaces count.
    assert!(!commit_matches_search(" fix ", "Fix parser bug", "Ann", "abc1234"));
    assert!(commit_matches_search("Été", "notes d'été", "x", "1"));
}
