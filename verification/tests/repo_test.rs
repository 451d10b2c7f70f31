use gitpulsar::models::{CommitInfo, FileStatusKind, RepoStatus, Signature};
use gitpulsar::repo::{
    added_worktree_message, append_ignore_pattern, branch_info, classify_status, command_outcome,
    commit_info, created_branch_message, deletes_current_branch, failure_message,
    has_uncommitted_changes, is_dirty, local_branch_name, local_ref_name, rebase_entries,
    rebase_todo, remote_ref_name, removed_worktree_message, short_id, should_delete_branch,
    str_eq, upstream_ref_name, worktree_add_args, worktree_list, RebaseAction, RebaseEntry,
    INDEX_MODIFIED, INDEX_NEW, WT_DELETED, WT_MODIFIED, WT_NEW, clone_target_name,
    git_wait, GitWait, GIT_TIMEOUT_MS, rebase_outcome, rebase_editor_script,
};

fn sig() -> Signature {
    Signature { name: "A".to_string(), email: "a@example.com".to_string() }
}

fn commit(id: &str, summary: &str) -> CommitInfo {
    commit_info(
        id.to_string(),
        Some(summary.to_string()),
        Some(format!("{}\n", summary)),
        sig(),
        sig(),
        1,
        vec![],
    )
}

#[test]
fn status_entries_are_sorted_into_lists() {
    let entries = vec![
        ("new.txt".to_string(), INDEX_NEW),
        ("both.txt".to_string(), INDEX_MODIFIED | WT_MODIFIED),
        ("gone.txt".to_string(), WT_DELETED),
        ("fresh.txt".to_string(), WT_NEW),
        ("clean.txt".to_string(), 0),
    ];
    let s = classify_status(&entries);
    let staged: Vec<(String, FileStatusKind)> =
        s.staged.iter().map(|f| (f.path.clone(), f.status)).collect();
    let unstaged: Vec<(String, FileStatusKind)> =
        s.unstaged.iter().map(|f| (f.path.clone(), f.status)).collect();
    assert_eq!(
        staged,
        vec![
            ("new.txt".to_string(), FileStatusKind::New),
            ("both.txt".to_string(), FileStatusKind::Modified)
        ]
    );
    assert_eq!(
        unstaged,
        vec![
            ("both.txt".to_string(), FileStatusKind::Modified),
            ("gone.txt".to_string(), FileStatusKind::Deleted)
        ]
    );
    assert_eq!(s.untracked, vec!["fresh.txt".to_string()]);
    assert!(is_dirty(&s));
}

#[test]
fn empty_status_is_clean() {
    let s = RepoStatus { staged: vec![], unstaged: vec![], untracked: vec![] };
    assert!(!is_dirty(&s));
    assert!(!is_dirty(&classify_status(&[])));
}

#[test]
fn untracked_files_do_not_block_checkout() {
    assert!(!has_uncommitted_changes(&[WT_NEW, 0]));
    assert!(has_uncommitted_changes(&[WT_NEW, WT_MODIFIED]));
    assert!(has_uncommitted_changes(&[INDEX_NEW]));
    assert!(!has_uncommitted_changes(&[]));
}

#[test]
fn ref_names() {
    assert_eq!(upstream_ref_name("main"), "refs/remotes/origin/main");
    assert_eq!(remote_ref_name("origin/feature"), "refs/remotes/origin/feature");
    assert_eq!(local_ref_name("dev"), "refs/heads/dev");
    assert_eq!(local_branch_name("origin/feature/x"), "feature/x");
    assert_eq!(local_branch_name("plain"), "plain");
}

#[test]
fn short_ids_and_messages() {
    assert_eq!(short_id("0123456789abcdef"), "0123456");
    assert_eq!(short_id("abc"), "abc");
    assert_eq!(
        created_branch_message("topic", "0123456789abcdef"),
        "Created branch 'topic' at 0123456"
    );
    assert_eq!(added_worktree_message("/tmp/wt"), "Added worktree at '/tmp/wt'");
    assert_eq!(removed_worktree_message("wt"), "Removed worktree 'wt'");
}

#[test]
fn branch_deletion_checks() {
    assert!(deletes_current_branch(true, Some("main"), "main"));
    assert!(!deletes_current_branch(true, Some("main"), "dev"));
    assert!(!deletes_current_branch(false, Some("main"), "main"));
    assert!(!deletes_current_branch(true, None, "main"));
    assert!(should_delete_branch(true, true));
    assert!(should_delete_branch(true, false));
    assert!(should_delete_branch(false, true));
    assert!(!should_delete_branch(false, false));
    assert!(str_eq("é", "é"));
    assert!(!str_eq("a", "ab"));
}

#[test]
fn ignore_patterns_go_on_their_own_line() {
    assert_eq!(append_ignore_pattern("", "target/"), "target/\n");
    assert_eq!(append_ignore_pattern("*.o", "target/"), "*.o\ntarget/\n");
    assert_eq!(append_ignore_pattern("*.o\n", "target/"), "*.o\ntarget/\n");
}

#[test]
fn rebase_entries_are_oldest_first_and_picked() {
    let commits = vec![commit("cccccccccc", "third"), commit("bbbbbbbbbb", "second")];
    let entries = rebase_entries(&commits);
    assert_eq!(entries.len(), 2);
    assert_eq!(entries[0].commit_id, "bbbbbbbbbb");
    assert_eq!(entries[0].short_id, "bbbbbbb");
    assert_eq!(entries[0].message, "second");
    assert_eq!(entries[0].action, RebaseAction::Pick);
    assert_eq!(entries[1].message, "third");
}

#[test]
fn rebase_todo_lines() {
    let e = |action, short: &str, msg: &str| RebaseEntry {
        commit_id: format!("{}000", short),
        short_id: short.to_string(),
        message: msg.to_string(),
        action,
    };
    let entries = vec![
        e(RebaseAction::Pick, "aaa", "first"),
        e(RebaseAction::Squash, "bbb", "second"),
        e(RebaseAction::Fixup, "ccc", "third"),
        e(RebaseAction::Reword, "ddd", "fourth"),
        e(RebaseAction::Edit, "eee", "fifth"),
        e(RebaseAction::Drop, "fff", "sixth"),
    ];
    assert_eq!(
        rebase_todo(&entries),
        "pick aaa first\nsquash bbb second\nfixup ccc third\nreword ddd fourth\nedit eee fifth\ndrop fff sixth"
    );
    assert_eq!(rebase_todo(&[]), "");
}

#[test]
fn failed_commands_report_stderr_then_stdout() {
    assert_eq!(failure_message("out\n", "  fatal: bad  \n"), "fatal: bad");
    assert_eq!(failure_message("  CONFLICT  \n", " \n"), "CONFLICT");
    assert_eq!(command_outcome(true, "ignored", "Merged successfully"), Ok("Merged successfully".to_string()));
    assert_eq!(command_outcome(false, "\nerror: conflict\n", "ok"), Err("error: conflict".to_string()));
}

#[test]
fn worktrees_list_main_first() {
    let linked = vec![("wt1".to_string(), "/w/1".to_string())];
    let list = worktree_list("/repo", &linked);
    assert_eq!(list.len(), 2);
    assert_eq!((list[0].name.as_str(), list[0].path.as_str(), list[0].is_current), ("main", "/repo", true));
    assert_eq!((list[1].name.as_str(), list[1].path.as_str(), list[1].is_current), ("wt1", "/w/1", false));
    assert_eq!(worktree_add_args("/w/2", Some("topic")), vec!["worktree", "add", "-b", "topic", "/w/2"]);
    assert_eq!(worktree_add_args("/w/2", None), vec!["worktree", "add", "/w/2"]);
}

#[test]
fn commit_info_defaults_missing_text_to_empty() {
    let c = commit_info("0123456789".to_string(), None, None, sig(), sig(), 42, vec!["p".to_string()]);
    assert_eq!(c.short_id, "0123456");
    assert_eq!(c.summary, "");
    assert_eq!(c.message, "");
    assert_eq!(c.time, 42);
    assert_eq!(c.parent_ids, vec!["p".to_string()]);
}

#[test]
fn branch_info_of_local_and_remote_branches() {
    let b = branch_info("main".to_string(), false, Some("abc"), Some("abc"), Some("origin/main".to_string()), Some((2, 1)));
    assert!(b.is_head);
    assert_eq!(b.upstream, Some("origin/main".to_string()));
    assert_eq!((b.ahead, b.behind), (2, 1));
    let r = branch_info("origin/main".to_string(), true, Some("abc"), Some("def"), Some("x".to_string()), Some((2, 1)));
    assert!(!r.is_head);
    assert!(r.is_remote);
    assert_eq!(r.upstream, None);
    assert_eq!((r.ahead, r.behind), (0, 0));
    let n = branch_info("dev".to_string(), false, None, Some("abc"), None, None);
    assert!(!n.is_head);
    assert_eq!((n.ahead, n.behind), (0, 0));
}

#[test]
fn clone_folder_is_last_url_segment_without_git_suffix() {
    assert_eq!(clone_target_name("https://github.com/user/repo.git"), "repo");
    assert_eq!(clone_target_name("https://github.com/user/repo/"), "repo");
    assert_eq!(clone_target_name("https://github.com/user/repo//"), "repo");
    assert_eq!(clone_target_name("git@host:team/proj.git.git"), "proj");
    assert_eq!(clone_target_name("plain"), "plain");
    assert_eq!(clone_target_name("https://h/u/.git"), "");
    assert_eq!(clone_target_name("https://h/u/a.gitx"), "a.gitx");
    assert_eq!(clone_target_name(""), "");
}

#[test]
fn git_commands_are_given_up_after_thirty_seconds() {
    assert_eq!(GIT_TIMEOUT_MS, 30_000);
    assert_eq!(git_wait(true, 0), GitWait::Finished);
    assert_eq!(git_wait(true, 45_000), GitWait::Finished);
    assert_eq!(git_wait(false, 29_999), GitWait::KeepWaiting);
    assert_eq!(git_wait(false, 30_000), GitWait::GiveUp);
    assert_eq!(git_wait(false, u64::MAX), GitWait::GiveUp);
}

#[test]
fn rebase_outcome_and_editor_script() {
    assert_eq!(rebase_outcome(true, "anything", ""), Ok("Rebase completed".to_string()));
    assert_eq!(rebase_outcome(false, "out\n", "  CONFLICT in a.rs \n"), Err("CONFLICT in a.rs".to_string()));
    assert_eq!(rebase_outcome(false, " stopped \n", "  "), Err("stopped".to_string()));
    assert_eq!(rebase_editor_script("/tmp/todo"), "#!/bin/sh\ncp '/tmp/todo' \"$1\"\n");
}
