use gitpulsar::dialogs::{
    ahead_from_label, ahead_label, delete_branch_question, deleted_branch_message, entered_text, rename_target,
    renamed_message, reset_dialog, tag_request, commit_menu, CommitAction,
};
use gitpulsar::models::ResetMode;

#[test]
fn entries_are_trimmed_and_blank_ones_refused() {
    assert_eq!(entered_text("  feature/x \n"), Some("feature/x".to_string()));
    assert_eq!(entered_text(" \t "), None);
    assert_eq!(entered_text(""), None);
}

#[test]
fn rename_needs_a_different_name() {
    assert_eq!(rename_target("main", "  trunk "), Some("trunk".to_string()));
    assert_eq!(rename_target("main", " main "), None);
    assert_eq!(rename_target("main", "   "), None);
    assert_eq!(renamed_message("main", "trunk"), "Renamed 'main' \u{2192} 'trunk'");
}

#[test]
fn delete_branch_texts() {
    assert_eq!(delete_branch_question("old"), "Delete branch 'old'? This cannot be undone.");
    assert_eq!(deleted_branch_message("old"), "Deleted branch 'old'");
}

#[test]
fn tag_requests() {
    assert!(tag_request("  ", true, "msg").is_none());
    let light = tag_request(" v1.0 ", false, "ignored").unwrap();
    assert_eq!(light.name, "v1.0");
    assert_eq!(light.message, None);
    let annotated = tag_request("v2", true, "  Release two \n").unwrap();
    assert_eq!(annotated.message.as_deref(), Some("Release two"));
    let blank_message = tag_request("v3", true, "   ").unwrap();
    assert_eq!(blank_message.message.as_deref(), Some("v3"));
}

#[test]
fn reset_dialog_texts() {
    let hard = reset_dialog("0123456789abcdef", ResetMode::Hard);
    assert_eq!(hard.heading, "Reset Hard to 0123456?");
    assert_eq!(
        hard.body,
        "Reset HEAD to 0123456? This will discard ALL uncommitted changes (working directory and index)."
    );
    assert_eq!(hard.confirm, "Reset Hard");
    assert!(hard.destructive);
    let soft = reset_dialog("abc", ResetMode::Soft);
    assert_eq!(soft.heading, "Reset Soft to abc?");
    assert_eq!(soft.body, "Reset HEAD to abc? Index and working directory are unchanged.");
    assert!(!soft.destructive);
    let mixed = reset_dialog("fedcba9876", ResetMode::Mixed);
    assert_eq!(mixed.body, "Reset HEAD to fedcba9? Staged changes will be unstaged, working directory unchanged.");
    assert_eq!(mixed.confirm, "Reset Mixed");
}

#[test]
fn ahead_counter_reads_back_its_label() {
    assert_eq!(ahead_label(0), "\u{25b2} 0");
    assert_eq!(ahead_label(42), "\u{25b2} 42");
    for n in [0usize, 7, 42, 1000, usize::MAX] {
        assert_eq!(ahead_from_label(&ahead_label(n)), n);
    }
    assert_eq!(ahead_from_label("\u{25b2} x"), 0);
    assert_eq!(ahead_from_label("5"), 0);
    assert_eq!(ahead_from_label(""), 0);
    assert_eq!(ahead_from_label("\u{25b2} +3"), 3);
}

#[test]
fn commit_menu_entries() {
    let head = commit_menu(0, "abc1234");
    assert_eq!(head.len(), 13);
    assert_eq!((head[0].action, head[0].label.as_str()), (CommitAction::CopySha, "Copy SHA (abc1234)"));
    assert_eq!(head[3].action, CommitAction::Separator);
    assert_eq!(head[9].label, "Reset Hard to Here");
    assert_eq!((head[12].action, head[12].label.as_str()), (CommitAction::EditMessage, "Edit Commit Message"));
    let older = commit_menu(4, "def5678");
    assert_eq!(older.len(), 13);
    assert_eq!((older[12].action, older[12].label.as_str()), (CommitAction::InteractiveRebase(4), "Interactive Rebase\u{2026}"));
    assert!(older.iter().all(|e| e.action != CommitAction::EditMessage));
}
