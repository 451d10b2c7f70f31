use gitpulsar::commit_object::{
    apply_signature_flags, commit_objects, more_files_note, row_display, CommitObject, FileList, RowDisplay,
};
use gitpulsar::config::DateFormat;
use gitpulsar::models::{CommitInfo, DiffFile, DiffStats, Signature};

fn sample_info(idx: u32) -> CommitInfo {
    CommitInfo {
        id: format!("{:040x}", idx),
        short_id: format!("{:07x}", idx),
        summary: format!("commit {idx}"),
        message: format!("commit {idx}\n\nbody"),
        author: Signature { name: "Test".into(), email: "t@e.com".into() },
        committer: Signature { name: "Test".into(), email: "t@e.com".into() },
        time: 1_700_000_000 + idx as i64,
        parent_ids: if idx == 0 { vec![] } else { vec![format!("{:040x}", idx - 1)] },
        is_signed: false,
    }
}

fn sample_commit() -> CommitInfo {
    let who = Signature { name: "Test".into(), email: "t@e.com".into() };
    CommitInfo {
        id: "5a6607e2a7e4da9d8dc393d87d7e54a67817d24f".into(),
        short_id: "5a6607e".into(),
        summary: "a commit".into(),
        message: "a commit\n\nbody".into(),
        author: who.clone(),
        committer: who,
        time: 1_700_000_000,
        parent_ids: vec![],
        is_signed: false,
    }
}

#[test]
fn from_info_copies_fields() {
    let info = sample_info(7);
    let obj = CommitObject::from_info(&info, vec!["v1".into()], true, false);

    assert_eq!(obj.id(), info.id);
    assert_eq!(obj.short_id(), info.short_id);
    assert_eq!(obj.summary(), info.summary);
    assert_eq!(obj.message(), info.message);
    assert_eq!(obj.tags(), vec!["v1".to_string()]);
    assert!(obj.is_head());
    assert!(!obj.is_unpushed());
    assert!(!obj.expanded());
    assert!(!obj.files_loaded());
    assert!(!obj.is_load_more_sentinel());
}

#[test]
fn load_more_sentinel_flag() {
    let s = CommitObject::load_more_sentinel();
    assert!(s.is_load_more_sentinel());
    assert!(s.id().is_empty());
    assert!(!s.is_head());
}

#[test]
fn expanded_toggle() {
    let mut obj = CommitObject::from_info(&sample_info(0), vec![], false, false);
    assert!(!obj.expanded());
    obj.set_expanded(true);
    assert!(obj.expanded());
    obj.set_expanded(false);
    assert!(!obj.expanded());
}

#[test]
fn signature_flags_land_on_matching_commits() {
    let mut store = vec![
        CommitObject::from_info(&sample_commit(), vec![], true, false),
        CommitObject::load_more_sentinel(),
    ];
    let id = store[0].id();
    let changed = apply_signature_flags(&mut store, &[(id, true), ("no-such-commit".to_string(), true)]);
    assert_eq!(changed.len(), 1, "only the matching commit is reported");
    assert!(store[0].is_signed());
    assert_eq!(store.len(), 2, "unknown ids must not touch the store");
}

#[test]
fn signed_rows_are_not_reported_again() {
    let mut store = vec![CommitObject::from_info(&sample_commit(), vec![], true, false)];
    let flags = [(store[0].id(), true)];
    assert_eq!(apply_signature_flags(&mut store, &flags).len(), 1);
    assert!(apply_signature_flags(&mut store, &flags).is_empty());
    let unsigned = [(store[0].id(), false)];
    let mut fresh = vec![CommitObject::from_info(&sample_commit(), vec![], true, false)];
    assert!(apply_signature_flags(&mut fresh, &unsigned).is_empty());
    assert!(!fresh[0].is_signed());
}

#[test]
fn getters_give_back_the_commit() {
    let info = sample_info(3);
    let mut obj = CommitObject::from_info(&info, vec![], false, true);
    assert_eq!(obj.author().name, "Test");
    assert_eq!(obj.time_unix(), 1_700_000_003);
    assert_eq!(obj.parent_ids(), vec![format!("{:040x}", 2)]);
    assert!(obj.is_unpushed());
    assert!(obj.files().is_empty());
    obj.set_files(vec![DiffFile { path: "a".into(), hunks: vec![], stats: DiffStats { insertions: 1, deletions: 0 } }]);
    obj.set_files_loaded(true);
    assert_eq!(obj.files().len(), 1);
    assert!(obj.files_loaded());
    obj.set_is_signed(true);
    assert!(obj.is_signed());
}

#[test]
fn a_page_of_rows_marks_head_unpushed_and_load_more() {
    let commits = vec![sample_info(2), sample_info(1), sample_info(0)];
    let tags = vec![(format!("{:040x}", 1), vec!["v1.0".to_string(), "stable".to_string()])];
    let rows = commit_objects(&commits, &tags, 2, 0, true);
    assert_eq!(rows.len(), 4);
    assert!(rows[0].is_head() && !rows[1].is_head());
    assert!(rows[0].is_unpushed() && rows[1].is_unpushed() && !rows[2].is_unpushed());
    assert_eq!(rows[1].tags(), vec!["v1.0".to_string(), "stable".to_string()]);
    assert!(rows[0].tags().is_empty());
    assert!(rows[3].is_load_more_sentinel());
    let next = commit_objects(&commits[..1], &tags, 2, 50, false);
    assert_eq!(next.len(), 1);
    assert!(!next[0].is_head() && !next[0].is_unpushed());
}

fn sample_diff_file(path: &str) -> DiffFile {
    DiffFile { path: path.to_string(), hunks: vec![], stats: DiffStats { insertions: 1, deletions: 0 } }
}

#[test]
fn file_list_respects_the_configured_cap() {
    let mut obj = CommitObject::from_info(&sample_commit(), vec![], true, false);
    obj.set_files(vec![sample_diff_file("a.rs"), sample_diff_file("b.rs"), sample_diff_file("c.rs")]);
    obj.set_files_loaded(true);
    obj.set_expanded(true);
    let RowDisplay::Commit(d) = row_display(&obj, DateFormat::Iso, 1_700_000_000, 2) else {
        panic!("a commit row");
    };
    let children = match d.files {
        Some(FileList::Files { shown, hidden }) => shown + if hidden > 0 { 1 } else { 0 },
        _ => 0,
    };
    assert_eq!(children, 3, "two file rows plus the overflow note");
    assert_eq!(more_files_note(1), "… and 1 more files");
}

#[test]
fn rebind_reveals_expanded_detail() {
    let mut obj = CommitObject::from_info(&sample_commit(), vec![], true, false);
    obj.set_expanded(true);
    let revealed_when_expanded = match row_display(&obj, DateFormat::Iso, 1_700_000_000, 10) {
        RowDisplay::Commit(d) => d.reveal_detail,
        RowDisplay::LoadMore => false,
    };
    obj.set_expanded(false);
    let revealed_when_collapsed = match row_display(&obj, DateFormat::Iso, 1_700_000_000, 10) {
        RowDisplay::Commit(d) => d.reveal_detail,
        RowDisplay::LoadMore => true,
    };
    assert!(revealed_when_expanded, "expanded commit must reveal detail");
    assert!(!revealed_when_collapsed, "collapsing must hide detail again");
}

#[test]
fn row_texts_and_file_states() {
    let mut obj = CommitObject::from_info(&sample_commit(), vec!["v2".to_string()], true, false);
    let RowDisplay::Commit(d) = row_display(&obj, DateFormat::Iso, 1_700_000_000 + 7200, 10) else {
        panic!("a commit row");
    };
    assert_eq!(d.hash, "5a6607e");
    assert_eq!(d.message, "a commit");
    assert_eq!(d.meta, "Test 2h ago");
    assert!(d.edit_button && !d.signed_icon);
    assert_eq!(d.tags, vec!["v2".to_string()]);
    assert_eq!(d.files, None);
    obj.set_expanded(true);
    let RowDisplay::Commit(d) = row_display(&obj, DateFormat::Iso, 1_700_000_000, 0) else { panic!("row") };
    assert_eq!(d.files, Some(FileList::Loading));
    obj.set_files_loaded(true);
    let RowDisplay::Commit(d) = row_display(&obj, DateFormat::Iso, 1_700_000_000, 0) else { panic!("row") };
    assert_eq!(d.files, Some(FileList::NoChanges));
    obj.set_files(vec![sample_diff_file("a"), sample_diff_file("b")]);
    let RowDisplay::Commit(d) = row_display(&obj, DateFormat::Iso, 1_700_000_000, 0) else { panic!("row") };
    assert_eq!(d.files, Some(FileList::Files { shown: 1, hidden: 1 }));
    assert!(matches!(row_display(&CommitObject::load_more_sentinel(), DateFormat::Iso, 0, 10), RowDisplay::LoadMore));
}
