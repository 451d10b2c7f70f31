use gitpulsar::graph::compute_graph;
use gitpulsar::models::{CommitInfo, Signature};

fn sig() -> Signature {
    Signature { name: "A".to_string(), email: "a@example.com".to_string() }
}

fn commit(id: &str, parents: &[&str]) -> CommitInfo {
    CommitInfo {
        id: id.to_string(),
        short_id: id.chars().take(7).collect(),
        summary: format!("commit {}", id),
        message: format!("commit {}\n", id),
        author: sig(),
        committer: sig(),
        time: 0,
        parent_ids: parents.iter().map(|p| p.to_string()).collect(),
        is_signed: false,
    }
}

#[test]
fn empty_history_has_no_rows() {
    assert!(compute_graph(&[]).is_empty());
}

#[test]
fn linear_history_stays_in_one_lane() {
    let commits = vec![commit("c3", &["c2"]), commit("c2", &["c1"]), commit("c1", &[])];
    let rows = compute_graph(&commits);
    assert_eq!(rows.len(), 3);
    for row in &rows {
        assert_eq!(row.commit_lane, 0);
        assert_eq!(row.color_idx, 0);
        assert!(row.merge_sources.is_empty());
        assert_eq!(row.lane_colors, vec![0]);
    }
    assert_eq!(rows[0].lanes, vec![Some(true)]);
    assert_eq!(rows[0].num_active_lanes, 1);
    assert_eq!(rows[2].lanes, vec![None]);
    assert_eq!(rows[2].num_active_lanes, 0);
    assert_eq!(rows[1].summary, "commit c2");
    assert_eq!(rows[1].short_id, "c2");
}

#[test]
fn merge_opens_a_second_lane() {
    let commits = vec![
        commit("m", &["a", "f"]),
        commit("a", &["base"]),
        commit("f", &["base"]),
        commit("base", &[]),
    ];
    let rows = compute_graph(&commits);
    assert_eq!(rows.len(), 4);
    assert_eq!(rows[0].commit_lane, 0);
    assert_eq!(rows[0].merge_sources, vec![(1, 1)]);
    assert_eq!(rows[0].lanes, vec![Some(true), Some(true)]);
    assert_eq!(rows[0].lane_colors, vec![0, 1]);
    assert_eq!(rows[0].num_active_lanes, 2);
    assert_eq!((rows[1].commit_lane, rows[1].color_idx), (0, 0));
    assert_eq!((rows[2].commit_lane, rows[2].color_idx), (1, 1));
    assert_eq!(rows[3].commit_lane, 0);
    assert_eq!(rows[3].lanes, vec![None, Some(true)]);
    assert_eq!(rows[3].num_active_lanes, 1);
}

#[test]
fn parent_outside_the_list_closes_the_lane() {
    let commits = vec![commit("x", &["missing"]), commit("y", &[])];
    let rows = compute_graph(&commits);
    assert_eq!(rows[0].lanes, vec![None]);
    assert_eq!(rows[0].num_active_lanes, 0);
    // The free lane is reused, with the next colour.
    assert_eq!((rows[1].commit_lane, rows[1].color_idx), (0, 1));
    assert_eq!(rows[1].lane_colors, vec![1]);
}

#[test]
fn lanes_never_shrink() {
    let commits = vec![
        commit("m", &["a", "f"]),
        commit("a", &["base"]),
        commit("f", &["base"]),
        commit("base", &[]),
    ];
    let rows = compute_graph(&commits);
    for w in rows.windows(2) {
        assert!(w[0].lanes.len() <= w[1].lanes.len());
    }
    for row in &rows {
        assert!(row.commit_lane < row.lanes.len());
        assert_eq!(row.lanes.len(), row.lane_colors.len());
        assert!(row.color_idx < 8);
    }
}

#[test]
fn rows_agree_with_themselves() {
    let commits = vec![
        commit("m2", &["m1", "f2", "g1"]),
        commit("f2", &["f1"]),
        commit("m1", &["base", "f1"]),
        commit("g1", &["base"]),
        commit("f1", &["base"]),
        commit("base", &[]),
    ];
    for row in compute_graph(&commits) {
        assert!(row.lanes.iter().all(|l| *l == Some(true) || l.is_none()));
        assert_eq!(row.num_active_lanes, row.lanes.iter().filter(|l| l.is_some()).count());
        for &(lane, color) in &row.merge_sources {
            assert!(row.lanes[lane].is_some());
            assert_eq!(row.lane_colors[lane], color);
        }
    }
}
