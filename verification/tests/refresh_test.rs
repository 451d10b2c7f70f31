use gitpulsar::refresh::{reads_diffs, RefreshApply, RefreshResult, RefreshStart, RefreshState};

#[test]
fn one_refresh_at_a_time_and_workspace_every_fourth_tick() {
    let mut st = RefreshState::new();
    assert_eq!(st.on_tick(false), None);
    assert_eq!(st.on_tick(true), Some(RefreshStart { scan_workspace: true, prev_status_hash: 0 }));
    assert_eq!(st.on_tick(true), None, "a refresh is still running");
    let r = RefreshResult { status_hash: Some(42), workspace_hash: Some(7), ahead: 1, behind: 0 };
    assert_eq!(st.on_result(r), RefreshApply { status: true, ahead_behind: true, workspace: true });
    let mut scans = Vec::new();
    for _ in 0..4 {
        let start = st.on_tick(true).unwrap();
        assert_eq!(start.prev_status_hash, 42);
        scans.push(start.scan_workspace);
        st.on_result(RefreshResult { status_hash: Some(42), workspace_hash: None, ahead: 1, behind: 0 });
    }
    assert_eq!(scans, vec![false, false, false, true]);
}

#[test]
fn unchanged_results_redraw_nothing() {
    let mut st = RefreshState::new();
    st.on_tick(true);
    st.on_result(RefreshResult { status_hash: Some(5), workspace_hash: Some(9), ahead: 2, behind: 3 });
    st.on_tick(true);
    let apply = st.on_result(RefreshResult { status_hash: Some(5), workspace_hash: Some(9), ahead: 2, behind: 3 });
    assert_eq!(apply, RefreshApply { status: false, ahead_behind: false, workspace: false });
    st.on_tick(true);
    let apply = st.on_result(RefreshResult { status_hash: None, workspace_hash: None, ahead: 2, behind: 4 });
    assert_eq!(apply, RefreshApply { status: false, ahead_behind: true, workspace: false });
    st.forget_status();
    st.forget_workspace();
    st.on_tick(true);
    let apply = st.on_result(RefreshResult { status_hash: Some(5), workspace_hash: Some(9), ahead: 2, behind: 4 });
    assert_eq!(apply, RefreshApply { status: true, ahead_behind: false, workspace: true });
}

#[test]
fn tick_counter_wraps() {
    let mut st = RefreshState::new();
    st.tick = u32::MAX;
    let start = st.on_tick(true).unwrap();
    assert!(!start.scan_workspace);
    assert_eq!(st.tick, 0);
    assert!(reads_diffs(1, 0));
    assert!(!reads_diffs(3, 3));
}
