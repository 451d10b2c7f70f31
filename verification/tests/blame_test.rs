use gitpulsar::blame::render_blame;
use gitpulsar::models::{BlameLine, FileStatus, FileStatusKind, RepoStatus};
use gitpulsar::views::status_summary;

fn blame(commit: &str, short: &str, author: &str, time: i64, line_no: usize, content: &str) -> BlameLine {
    BlameLine {
        commit_id: commit.to_string(),
        short_id: short.to_string(),
        author: author.to_string(),
        time,
        line_no,
        content: content.to_string(),
    }
}

#[test]
fn blame_rows_have_columns_and_alternating_groups() {
    let lines = vec![
        blame("c1", "c1abcde", "Ann", 0, 1, "fn a()"),
        blame("c1", "c1abcde", "Ann", 0, 2, "{"),
        blame("c2", "c2fffff", "Alexander Hamilton-Smith", 1_709_647_629, 3, "}"),
        blame("", "", "", 0, 4, ""),
    ];
    let rows = render_blame(&lines);
    assert_eq!(rows.len(), 4);
    assert_eq!(rows[0].info, "c1abcde  Ann                           ");
    assert_eq!(rows[2].info, "c2fffff  Alexander Hamil… 2024-03-05   ");
    assert_eq!(rows[3].info, "                                       ");
    assert_eq!(rows[0].number, "   1 │ ");
    assert_eq!(rows[0].text, "fn a()\n");
    assert_eq!(rows[3].text, "\n");
    let even: Vec<bool> = rows.iter().map(|r| r.even).collect();
    assert_eq!(even, vec![false, false, true, true]);
}

#[test]
fn sidebar_status_counts_what_changed() {
    let f = |p: &str| FileStatus { path: p.to_string(), status: FileStatusKind::Modified };
    let s = RepoStatus { staged: vec![f("a")], unstaged: vec![f("b"), f("c")], untracked: vec!["d".to_string()] };
    assert_eq!(status_summary(Some(&s)), "2 modified, 1 staged, 1 untracked");
    let s = RepoStatus { staged: vec![f("a")], unstaged: vec![], untracked: vec!["d".to_string()] };
    assert_eq!(status_summary(Some(&s)), "1 staged, 1 untracked");
    let clean = RepoStatus { staged: vec![], unstaged: vec![], untracked: vec![] };
    assert_eq!(status_summary(Some(&clean)), "Clean");
    assert_eq!(status_summary(None), "");
}
