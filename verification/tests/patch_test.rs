use gitpulsar::models::{DiffHunk, DiffLine, DiffLineKind};
use gitpulsar::patch::{
    build_hunk_patch, build_lines_patch, build_reverse_hunk_patch, build_reverse_lines_patch,
    parse_hunk_start, reverse_hunk_header,
};

fn line(kind: DiffLineKind, content: &str) -> DiffLine {
    DiffLine { kind, content: content.to_string(), old_lineno: None, new_lineno: None }
}

fn sample_hunk() -> DiffHunk {
    DiffHunk {
        header: "@@ -1,2 +1,2 @@\n".to_string(),
        lines: vec![
            line(DiffLineKind::Context, "x\n"),
            line(DiffLineKind::Deletion, "y\n"),
            line(DiffLineKind::Addition, "z\n"),
        ],
    }
}

#[test]
fn hunk_patch_has_headers_and_prefixed_lines() {
    let p = build_hunk_patch("a.txt", &sample_hunk());
    assert_eq!(
        String::from_utf8(p).unwrap(),
        "--- a/a.txt\n+++ b/a.txt\n@@ -1,2 +1,2 @@\n x\n-y\n+z\n"
    );
}

#[test]
fn hunk_patch_adds_missing_newlines() {
    let hunk = DiffHunk {
        header: "@@ -3 +3 @@".to_string(),
        lines: vec![line(DiffLineKind::Addition, "no newline")],
    };
    let p = build_hunk_patch("src/lib.rs", &hunk);
    assert_eq!(
        String::from_utf8(p).unwrap(),
        "--- a/src/lib.rs\n+++ b/src/lib.rs\n@@ -3 +3 @@\n+no newline\n"
    );
}

#[test]
fn reverse_hunk_patch_swaps_signs_and_ranges() {
    let p = build_reverse_hunk_patch("a.txt", &sample_hunk());
    assert_eq!(
        String::from_utf8(p).unwrap(),
        "--- a/a.txt\n+++ b/a.txt\n@@ -1,2 +1,2 @@\n x\n+y\n-z\n"
    );
}

#[test]
fn reverse_header_swaps_ranges_and_keeps_context() {
    assert_eq!(reverse_hunk_header("@@ -1,2 +3,4 @@ fn main()"), "@@ -3,4 +1,2 @@ fn main()");
    assert_eq!(reverse_hunk_header("  @@ -10 +12,3 @@\n"), "@@ -12,3 +10 @@");
}

#[test]
fn reverse_header_leaves_other_text_alone() {
    assert_eq!(reverse_hunk_header("not a header"), "not a header");
    assert_eq!(reverse_hunk_header("@@ -1,2 @@ x"), "@@ -1,2 @@ x");
    assert_eq!(reverse_hunk_header("@@ -1,2 +3,4"), "@@ -1,2 +3,4");
}

#[test]
fn reverse_header_tilde_quirk() {
    // `~` is the placeholder of the sign swap, so it ends up as a sign too.
    assert_eq!(reverse_hunk_header("@@ ~1 ~2 @@"), "@@ -2 +1 @@");
}

#[test]
fn hunk_start_reads_both_sides() {
    assert_eq!(parse_hunk_start("@@ -12,5 +30,7 @@ ctx", false), 12);
    assert_eq!(parse_hunk_start("@@ -12,5 +30,7 @@ ctx", true), 30);
    assert_eq!(parse_hunk_start("@@ -7 +9 @@", true), 9);
}

#[test]
fn hunk_start_defaults_to_one() {
    assert_eq!(parse_hunk_start("garbage", true), 1);
    assert_eq!(parse_hunk_start("@@ -x,1 +y,2 @@", false), 1);
    assert_eq!(parse_hunk_start("@@ - +3 @@", false), 1);
    assert_eq!(parse_hunk_start("@@ -99999999999999999999999 +1 @@", false), 1);
}

#[test]
fn hunk_start_accepts_a_plus_sign() {
    // `str::parse::<usize>` accepts one leading `+`.
    assert_eq!(parse_hunk_start("@@ -+5,2 +1 @@", false), 5);
}

#[test]
fn lines_patch_keeps_only_selected_changes() {
    let p = build_lines_patch("a.txt", &sample_hunk(), &[2]);
    assert_eq!(
        String::from_utf8(p).unwrap(),
        "--- a/a.txt\n+++ b/a.txt\n@@ -1,2 +1,3 @@\n x\n y\n+z\n"
    );
}

#[test]
fn lines_patch_with_everything_selected() {
    let p = build_lines_patch("a.txt", &sample_hunk(), &[0, 1, 2]);
    assert_eq!(
        String::from_utf8(p).unwrap(),
        "--- a/a.txt\n+++ b/a.txt\n@@ -1,2 +1,2 @@\n x\n-y\n+z\n"
    );
}

#[test]
fn reverse_lines_patch_keeps_only_selected_changes() {
    let p = build_reverse_lines_patch("a.txt", &sample_hunk(), &[1]);
    assert_eq!(
        String::from_utf8(p).unwrap(),
        "--- a/a.txt\n+++ b/a.txt\n@@ -1,2 +1,3 @@\n x\n+y\n z\n"
    );
}

#[test]
fn reverse_lines_patch_uses_new_start_first() {
    let hunk = DiffHunk {
        header: "@@ -4,1 +8,2 @@".to_string(),
        lines: vec![line(DiffLineKind::Addition, "new\n")],
    };
    let p = build_reverse_lines_patch("f", &hunk, &[0]);
    assert_eq!(String::from_utf8(p).unwrap(), "--- a/f\n+++ b/f\n@@ -8,1 +4,0 @@\n-new\n");
}

fn body_of(p: Vec<u8>) -> String {
    let s = String::from_utf8(p).unwrap();
    s.splitn(4, '\n').nth(3).unwrap().to_string()
}

#[test]
fn selecting_every_line_gives_the_hunk_body() {
    let h = sample_hunk();
    assert_eq!(body_of(build_lines_patch("a.txt", &h, &[0, 1, 2])), body_of(build_hunk_patch("a.txt", &h)));
    assert_eq!(
        body_of(build_reverse_lines_patch("a.txt", &h, &[2, 1, 0])),
        body_of(build_reverse_hunk_patch("a.txt", &h))
    );
}

#[test]
fn selecting_nothing_leaves_only_context() {
    let h = sample_hunk();
    for p in [build_lines_patch("a.txt", &h, &[]), build_reverse_lines_patch("a.txt", &h, &[])] {
        for line in body_of(p).lines() {
            assert!(line.starts_with(' '), "{:?}", line);
        }
    }
}

#[test]
fn reverse_patch_swaps_the_sides() {
    let h = sample_hunk();
    let side = |body: &str, sign: char| -> Vec<String> {
        body.lines().filter(|l| l.starts_with(' ') || l.starts_with(sign)).map(|l| l[1..].to_string()).collect()
    };
    let fwd = body_of(build_hunk_patch("a.txt", &h));
    let rev = body_of(build_reverse_hunk_patch("a.txt", &h));
    assert_eq!(side(&rev, '-'), side(&fwd, '+'));
    assert_eq!(side(&rev, '+'), side(&fwd, '-'));
}

#[test]
fn reversing_a_header_twice_gives_it_back() {
    let h = "@@ -7,3 +9,5 @@ impl Foo {\n";
    assert_eq!(reverse_hunk_header(&reverse_hunk_header(h)), "@@ -7,3 +9,5 @@ impl Foo {");
}
