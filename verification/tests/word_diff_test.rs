use gitpulsar::word_diff::{diff_lines, ByteRange};

fn pairs(v: &[ByteRange]) -> Vec<(usize, usize)> {
    v.iter().map(|r| (r.start, r.end)).collect()
}

#[test]
fn changed_number_is_highlighted() {
    let d = diff_lines("let x = 1;", "let x = 2;").unwrap();
    assert_eq!(pairs(&d.deleted), vec![(8, 9)]);
    assert_eq!(pairs(&d.inserted), vec![(8, 9)]);
}

#[test]
fn empty_lines_give_none() {
    assert!(diff_lines("", "x").is_none());
    assert!(diff_lines("x", "").is_none());
}

#[test]
fn unrelated_lines_give_none() {
    assert!(diff_lines("abc", "xyz").is_none());
}

#[test]
fn adjacent_deletions_are_merged() {
    let d = diff_lines("x = ab cd;", "x = ;").unwrap();
    assert_eq!(pairs(&d.deleted), vec![(3, 6), (7, 9)]);
    assert!(d.inserted.is_empty());
}

#[test]
fn alternating_changes() {
    let d = diff_lines("a b", "c d").unwrap();
    assert_eq!(pairs(&d.deleted), vec![(0, 1), (2, 3)]);
    assert_eq!(pairs(&d.inserted), vec![(0, 1), (2, 3)]);
}

#[test]
fn identical_lines_have_no_changes() {
    let d = diff_lines("same line", "same line").unwrap();
    assert!(d.deleted.is_empty());
    assert!(d.inserted.is_empty());
}

#[test]
fn multibyte_characters_are_single_tokens() {
    let d = diff_lines("a é b", "a ü b").unwrap();
    assert_eq!(pairs(&d.deleted), vec![(2, 4)]);
    assert_eq!(pairs(&d.inserted), vec![(2, 4)]);
}

#[test]
fn too_many_tokens_give_none() {
    let long: String = std::iter::repeat("a ").take(200).collect();
    let other = long.clone() + "b";
    assert!(diff_lines(&long, &other).is_none());
}

#[test]
fn removing_ranges_leaves_the_same_text() {
    let old = "fn foo(a: u32, b: u32) -> u32";
    let new = "fn foo(a: u64, c: u64) -> u64";
    let d = diff_lines(old, new).unwrap();
    let strip = |s: &str, rs: &[ByteRange]| {
        let mut out = Vec::new();
        let b = s.as_bytes();
        let mut pos = 0;
        for r in rs {
            out.extend_from_slice(&b[pos..r.start]);
            pos = r.end;
        }
        out.extend_from_slice(&b[pos..]);
        out
    };
    assert_eq!(strip(old, &d.deleted), strip(new, &d.inserted));
}
