use gitpulsar::syntax::{detect_syntax, highlight_lines, pick_theme, spans_of_pieces, HighlightSpan};
use syntect::highlighting::ThemeSet;
use syntect::parsing::SyntaxSet;

#[test]
fn syntax_is_found_by_extension() {
    let ss = SyntaxSet::load_defaults_newlines();
    assert_eq!(detect_syntax(&ss, "src/main.rs").map(|s| s.name.as_str()), Some("Rust"));
    assert!(detect_syntax(&ss, "Makefile.no-such-extension").is_none());
    assert!(detect_syntax(&ss, "README").is_none());
}

#[test]
fn highlighted_spans_cover_each_line() {
    let ss = SyntaxSet::load_defaults_newlines();
    let ts = ThemeSet::load_defaults();
    assert!(detect_syntax(&ss, "lib.rs").is_some());
    let lines = ["fn main() {\n", "    let x = 1;\n", "}\n"];
    for dark in [true, false] {
        let out = highlight_lines(&ss, &ts, "lib.rs", &lines, dark).unwrap().lines;
        assert_eq!(out.len(), lines.len());
        for (spans, line) in out.iter().zip(lines.iter()) {
            assert!(!spans.is_empty());
            assert_eq!(spans[0].start, 0);
            assert_eq!(spans.last().unwrap().end, line.len());
            for w in spans.windows(2) {
                assert_eq!(w[0].end, w[1].start);
            }
        }
        // Keywords and plain text get different colours.
        assert!(out[0].iter().any(|s| s.fg != out[0][0].fg) || out[0].len() == 1);
    }
}

#[test]
fn missing_themes_give_none() {
    let ss = SyntaxSet::load_defaults_newlines();
    let empty = ThemeSet { themes: Default::default() };
    assert!(detect_syntax(&ss, "a.rs").is_some());
    assert!(highlight_lines(&ss, &empty, "a.rs", &["x\n"], true).is_none());
}

#[test]
fn failed_or_overflowing_pieces_give_no_spans() {
    assert!(spans_of_pieces(None).is_empty());
    assert!(spans_of_pieces(Some(vec![((1, 2, 3), usize::MAX), ((1, 2, 3), 1)])).is_empty());
    assert_eq!(
        spans_of_pieces(Some(vec![((1, 2, 3), 2), ((4, 5, 6), 0), ((7, 8, 9), 1)])),
        vec![HighlightSpan { start: 0, end: 2, fg: (1, 2, 3) }, HighlightSpan { start: 2, end: 3, fg: (7, 8, 9) }]
    );
}

#[test]
fn light_view_falls_back_to_the_dark_theme() {
    let ss = SyntaxSet::load_defaults_newlines();
    let mut only_dark = ThemeSet { themes: Default::default() };
    let all = ThemeSet::load_defaults();
    only_dark
        .themes
        .insert("base16-ocean.dark".to_string(), all.themes["base16-ocean.dark"].clone());
    assert!(detect_syntax(&ss, "a.rs").is_some());
    assert_eq!(highlight_lines(&ss, &only_dark, "a.rs", &["x\n"], false).unwrap().theme, "base16-ocean.dark");
    assert_eq!(highlight_lines(&ss, &only_dark, "a.rs", &["x\n"], true).unwrap().theme, "base16-ocean.dark");
    let mut only_light = ThemeSet { themes: Default::default() };
    only_light
        .themes
        .insert("base16-ocean.light".to_string(), all.themes["base16-ocean.light"].clone());
    assert_eq!(highlight_lines(&ss, &only_light, "a.rs", &["x\n"], false).unwrap().theme, "base16-ocean.light");
    assert!(highlight_lines(&ss, &only_light, "a.rs", &["x\n"], true).is_none());
}

#[test]
fn paths_without_a_dot_have_no_syntax() {
    let ss = SyntaxSet::load_defaults_newlines();
    assert!(detect_syntax(&ss, "Makefile").is_none());
    assert!(detect_syntax(&ss, "dir/Dockerfile").is_none());
}

#[test]
fn requested_theme_comes_first() {
    let ss = SyntaxSet::load_defaults_newlines();
    let ts = ThemeSet::load_defaults();
    assert!(detect_syntax(&ss, "a.rs").is_some());
    assert_eq!(highlight_lines(&ss, &ts, "a.rs", &["x\n"], false).unwrap().theme, "base16-ocean.light");
    assert_eq!(highlight_lines(&ss, &ts, "a.rs", &["x\n"], true).unwrap().theme, "base16-ocean.dark");
}

#[test]
fn extensions_match_ignoring_ascii_case() {
    let ss = SyntaxSet::load_defaults_newlines();
    assert_eq!(detect_syntax(&ss, "SRC/MAIN.RS").map(|s| s.name.as_str()), Some("Rust"));
    assert_eq!(detect_syntax(&ss, "lib.rs/.").map(|s| s.name.as_str()), Some("Rust"));
}

#[test]
fn files_without_a_listed_syntax_are_not_highlighted() {
    let ss = SyntaxSet::load_defaults_newlines();
    let ts = ThemeSet::load_defaults();
    assert!(highlight_lines(&ss, &ts, "notes.no-such-ext", &["x\n"], true).is_none());
    assert!(highlight_lines(&ss, &ts, "Makefile", &["all:\n"], true).is_none());
    assert!(highlight_lines(&ss, &ts, "MAIN.RS", &["fn f() {}\n"], true).is_some());
}

#[test]
fn repository_paths_find_their_syntax() {
    let ss = SyntaxSet::load_defaults_newlines();
    let ts = ThemeSet::load_defaults();
    assert_eq!(detect_syntax(&ss, "crates/core/src/lib.rs").map(|s| s.name.as_str()), Some("Rust"));
    assert_eq!(detect_syntax(&ss, "docs/README.md").map(|s| s.name.as_str()), Some("Markdown"));
    assert!(detect_syntax(&ss, "src/.hidden").is_none());
    assert!(detect_syntax(&ss, "src.d/Makefile").is_none());
    assert!(highlight_lines(&ss, &ts, "src/main.rs", &["fn main() {}\n"], true).is_some());
    assert!(highlight_lines(&ss, &ts, "src/notes.no-such-ext", &["x\n"], true).is_none());
}

#[test]
fn theme_names_follow_the_background() {
    let ts = ThemeSet::load_defaults();
    assert_eq!(pick_theme(&ts, true), Some("base16-ocean.dark"));
    assert_eq!(pick_theme(&ts, false), Some("base16-ocean.light"));
    assert_eq!(pick_theme(&ThemeSet { themes: Default::default() }, true), None);
}
