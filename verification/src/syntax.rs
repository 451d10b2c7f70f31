//! Syntax highlighting of diff lines with `syntect`: which syntax a path
//! has, and the coloured byte ranges of each line.
use vstd::prelude::*;
use vstd::utf8::encode_utf8;

use syntect::easy::HighlightLines;
use syntect::highlighting::{Theme, ThemeSet};
use syntect::parsing::{SyntaxReference, SyntaxSet};

use crate::text::after_last;

verus! {

broadcast use vstd::string::group_string_axioms;

#[verifier::external_type_specification]
#[verifier::external_body]
pub struct ExSyntaxSet(SyntaxSet);

#[verifier::external_type_specification]
#[verifier::external_body]
pub struct ExSyntaxReference(SyntaxReference);

#[verifier::external_type_specification]
#[verifier::external_body]
pub struct ExThemeSet(ThemeSet);

#[verifier::external_type_specification]
#[verifier::external_body]
pub struct ExTheme(Theme);

#[verifier::external_type_specification]
#[verifier::external_body]
pub struct ExHighlightLines<'a>(HighlightLines<'a>);

/// Highlighted segment: byte range + RGB foreground color.
#[derive(Debug, Clone, Copy, PartialEq, Eq)]
pub struct HighlightSpan {
    pub start: usize,
    pub end: usize,
    pub fg: (u8, u8, u8),
}

/// The spans for a line split into styled pieces `(colour, byte length)`:
/// each non-empty piece becomes a span at its offset in the line; empty
/// pieces are skipped.
pub open spec fn spans_of(pieces: Seq<((u8, u8, u8), usize)>) -> Seq<HighlightSpan>
    decreases pieces.len(),
{
    if pieces.len() == 0 {
        Seq::empty()
    } else {
        let prev = spans_of(pieces.drop_last());
        let (fg, len) = pieces.last();
        let offset = total_len(pieces.drop_last());
        if len > 0 {
            prev.push(HighlightSpan { start: offset as usize, end: (offset + len) as usize, fg })
        } else {
            prev
        }
    }
}

/// The summed length of the pieces.
pub open spec fn total_len(pieces: Seq<((u8, u8, u8), usize)>) -> nat
    decreases pieces.len(),
{
    if pieces.len() == 0 {
        0
    } else {
        total_len(pieces.drop_last()) + pieces.last().1 as nat
    }
}

/// The highlight spans of one line from its styled pieces.
pub fn line_spans(pieces: &[((u8, u8, u8), usize)]) -> (r: Vec<HighlightSpan>)
    requires
        total_len(pieces@) <= usize::MAX,
    ensures
        r@ == spans_of(pieces@),
{
    let mut spans: Vec<HighlightSpan> = Vec::new();
    let mut offset: usize = 0;
    let mut i: usize = 0;
    while i < pieces.len()
        invariant
            i <= pieces.len(),
            total_len(pieces@) <= usize::MAX,
            offset as nat == total_len(pieces@.take(i as int)),
            spans@ == spans_of(pieces@.take(i as int)),
        decreases pieces.len() - i,
    {
        let (fg, len) = pieces[i];
        proof {
            let t = pieces@.take(i + 1);
            assert(t.drop_last() == pieces@.take(i as int));
            assert(t.last() == (fg, len));
            lemma_total_len_prefix(pieces@, i + 1);
        }
        if len > 0 {
            spans.push(HighlightSpan { start: offset, end: offset + len, fg });
        }
        offset = offset + len;
        i = i + 1;
    }
    assert(pieces@.take(pieces.len() as int) == pieces@);
    spans
}

proof fn lemma_total_len_prefix(p: Seq<((u8, u8, u8), usize)>, k: int)
    requires
        0 <= k <= p.len(),
    ensures
        total_len(p.take(k)) <= total_len(p),
    decreases p.len() - k,
{
    if k < p.len() {
        lemma_total_len_prefix(p, k + 1);
        assert(p.take(k + 1).drop_last() == p.take(k));
    } else {
        assert(p.take(k) == p);
    }
}


/// A character that may follow the file name in a path: a separator (`/`,
/// or a backslash on Windows) or the `.` of a trailing current-directory
/// component.
pub open spec fn after_file_name(c: char) -> bool {
    c == '/' || c == '\\' || c == '.'
}

/// Whether `ext` can be the extension of `path` as `Path::extension`
/// documents it: the part of the file name after its last `.`, running to
/// the end of the file name. So it holds no `.` and no `/`, `path` holds a
/// `.` directly followed by it, and after it the path holds only
/// separators and `.`.
pub open spec fn extension_of(path: Seq<char>, ext: Seq<char>) -> bool {
    &&& forall|k: int| 0 <= k < ext.len() ==> ext[k] != '.' && ext[k] != '/'
    &&& exists|i: int|
        0 <= i && i + ext.len() < path.len() && path[i] == '.' && #[trigger] path.subrange(
            i + 1,
            i + 1 + ext.len(),
        ) == ext && forall|k: int| i + 1 + ext.len() <= k < path.len() ==> after_file_name(path[k])
}

/// A path that is a bare file name with an extension on every platform: not
/// empty, not starting with `.`, holding a `.` and no `/`, backslash or `:`
/// (so no separator and no Windows prefix).
pub open spec fn is_simple_name(p: Seq<char>) -> bool {
    &&& p.len() > 0
    &&& p[0] != '.'
    &&& forall|k: int| 0 <= k < p.len() ==> p[k] != '/' && p[k] != '\\' && p[k] != ':'
    &&& exists|k: int| 0 <= k < p.len() && p[k] == '.'
}

/// A path whose file name is plain on every platform: it holds no
/// backslash or `:` and does not start with `//` (so it has no Windows
/// prefix), and its part after the last `/` is a bare file name (see
/// `is_simple_name`). Repository paths such as `src/main.rs` are plain.
pub open spec fn is_plain_path(p: Seq<char>) -> bool {
    &&& forall|k: int| 0 <= k < p.len() ==> p[k] != '\\' && p[k] != ':'
    &&& !(p.len() >= 2 && p[0] == '/' && p[1] == '/')
    &&& is_simple_name(after_last(p, '/'))
}

/// The extension of a plain path: what follows the last `.` of its file
/// name, the part after its last `/`.
pub open spec fn plain_extension(p: Seq<char>) -> Seq<char> {
    after_last(after_last(p, '/'), '.')
}

/// The extension of a file path (`std::path::Path::extension`), when it is
/// valid text. For a plain path (see `is_plain_path`) the file name is the
/// part after the last `/`, and the extension what follows the file name's
/// last `.`, as std documents (`/` separates components on every
/// platform). Otherwise the contract claims what holds on every platform: a
/// found extension is the end of the file name after a `.` (see
/// `extension_of`); where the file name starts, and so which `.` ends it,
/// follows the platform's path syntax and is left unsaid.
#[verifier::external_body]
fn path_extension(path: &str) -> (r: Option<String>)
    ensures
        r matches Some(e) ==> extension_of(path@, e@),
        is_plain_path(path@) ==> r is Some && r->0@ == plain_extension(path@),
{
    std::path::Path::new(path).extension().and_then(|e| e.to_str()).map(|e| e.to_owned())
}

/// `c` in lower case when it is an ASCII capital letter.
pub open spec fn ascii_lower(c: char) -> char {
    if 'A' <= c <= 'Z' {
        ((c as u32) + 32) as char
    } else {
        c
    }
}

/// Whether two texts are equal up to the case of ASCII letters (what
/// `str::eq_ignore_ascii_case` tests).
pub open spec fn eq_ignore_ascii_case(a: Seq<char>, b: Seq<char>) -> bool {
    a.len() == b.len() && forall|k: int| 0 <= k < a.len() ==> ascii_lower(a[k]) == ascii_lower(b[k])
}

/// Whether a list of file extensions holds `ext`, ignoring ASCII case.
pub open spec fn lists_extension(exts: Set<Seq<char>>, ext: Seq<char>) -> bool {
    exists|e: Seq<char>| exts.contains(e) && #[trigger] eq_ignore_ascii_case(e, ext)
}

/// The file extensions that the syntaxes of a set list, all together (the
/// `file_extensions` of each of its syntaxes).
pub uninterp spec fn syntax_extensions(ss: SyntaxSet) -> Set<Seq<char>>;

/// The file extensions that one syntax lists (`SyntaxReference::file_extensions`).
pub uninterp spec fn reference_extensions(s: SyntaxReference) -> Set<Seq<char>>;

/// The syntax of a set that lists `ext` among its file extensions, ignoring
/// ASCII case (`SyntaxSet::find_syntax_by_extension`): found exactly when
/// some syntax of the set lists it, and the one found lists it. Which of
/// several such syntaxes is found (the last one loaded) is left unsaid.
#[verifier::external_body]
fn find_syntax_by_extension<'a>(ss: &'a SyntaxSet, ext: &str) -> (r: Option<&'a SyntaxReference>)
    ensures
        r is Some <==> lists_extension(syntax_extensions(*ss), ext@),
        r matches Some(s) ==> lists_extension(reference_extensions(*s), ext@),
{
    ss.find_syntax_by_extension(ext)
}

/// The names of the themes that a theme set holds (the keys of
/// `ThemeSet::themes`).
pub uninterp spec fn theme_names(ts: ThemeSet) -> Set<Seq<char>>;

/// The theme of a set with the given name (a lookup in `ThemeSet::themes`):
/// found exactly when the set holds a theme of that name.
#[verifier::external_body]
fn theme_named<'a>(ts: &'a ThemeSet, name: &str) -> (r: Option<&'a Theme>)
    ensures
        r is Some <==> theme_names(*ts).contains(name@),
{
    ts.themes.get(name)
}

/// A highlighter for one file (`HighlightLines::new`).
#[verifier::external_body]
fn new_highlighter<'a>(syntax: &SyntaxReference, theme: &'a Theme) -> (r: HighlightLines<'a>) {
    HighlightLines::new(syntax, theme)
}

/// The highlighter of one file together with the syntax set that its syntax
/// was found in. Its fields are private and `file_highlighter` is the only
/// place that builds one, from a syntax that `find_syntax_by_extension`
/// found in that same set; `syntect` needs the set that the syntax came
/// from to highlight with it.
struct FileHighlighter<'a> {
    lines: HighlightLines<'a>,
    set: &'a SyntaxSet,
}

/// Highlights the next line of a file (`HighlightLines::highlight_line`,
/// with the set its syntax came from), giving each styled piece as its
/// foreground colour and byte length, or `None` when `syntect` reports an
/// error. The pieces depend on the lines highlighted before; the contract
/// claims only what `syntect` documents of every outcome: the pieces,
/// joined, are the line.
#[verifier::external_body]
fn highlight_line(h: &mut FileHighlighter, line: &str) -> (r: Option<Vec<((u8, u8, u8), usize)>>)
    ensures
        r matches Some(p) ==> total_len(p@) == encode_utf8(line@).len(),
{
    match h.lines.highlight_line(line, h.set) {
        Ok(ranges) => Some(
            ranges.iter().map(|(st, t)| ((st.foreground.r, st.foreground.g, st.foreground.b), t.len())).collect(),
        ),
        Err(_) => None,
    }
}

/// The syntax for a file path, found by its extension (see
/// `find_syntax_by_extension`): none for a path without a `.`, which has no
/// extension; for a plain path (see `is_plain_path`), such as
/// `src/main.rs`, one exactly when the set lists its extension; when one is found, the path's
/// extension is listed by the set and by the syntax found. For other paths
/// which part is the extension follows the platform's path syntax (see
/// `path_extension`) and is left unsaid.
pub fn detect_syntax<'a>(ss: &'a SyntaxSet, path: &str) -> (r: Option<&'a SyntaxReference>)
    ensures
        (forall|k: int| 0 <= k < path@.len() ==> path@[k] != '.') ==> r is None,
        is_plain_path(path@) ==> (r is Some <==> lists_extension(syntax_extensions(*ss), plain_extension(path@))),
        r matches Some(s) ==> exists|e: Seq<char>|
            #[trigger] extension_of(path@, e) && lists_extension(syntax_extensions(*ss), e)
                && lists_extension(reference_extensions(*s), e),
{
    match path_extension(path) {
        Some(ext) => {
            proof {
                let i = choose|i: int|
                    0 <= i && i + ext@.len() < path@.len() && path@[i] == '.' && #[trigger] path@.subrange(
                        i + 1,
                        i + 1 + ext@.len(),
                    ) == ext@ && forall|k: int|
                        i + 1 + ext@.len() <= k < path@.len() ==> after_file_name(path@[k]);
                assert(path@[i] == '.');
            }
            let r = find_syntax_by_extension(ss, ext.as_str());
            proof {
                if r is Some {
                    assert(extension_of(path@, ext@));
                }
            }
            r
        },
        None => None,
    }
}

/// The spans of a line whose highlighting gave `pieces`: none when
/// highlighting failed (`None`) or when the pieces' lengths do not add up
/// within `usize`.
pub fn spans_of_pieces(pieces: Option<Vec<((u8, u8, u8), usize)>>) -> (r: Vec<HighlightSpan>)
    ensures
        r@ == match pieces {
            Some(p) => if total_len(p@) <= usize::MAX {
                spans_of(p@)
            } else {
                Seq::empty()
            },
            None => Seq::empty(),
        },
{
    match pieces {
        Some(p) => {
            let mut total: usize = 0;
            let mut i: usize = 0;
            while i < p.len()
                invariant
                    i <= p.len(),
                    pieces is Some && pieces->0@ == p@,
                    total as nat == total_len(p@.take(i as int)),
                decreases p.len() - i,
            {
                let ghost t = p@.take(i + 1);
                proof {
                    assert(t.drop_last() == p@.take(i as int));
                    lemma_total_len_prefix(p@, i + 1);
                }
                if total > usize::MAX - p[i].1 {
                    proof {
                        assert(t.last() == p@[i as int]);
                        assert(total_len(t) > usize::MAX);
                        assert(total_len(p@) > usize::MAX);
                    }
                    return Vec::new();
                }
                total = total + p[i].1;
                i = i + 1;
            }
            assert(p@.take(p.len() as int) == p@);
            line_spans(&p)
        },
        None => Vec::new(),
    }
}

/// What highlighting may give for a line of `len` bytes: the spans of some
/// styled pieces that, joined, are the line; or nothing.
pub open spec fn spans_for_line(len: nat, spans: Seq<HighlightSpan>) -> bool {
    spans.len() == 0 || exists|p: Seq<((u8, u8, u8), usize)>|
        total_len(p) == len && #[trigger] spans_of(p) == spans
}

/// The theme used for a dark or a light background:
/// `base16-ocean.dark` or `base16-ocean.light` when the set holds it, else
/// `base16-ocean.dark` when the set holds that; none otherwise.
pub open spec fn chosen_theme(names: Set<Seq<char>>, is_dark: bool) -> Option<Seq<char>> {
    let want = if is_dark {
        "base16-ocean.dark"@
    } else {
        "base16-ocean.light"@
    };
    if names.contains(want) {
        Some(want)
    } else if names.contains("base16-ocean.dark"@) {
        Some("base16-ocean.dark"@)
    } else {
        None
    }
}

/// The name of the theme for a dark or a light background (see
/// `chosen_theme`).
pub fn pick_theme(ts: &ThemeSet, is_dark: bool) -> (r: Option<&'static str>)
    ensures
        match r {
            Some(n) => chosen_theme(theme_names(*ts), is_dark) == Some(n@),
            None => chosen_theme(theme_names(*ts), is_dark) is None,
        },
{
    let name = if is_dark {
        "base16-ocean.dark"
    } else {
        "base16-ocean.light"
    };
    if theme_named(ts, name).is_some() {
        Some(name)
    } else if theme_named(ts, "base16-ocean.dark").is_some() {
        Some("base16-ocean.dark")
    } else {
        None
    }
}

/// The highlighted lines of a file: the name of the theme used and the
/// spans of each line.
#[derive(Debug, Clone)]
pub struct Highlighted {
    pub theme: &'static str,
    pub lines: Vec<Vec<HighlightSpan>>,
}

/// The highlighter for the file at `path`: its syntax found in `ss` by the
/// path's extension (see `detect_syntax`), with `theme`.
fn file_highlighter<'a>(ss: &'a SyntaxSet, path: &str, theme: &'a Theme) -> (r: Option<FileHighlighter<'a>>)
    ensures
        (forall|k: int| 0 <= k < path@.len() ==> path@[k] != '.') ==> r is None,
        is_plain_path(path@) ==> (r is Some <==> lists_extension(syntax_extensions(*ss), plain_extension(path@))),
        r is Some ==> exists|e: Seq<char>|
            #[trigger] extension_of(path@, e) && lists_extension(syntax_extensions(*ss), e),
{
    match detect_syntax(ss, path) {
        Some(syntax) => Some(FileHighlighter { lines: new_highlighter(syntax, theme), set: ss }),
        None => None,
    }
}

/// Highlights the lines of the file at `path`, with the syntax that
/// `detect_syntax` finds for it in `ss` and the theme that `pick_theme`
/// chooses for a dark or a light background. `None` when the theme set holds
/// neither theme or no syntax is found: for a plain path (see
/// `is_plain_path`), exactly when the set does not list its extension. The
/// theme is the one the set stores under the chosen name (`theme_named`).
/// Each line gets the spans of styled pieces that, joined, are the line;
/// or no span, where `syntect` reports an error. The colours and the split
/// into pieces depend on `syntect`.
pub fn highlight_lines(ss: &SyntaxSet, ts: &ThemeSet, path: &str, lines: &[&str], is_dark: bool) -> (r: Option<Highlighted>)
    ensures
        chosen_theme(theme_names(*ts), is_dark) is None ==> r is None,
        (forall|k: int| 0 <= k < path@.len() ==> path@[k] != '.') ==> r is None,
        is_plain_path(path@) ==> (r is Some <==> chosen_theme(theme_names(*ts), is_dark) is Some
            && lists_extension(syntax_extensions(*ss), plain_extension(path@))),
        r matches Some(h) ==> {
            &&& chosen_theme(theme_names(*ts), is_dark) == Some(h.theme@)
            &&& exists|e: Seq<char>|
                #[trigger] extension_of(path@, e) && lists_extension(syntax_extensions(*ss), e)
            &&& h.lines@.len() == lines@.len()
            &&& forall|k: int|
                0 <= k < lines@.len() ==> spans_for_line(
                    encode_utf8(lines@[k]@).len(),
                    #[trigger] h.lines@[k]@,
                )
        },
{
    let name = match pick_theme(ts, is_dark) {
        Some(n) => n,
        None => {
            return None;
        },
    };
    let theme = match theme_named(ts, name) {
        Some(t) => t,
        None => {
            return None;
        },
    };
    let mut h = match file_highlighter(ss, path, theme) {
        Some(fh) => fh,
        None => {
            return None;
        },
    };
    let mut result: Vec<Vec<HighlightSpan>> = Vec::new();
    let mut i: usize = 0;
    while i < lines.len()
        invariant
            i <= lines.len(),
            result@.len() == i,
            forall|k: int|
                0 <= k < i ==> spans_for_line(encode_utf8(lines@[k]@).len(), #[trigger] result@[k]@),
        decreases lines.len() - i,
    {
        let line: &str = lines[i];
        let n = line.as_bytes().len();
        let pieces = highlight_line(&mut h, line);
        let ghost got = pieces;
        let spans = spans_of_pieces(pieces);
        proof {
            if got is Some {
                assert(total_len(got->0@) == n);
                assert(spans_of(got->0@) == spans@);
            }
        }
        result.push(spans);
        i = i + 1;
    }
    Some(Highlighted { theme: name, lines: result })
}

} // verus!
