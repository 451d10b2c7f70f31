//! The text of the diff views: one column with line numbers (unified), two
//! aligned columns, old and new (side by side), or a file's hunks with
//! syntax colours (the changes view). Each view is a list of pieces of text
//! with the highlights the view puts on them.
use vstd::prelude::*;

use crate::models::{DiffFile, DiffHunk, DiffLine, DiffLineKind};
use crate::syntax::{
    chosen_theme, extension_of, highlight_lines, is_plain_path, lists_extension, plain_extension, spans_for_line, syntax_extensions,
    theme_names, HighlightSpan, Highlighted,
};
use vstd::utf8::encode_utf8;
use syntect::highlighting::ThemeSet;
use syntect::parsing::SyntaxSet;
use crate::text::{chars_of, decimal, push_all, push_decimal, string_of};

verus! {

broadcast use vstd::string::group_string_axioms;

/// The highlight a piece of diff text carries.
#[derive(Debug, Clone, Copy, PartialEq, Eq, Structural)]
pub enum DiffTag {
    FileHeader,
    HunkHeader,
    Addition,
    Deletion,
    LineNo,
    EmptyLine,
}

/// A piece of diff text and its highlights.
#[derive(Debug, Clone)]
pub struct Piece {
    pub text: String,
    pub tags: Vec<DiffTag>,
}

pub open spec fn pieces_view(v: Seq<Piece>) -> Seq<(Seq<char>, Seq<DiffTag>)> {
    v.map_values(|p: Piece| (p.text@, p.tags@))
}

/// `s` with `\n` appended unless it already ends with one.
pub open spec fn line_end(s: Seq<char>) -> Seq<char> {
    if s.len() > 0 && s.last() == '\n' {
        s
    } else {
        s.push('\n')
    }
}

/// `n` right-aligned in a field four characters wide.
pub open spec fn pad4(n: nat) -> Seq<char> {
    let d = decimal(n);
    if d.len() < 4 {
        Seq::new((4 - d.len()) as nat, |_i: int| ' ') + d
    } else {
        d
    }
}

/// A line number as shown: 0 when there is none.
pub open spec fn number(n: Option<u32>) -> nat {
    match n {
        Some(v) => v as nat,
        None => 0,
    }
}

/// `── <path> (+<insertions> -<deletions>) ──` and a line end.
pub open spec fn file_title(f: DiffFile) -> Seq<char> {
    "── "@ + f.path@ + " (+"@ + decimal(f.stats.insertions as nat) + " -"@ + decimal(
        f.stats.deletions as nat,
    ) + ") ──\n"@
}

/// The highlight of a changed line.
pub open spec fn change_tags(k: DiffLineKind) -> Seq<DiffTag> {
    match k {
        DiffLineKind::Addition => seq![DiffTag::Addition],
        DiffLineKind::Deletion => seq![DiffTag::Deletion],
        DiffLineKind::Context => Seq::empty(),
    }
}

/// The line numbers in front of a line of the unified view: the old number
/// of a deleted line, the new number of an added one, both for context.
pub open spec fn gutter(l: DiffLine) -> Seq<char> {
    match l.kind {
        DiffLineKind::Deletion => pad4(number(l.old_lineno)) + "      "@,
        DiffLineKind::Addition => "     "@ + pad4(number(l.new_lineno)) + " "@,
        DiffLineKind::Context => pad4(number(l.old_lineno)) + " "@ + pad4(number(l.new_lineno)) + " "@,
    }
}

/// The sign in front of a line's text in the unified view.
pub open spec fn sign(k: DiffLineKind) -> Seq<char> {
    match k {
        DiffLineKind::Addition => "+ "@,
        DiffLineKind::Deletion => "- "@,
        DiffLineKind::Context => "  "@,
    }
}

/// The unified view of the first `n` lines of a hunk: for each line its
/// numbers (tagged as line numbers) and its signed text, both tagged as an
/// addition or deletion when the line is one.
pub open spec fn unified_lines(ls: Seq<DiffLine>, n: int) -> Seq<(Seq<char>, Seq<DiffTag>)>
    decreases n,
{
    if n <= 0 {
        Seq::empty()
    } else {
        let l = ls[n - 1];
        unified_lines(ls, n - 1) + seq![
            (gutter(l), seq![DiffTag::LineNo] + change_tags(l.kind)),
            (sign(l.kind) + line_end(l.content@), change_tags(l.kind)),
        ]
    }
}

/// The unified view of the first `n` hunks: each header, then its lines.
pub open spec fn unified_hunks(hs: Seq<DiffHunk>, n: int) -> Seq<(Seq<char>, Seq<DiffTag>)>
    decreases n,
{
    if n <= 0 {
        Seq::empty()
    } else {
        let h = hs[n - 1];
        unified_hunks(hs, n - 1) + seq![(line_end(h.header@), seq![DiffTag::HunkHeader])]
            + unified_lines(h.lines@, h.lines@.len() as int)
    }
}

/// The unified view of the first `n` files: each title, its hunks, and an
/// empty line.
pub open spec fn unified_files(fs: Seq<DiffFile>, n: int) -> Seq<(Seq<char>, Seq<DiffTag>)>
    decreases n,
{
    if n <= 0 {
        Seq::empty()
    } else {
        let f = fs[n - 1];
        unified_files(fs, n - 1) + seq![(file_title(f), seq![DiffTag::FileHeader])] + unified_hunks(
            f.hunks@,
            f.hunks@.len() as int,
        ) + seq![("\n"@, Seq::<DiffTag>::empty())]
    }
}

/// A line of one column of the side-by-side view: its number and its text.
pub open spec fn column_line(n: Option<u32>, content: Seq<char>) -> Seq<char> {
    line_end(pad4(number(n)) + "  "@ + content)
}

/// The two columns of the first `n` lines of a hunk: a context line on both
/// sides, a deleted line on the left, an added line on the right, and an
/// empty line opposite each change so that the columns stay aligned.
pub open spec fn side_lines(ls: Seq<DiffLine>, n: int) -> (
    Seq<(Seq<char>, Seq<DiffTag>)>,
    Seq<(Seq<char>, Seq<DiffTag>)>,
)
    decreases n,
{
    if n <= 0 {
        (Seq::empty(), Seq::empty())
    } else {
        let (left, right) = side_lines(ls, n - 1);
        let l = ls[n - 1];
        let c = l.content@;
        let blank = ("\n"@, seq![DiffTag::EmptyLine]);
        match l.kind {
            DiffLineKind::Context => (
                left.push((column_line(l.old_lineno, c), Seq::empty())),
                right.push((column_line(l.new_lineno, c), Seq::empty())),
            ),
            DiffLineKind::Deletion => (
                left.push((column_line(l.old_lineno, c), seq![DiffTag::Deletion])),
                right.push(blank),
            ),
            DiffLineKind::Addition => (
                left.push(blank),
                right.push((column_line(l.new_lineno, c), seq![DiffTag::Addition])),
            ),
        }
    }
}

/// The two columns of the first `n` hunks: each header on both sides, then
/// its lines.
pub open spec fn side_hunks(hs: Seq<DiffHunk>, n: int) -> (
    Seq<(Seq<char>, Seq<DiffTag>)>,
    Seq<(Seq<char>, Seq<DiffTag>)>,
)
    decreases n,
{
    if n <= 0 {
        (Seq::empty(), Seq::empty())
    } else {
        let (left, right) = side_hunks(hs, n - 1);
        let h = hs[n - 1];
        let head = (line_end(h.header@), seq![DiffTag::HunkHeader]);
        let (l, r) = side_lines(h.lines@, h.lines@.len() as int);
        (left.push(head) + l, right.push(head) + r)
    }
}

/// The two columns of the first `n` files: each title on both sides, its
/// hunks, and an empty line.
pub open spec fn side_files(fs: Seq<DiffFile>, n: int) -> (
    Seq<(Seq<char>, Seq<DiffTag>)>,
    Seq<(Seq<char>, Seq<DiffTag>)>,
)
    decreases n,
{
    if n <= 0 {
        (Seq::empty(), Seq::empty())
    } else {
        let (left, right) = side_files(fs, n - 1);
        let f = fs[n - 1];
        let title = (file_title(f), seq![DiffTag::FileHeader]);
        let end = ("\n"@, Seq::<DiffTag>::empty());
        let (l, r) = side_hunks(f.hunks@, f.hunks@.len() as int);
        ((left.push(title) + l).push(end), (right.push(title) + r).push(end))
    }
}


fn piece(text: &Vec<char>, tags: Vec<DiffTag>) -> (r: Piece)
    ensures
        r.text@ == text@,
        r.tags@ == tags@,
{
    Piece { text: string_of(text), tags }
}

fn push_piece(out: &mut Vec<Piece>, text: &Vec<char>, tags: Vec<DiffTag>)
    ensures
        pieces_view(final(out)@) == pieces_view(old(out)@).push((text@, tags@)),
{
    let p = piece(text, tags);
    out.push(p);
    assert(pieces_view(out@) =~= pieces_view(old(out)@).push((text@, tags@)));
}

fn push_line_end(v: &mut Vec<char>)
    ensures
        final(v)@ == line_end(old(v)@),
{
    if v.len() == 0 || v[v.len() - 1] != '\n' {
        v.push('\n');
    }
}

fn push_str(v: &mut Vec<char>, s: &str)
    ensures
        final(v)@ == old(v)@ + s@,
{
    push_all(v, &chars_of(s));
}

pub(crate) fn push_pad4(out: &mut Vec<char>, n: u64)
    ensures
        final(out)@ == old(out)@ + pad4(n as nat),
{
    let mut d: Vec<char> = Vec::new();
    push_decimal(&mut d, n);
    assert(d@ == decimal(n as nat));
    let mut k = d.len();
    while k < 4
        invariant
            d@ == decimal(n as nat),
            d.len() <= k,
            d.len() < 4 ==> k <= 4,
            d.len() >= 4 ==> k == d.len(),
            out@ == old(out)@ + Seq::new((k - d.len()) as nat, |_i: int| ' '),
        decreases 4 - k,
    {
        out.push(' ');
        assert(Seq::new((k + 1 - d.len()) as nat, |_i: int| ' ') =~= Seq::new(
            (k - d.len()) as nat,
            |_i: int| ' ',
        ).push(' '));
        k = k + 1;
    }
    let ghost spaces = Seq::new((k - d.len()) as nat, |_i: int| ' ');
    push_all(out, &d);
    if d.len() >= 4 {
        assert(spaces =~= Seq::<char>::empty());
        assert(old(out)@ + spaces + d@ =~= old(out)@ + d@);
    }
    assert(out@ =~= old(out)@ + pad4(n as nat));
}

fn number_of(n: Option<u32>) -> (r: u32)
    ensures
        r as nat == number(n),
{
    match n {
        Some(v) => v,
        None => 0,
    }
}

fn change_tags_of(k: DiffLineKind) -> (r: Vec<DiffTag>)
    ensures
        r@ == change_tags(k),
{
    let mut v: Vec<DiffTag> = Vec::new();
    match k {
        DiffLineKind::Addition => v.push(DiffTag::Addition),
        DiffLineKind::Deletion => v.push(DiffTag::Deletion),
        DiffLineKind::Context => {},
    }
    assert(v@ =~= change_tags(k));
    v
}

fn file_title_of(f: &DiffFile) -> (r: Vec<char>)
    ensures
        r@ == file_title(*f),
{
    let mut v: Vec<char> = Vec::new();
    push_str(&mut v, "── ");
    push_str(&mut v, f.path.as_str());
    push_str(&mut v, " (+");
    push_decimal(&mut v, f.stats.insertions as u64);
    push_str(&mut v, " -");
    push_decimal(&mut v, f.stats.deletions as u64);
    push_str(&mut v, ") ──\n");
    v
}

fn gutter_of(l: &DiffLine) -> (r: Vec<char>)
    ensures
        r@ == gutter(*l),
{
    let mut v: Vec<char> = Vec::new();
    match l.kind {
        DiffLineKind::Deletion => {
            push_pad4(&mut v, number_of(l.old_lineno) as u64);
            push_str(&mut v, "      ");
        },
        DiffLineKind::Addition => {
            push_str(&mut v, "     ");
            push_pad4(&mut v, number_of(l.new_lineno) as u64);
            push_str(&mut v, " ");
        },
        DiffLineKind::Context => {
            push_pad4(&mut v, number_of(l.old_lineno) as u64);
            push_str(&mut v, " ");
            push_pad4(&mut v, number_of(l.new_lineno) as u64);
            push_str(&mut v, " ");
        },
    }
    v
}

fn signed_text_of(l: &DiffLine) -> (r: Vec<char>)
    ensures
        r@ == sign(l.kind) + line_end(l.content@),
{
    let mut v: Vec<char> = Vec::new();
    match l.kind {
        DiffLineKind::Addition => push_str(&mut v, "+ "),
        DiffLineKind::Deletion => push_str(&mut v, "- "),
        DiffLineKind::Context => push_str(&mut v, "  "),
    }
    let mut c = chars_of(l.content.as_str());
    push_line_end(&mut c);
    push_all(&mut v, &c);
    v
}

fn column_line_of(n: Option<u32>, content: &str) -> (r: Vec<char>)
    ensures
        r@ == column_line(n, content@),
{
    let mut v: Vec<char> = Vec::new();
    push_pad4(&mut v, number_of(n) as u64);
    push_str(&mut v, "  ");
    push_str(&mut v, content);
    push_line_end(&mut v);
    v
}

fn header_of(h: &DiffHunk) -> (r: Vec<char>)
    ensures
        r@ == line_end(h.header@),
{
    let mut v = chars_of(h.header.as_str());
    push_line_end(&mut v);
    v
}

fn push_unified_lines(out: &mut Vec<Piece>, ls: &Vec<DiffLine>)
    ensures
        pieces_view(final(out)@) == pieces_view(old(out)@) + unified_lines(ls@, ls@.len() as int),
{
    let mut i: usize = 0;
    while i < ls.len()
        invariant
            i <= ls.len(),
            pieces_view(out@) == pieces_view(old(out)@) + unified_lines(ls@, i as int),
        decreases ls.len() - i,
    {
        let l = &ls[i];
        let ghost before = pieces_view(out@);
        let mut tags: Vec<DiffTag> = Vec::new();
        tags.push(DiffTag::LineNo);
        let mut change = change_tags_of(l.kind);
        tags.append(&mut change);
        push_piece(out, &gutter_of(l), tags);
        push_piece(out, &signed_text_of(l), change_tags_of(l.kind));
        assert(pieces_view(out@) =~= pieces_view(old(out)@) + unified_lines(ls@, i + 1));
        i = i + 1;
    }
}

fn push_unified_hunks(out: &mut Vec<Piece>, hs: &Vec<DiffHunk>)
    ensures
        pieces_view(final(out)@) == pieces_view(old(out)@) + unified_hunks(hs@, hs@.len() as int),
{
    let mut i: usize = 0;
    while i < hs.len()
        invariant
            i <= hs.len(),
            pieces_view(out@) == pieces_view(old(out)@) + unified_hunks(hs@, i as int),
        decreases hs.len() - i,
    {
        let h = &hs[i];
        let mut tags: Vec<DiffTag> = Vec::new();
        tags.push(DiffTag::HunkHeader);
        push_piece(out, &header_of(h), tags);
        push_unified_lines(out, &h.lines);
        assert(pieces_view(out@) =~= pieces_view(old(out)@) + unified_hunks(hs@, i + 1));
        i = i + 1;
    }
}

/// The unified view of the files of a diff.
#[verifier::spinoff_prover]
pub fn render_unified(files: &[DiffFile]) -> (r: Vec<Piece>)
    ensures
        pieces_view(r@) == unified_files(files@, files@.len() as int),
{
    let mut out: Vec<Piece> = Vec::new();
    let mut i: usize = 0;
    while i < files.len()
        invariant
            i <= files.len(),
            pieces_view(out@) == unified_files(files@, i as int),
        decreases files.len() - i,
    {
        let f = &files[i];
        let mut tags: Vec<DiffTag> = Vec::new();
        tags.push(DiffTag::FileHeader);
        assert(tags@ =~= seq![DiffTag::FileHeader]);
        push_piece(&mut out, &file_title_of(f), tags);
        let ghost a = pieces_view(out@);
        push_unified_hunks(&mut out, &f.hunks);
        let ghost b = pieces_view(out@);
        let mut nl: Vec<char> = Vec::new();
        nl.push('\n');
        let empty: Vec<DiffTag> = Vec::new();
        proof {
            reveal_strlit("\n");
            assert(nl@ =~= "\n"@);
            assert(empty@ =~= Seq::<DiffTag>::empty());
        }
        push_piece(&mut out, &nl, empty);
        assert(a == unified_files(files@, i as int) + seq![(file_title(*f), seq![DiffTag::FileHeader])]);
        assert(b == a + unified_hunks(f.hunks@, f.hunks@.len() as int));
        assert(pieces_view(out@) =~= unified_files(files@, i + 1));
        i = i + 1;
    }
    out
}


fn one_tag(t: DiffTag) -> (r: Vec<DiffTag>)
    ensures
        r@ == seq![t],
{
    let mut v: Vec<DiffTag> = Vec::new();
    v.push(t);
    assert(v@ =~= seq![t]);
    v
}

fn newline() -> (r: Vec<char>)
    ensures
        r@ == "\n"@,
{
    let mut v: Vec<char> = Vec::new();
    v.push('\n');
    proof {
        reveal_strlit("\n");
    }
    assert(v@ =~= "\n"@);
    v
}

fn push_side_lines(left: &mut Vec<Piece>, right: &mut Vec<Piece>, ls: &Vec<DiffLine>)
    ensures
        pieces_view(final(left)@) == pieces_view(old(left)@) + side_lines(ls@, ls@.len() as int).0,
        pieces_view(final(right)@) == pieces_view(old(right)@) + side_lines(ls@, ls@.len() as int).1,
{
    let mut i: usize = 0;
    while i < ls.len()
        invariant
            i <= ls.len(),
            pieces_view(left@) == pieces_view(old(left)@) + side_lines(ls@, i as int).0,
            pieces_view(right@) == pieces_view(old(right)@) + side_lines(ls@, i as int).1,
        decreases ls.len() - i,
    {
        let l = &ls[i];
        match l.kind {
            DiffLineKind::Context => {
                push_piece(left, &column_line_of(l.old_lineno, l.content.as_str()), Vec::new());
                push_piece(right, &column_line_of(l.new_lineno, l.content.as_str()), Vec::new());
            },
            DiffLineKind::Deletion => {
                push_piece(left, &column_line_of(l.old_lineno, l.content.as_str()), one_tag(DiffTag::Deletion));
                push_piece(right, &newline(), one_tag(DiffTag::EmptyLine));
            },
            DiffLineKind::Addition => {
                push_piece(left, &newline(), one_tag(DiffTag::EmptyLine));
                push_piece(right, &column_line_of(l.new_lineno, l.content.as_str()), one_tag(DiffTag::Addition));
            },
        }
        assert(pieces_view(left@) =~= pieces_view(old(left)@) + side_lines(ls@, i + 1).0);
        assert(pieces_view(right@) =~= pieces_view(old(right)@) + side_lines(ls@, i + 1).1);
        i = i + 1;
    }
}

fn push_side_hunks(left: &mut Vec<Piece>, right: &mut Vec<Piece>, hs: &Vec<DiffHunk>)
    ensures
        pieces_view(final(left)@) == pieces_view(old(left)@) + side_hunks(hs@, hs@.len() as int).0,
        pieces_view(final(right)@) == pieces_view(old(right)@) + side_hunks(hs@, hs@.len() as int).1,
{
    let mut i: usize = 0;
    while i < hs.len()
        invariant
            i <= hs.len(),
            pieces_view(left@) == pieces_view(old(left)@) + side_hunks(hs@, i as int).0,
            pieces_view(right@) == pieces_view(old(right)@) + side_hunks(hs@, i as int).1,
        decreases hs.len() - i,
    {
        let h = &hs[i];
        let head = header_of(h);
        push_piece(left, &head, one_tag(DiffTag::HunkHeader));
        push_piece(right, &head, one_tag(DiffTag::HunkHeader));
        push_side_lines(left, right, &h.lines);
        assert(pieces_view(left@) =~= pieces_view(old(left)@) + side_hunks(hs@, i + 1).0);
        assert(pieces_view(right@) =~= pieces_view(old(right)@) + side_hunks(hs@, i + 1).1);
        i = i + 1;
    }
}

/// The side-by-side view of the files of a diff: the left (old) and the
/// right (new) column.
#[verifier::spinoff_prover]
pub fn render_side_by_side(files: &[DiffFile]) -> (r: (Vec<Piece>, Vec<Piece>))
    ensures
        (pieces_view(r.0@), pieces_view(r.1@)) == side_files(files@, files@.len() as int),
{
    let mut left: Vec<Piece> = Vec::new();
    let mut right: Vec<Piece> = Vec::new();
    let mut i: usize = 0;
    while i < files.len()
        invariant
            i <= files.len(),
            (pieces_view(left@), pieces_view(right@)) == side_files(files@, i as int),
        decreases files.len() - i,
    {
        let f = &files[i];
        let title = file_title_of(f);
        push_piece(&mut left, &title, one_tag(DiffTag::FileHeader));
        push_piece(&mut right, &title, one_tag(DiffTag::FileHeader));
        push_side_hunks(&mut left, &mut right, &f.hunks);
        let empty: Vec<DiffTag> = Vec::new();
        push_piece(&mut left, &newline(), empty);
        let empty: Vec<DiffTag> = Vec::new();
        push_piece(&mut right, &newline(), empty);
        assert(pieces_view(left@) =~= side_files(files@, i + 1).0);
        assert(pieces_view(right@) =~= side_files(files@, i + 1).1);
        i = i + 1;
    }
    (left, right)
}


/// Every piece ends a line.
pub open spec fn whole_lines(ps: Seq<(Seq<char>, Seq<DiffTag>)>) -> bool {
    forall|k: int| #![trigger ps[k]] 0 <= k < ps.len() ==> ps[k].0.len() > 0 && ps[k].0.last() == '\n'
}

proof fn lemma_line_end(s: Seq<char>)
    ensures
        line_end(s).len() > 0 && line_end(s).last() == '\n',
{
}

proof fn lemma_whole_lines_concat(a: Seq<(Seq<char>, Seq<DiffTag>)>, b: Seq<(Seq<char>, Seq<DiffTag>)>)
    requires
        whole_lines(a),
        whole_lines(b),
    ensures
        whole_lines(a + b),
{
    let c = a + b;
    assert forall|k: int| #![trigger c[k]] 0 <= k < c.len() implies c[k].0.len() > 0 && c[k].0.last()
        == '\n' by {
        if k < a.len() {
            assert(c[k] == a[k]);
        } else {
            assert(c[k] == b[k - a.len()]);
        }
    }
}

proof fn lemma_side_lines_aligned(ls: Seq<DiffLine>, n: int)
    requires
        0 <= n <= ls.len(),
    ensures
        side_lines(ls, n).0.len() == side_lines(ls, n).1.len(),
        whole_lines(side_lines(ls, n).0),
        whole_lines(side_lines(ls, n).1),
    decreases n,
{
    reveal_strlit("\n");
    if n > 0 {
        lemma_side_lines_aligned(ls, n - 1);
        let l = ls[n - 1];
        lemma_line_end(pad4(number(l.old_lineno)) + "  "@ + l.content@);
        lemma_line_end(pad4(number(l.new_lineno)) + "  "@ + l.content@);
        let blank = ("\n"@, seq![DiffTag::EmptyLine]);
        assert(blank.0.len() > 0 && blank.0.last() == '\n');
        let (left, right) = side_lines(ls, n - 1);
        let (nl, nr) = side_lines(ls, n);
        assert(nl.drop_last() == left);
        assert(nr.drop_last() == right);
        assert(whole_lines(nl)) by {
            assert forall|k: int| #![trigger nl[k]] 0 <= k < nl.len() implies nl[k].0.len() > 0
                && nl[k].0.last() == '\n' by {
                if k < left.len() {
                    assert(nl[k] == left[k]);
                }
            }
        }
        assert(whole_lines(nr)) by {
            assert forall|k: int| #![trigger nr[k]] 0 <= k < nr.len() implies nr[k].0.len() > 0
                && nr[k].0.last() == '\n' by {
                if k < right.len() {
                    assert(nr[k] == right[k]);
                }
            }
        }
    }
}

proof fn lemma_side_hunks_aligned(hs: Seq<DiffHunk>, n: int)
    requires
        0 <= n <= hs.len(),
    ensures
        side_hunks(hs, n).0.len() == side_hunks(hs, n).1.len(),
        whole_lines(side_hunks(hs, n).0),
        whole_lines(side_hunks(hs, n).1),
    decreases n,
{
    if n > 0 {
        lemma_side_hunks_aligned(hs, n - 1);
        let h = hs[n - 1];
        lemma_side_lines_aligned(h.lines@, h.lines@.len() as int);
        lemma_line_end(h.header@);
        let head = (line_end(h.header@), seq![DiffTag::HunkHeader]);
        let (left, right) = side_hunks(hs, n - 1);
        let (l, r) = side_lines(h.lines@, h.lines@.len() as int);
        assert(whole_lines(seq![head]));
        assert(left.push(head) == left + seq![head]);
        assert(right.push(head) == right + seq![head]);
        lemma_whole_lines_concat(left, seq![head]);
        lemma_whole_lines_concat(right, seq![head]);
        lemma_whole_lines_concat(left.push(head), l);
        lemma_whole_lines_concat(right.push(head), r);
    }
}

/// The side-by-side view keeps its columns aligned: both columns have as
/// many pieces, and every piece is a whole line, so that the k-th line on
/// the left stands beside the k-th line on the right.
pub proof fn law_side_by_side_aligned(fs: Seq<DiffFile>, n: int)
    requires
        0 <= n <= fs.len(),
    ensures
        side_files(fs, n).0.len() == side_files(fs, n).1.len(),
        whole_lines(side_files(fs, n).0),
        whole_lines(side_files(fs, n).1),
    decreases n,
{
    reveal_strlit("\n");
    if n > 0 {
        law_side_by_side_aligned(fs, n - 1);
        let f = fs[n - 1];
        lemma_side_hunks_aligned(f.hunks@, f.hunks@.len() as int);
        let title = (file_title(f), seq![DiffTag::FileHeader]);
        let end = ("\n"@, Seq::<DiffTag>::empty());
        reveal_strlit(") ──\n");
        let t = "── "@ + f.path@ + " (+"@ + decimal(f.stats.insertions as nat) + " -"@ + decimal(
            f.stats.deletions as nat,
        );
        assert(file_title(f) == t + ") ──\n"@);
        assert(file_title(f).last() == '\n');
        let (left, right) = side_files(fs, n - 1);
        let (l, r) = side_hunks(f.hunks@, f.hunks@.len() as int);
        assert(whole_lines(seq![title]));
        assert(whole_lines(seq![end]));
        assert(left.push(title) == left + seq![title]);
        assert(right.push(title) == right + seq![title]);
        lemma_whole_lines_concat(left, seq![title]);
        lemma_whole_lines_concat(right, seq![title]);
        lemma_whole_lines_concat(left.push(title), l);
        lemma_whole_lines_concat(right.push(title), r);
        assert((left.push(title) + l).push(end) == (left.push(title) + l) + seq![end]);
        assert((right.push(title) + r).push(end) == (right.push(title) + r) + seq![end]);
        lemma_whole_lines_concat(left.push(title) + l, seq![end]);
        lemma_whole_lines_concat(right.push(title) + r, seq![end]);
    }
}


/// The line numbers the unified view shows for a line: only the old number
/// of a deleted line, only the new number of an added line, both for a
/// context line, old first.
pub open spec fn numbers_shown(l: DiffLine) -> Seq<char> {
    match l.kind {
        DiffLineKind::Deletion => pad4(number(l.old_lineno)) + "      "@,
        DiffLineKind::Addition => "     "@ + pad4(number(l.new_lineno)) + " "@,
        DiffLineKind::Context => pad4(number(l.old_lineno)) + " "@ + pad4(number(l.new_lineno)) + " "@,
    }
}

/// The text the unified view shows for a line: `- `, `+ ` or two spaces,
/// then its content ending a line.
pub open spec fn text_shown(l: DiffLine) -> Seq<char> {
    match l.kind {
        DiffLineKind::Deletion => "- "@ + line_end(l.content@),
        DiffLineKind::Addition => "+ "@ + line_end(l.content@),
        DiffLineKind::Context => "  "@ + line_end(l.content@),
    }
}

/// In the unified view of a hunk, line `k` of the hunk takes pieces `2k`
/// (its numbers, see `numbers_shown`) and `2k + 1` (its text, see
/// `text_shown`).
pub proof fn law_unified_rows_show_numbers(ls: Seq<DiffLine>, n: int)
    requires
        0 <= n <= ls.len(),
    ensures
        unified_lines(ls, n).len() == 2 * n,
        forall|k: int|
            0 <= k < n ==> (#[trigger] unified_lines(ls, n)[2 * k]).0 == numbers_shown(ls[k])
                && unified_lines(ls, n)[2 * k + 1].0 == text_shown(ls[k]),
    decreases n,
{
    if n > 0 {
        law_unified_rows_show_numbers(ls, n - 1);
        let prev = unified_lines(ls, n - 1);
        let cur = unified_lines(ls, n);
        let l = ls[n - 1];
        assert(cur == prev + seq![
            (gutter(l), seq![DiffTag::LineNo] + change_tags(l.kind)),
            (sign(l.kind) + line_end(l.content@), change_tags(l.kind)),
        ]);
        assert forall|k: int| 0 <= k < n implies (#[trigger] cur[2 * k]).0 == numbers_shown(ls[k])
            && cur[2 * k + 1].0 == text_shown(ls[k]) by {
            if k < n - 1 {
                assert(cur[2 * k] == prev[2 * k]);
                assert(cur[2 * k + 1] == prev[2 * k + 1]);
            } else {
                assert(cur[2 * k] == (gutter(l), seq![DiffTag::LineNo] + change_tags(l.kind)));
                assert(cur[2 * k + 1] == (sign(l.kind) + line_end(l.content@), change_tags(l.kind)));
            }
        }
    }
}

/// In the side-by-side view of a hunk, row `k` of each column shows line
/// `k` of the hunk: the left (old) column shows a context or deleted line
/// with its old line number, the right (new) column shows a context or added
/// line with its new line number, and the other column holds an empty line
/// opposite a change.
pub proof fn law_side_rows_show_their_side(ls: Seq<DiffLine>, n: int)
    requires
        0 <= n <= ls.len(),
    ensures
        side_lines(ls, n).0.len() == n,
        side_lines(ls, n).1.len() == n,
        forall|k: int|
            0 <= k < n ==> {
                let l = ls[k];
                &&& (#[trigger] side_lines(ls, n).0[k]).0 == if l.kind == DiffLineKind::Addition {
                    "\n"@
                } else {
                    line_end(pad4(number(l.old_lineno)) + "  "@ + l.content@)
                }
                &&& side_lines(ls, n).1[k].0 == if l.kind == DiffLineKind::Deletion {
                    "\n"@
                } else {
                    line_end(pad4(number(l.new_lineno)) + "  "@ + l.content@)
                }
            },
    decreases n,
{
    if n > 0 {
        law_side_rows_show_their_side(ls, n - 1);
        let (left, right) = side_lines(ls, n - 1);
        let (nl, nr) = side_lines(ls, n);
        assert forall|k: int| 0 <= k < n - 1 implies nl[k] == left[k] && nr[k] == right[k] by {}
    }
}

// ---------------------------------------------------------------------------
// The diff of one file in the changes view
// ---------------------------------------------------------------------------

/// A syntax colour over part of a line's text: the byte range within the
/// text after the sign, the name of the highlight and its colour.
#[derive(Debug, Clone)]
pub struct SyntaxMark {
    pub start: usize,
    pub end: usize,
    pub tag_name: String,
    pub color: String,
}

/// A line of a file's diff in the changes view.
#[derive(Debug, Clone)]
pub struct DiffTextLine {
    pub text: String,
    pub tag: Option<DiffTag>,
    pub syntax: Vec<SyntaxMark>,
}

/// A lower-case hexadecimal digit.
pub open spec fn hex_digit(v: int) -> char {
    if v < 10 {
        (48 + v) as char
    } else {
        (87 + v) as char
    }
}

/// A byte in two hexadecimal digits.
pub open spec fn hex2(b: u8) -> Seq<char> {
    seq![hex_digit((b / 16) as int), hex_digit((b % 16) as int)]
}

/// The highlight name of a colour: `syn_rrggbb`.
pub open spec fn syntax_tag_name(fg: (u8, u8, u8)) -> Seq<char> {
    "syn_"@ + hex2(fg.0) + hex2(fg.1) + hex2(fg.2)
}

/// A colour as `#rrggbb`.
pub open spec fn color_text(fg: (u8, u8, u8)) -> Seq<char> {
    seq!['#'] + hex2(fg.0) + hex2(fg.1) + hex2(fg.2)
}

/// The highlight of a changed line.
pub open spec fn change_tag(k: DiffLineKind) -> Option<DiffTag> {
    match k {
        DiffLineKind::Addition => Some(DiffTag::Addition),
        DiffLineKind::Deletion => Some(DiffTag::Deletion),
        DiffLineKind::Context => None,
    }
}

/// The sign in front of a line.
pub open spec fn sign_char(k: DiffLineKind) -> char {
    match k {
        DiffLineKind::Addition => '+',
        DiffLineKind::Deletion => '-',
        DiffLineKind::Context => ' ',
    }
}

/// The first `n` lines of a hunk as text and highlight: each with its sign
/// and a line end.
pub open spec fn line_texts(ls: Seq<DiffLine>, n: int) -> Seq<(Seq<char>, Option<DiffTag>)>
    decreases n,
{
    if n <= 0 {
        Seq::empty()
    } else {
        let l = ls[n - 1];
        line_texts(ls, n - 1).push((seq![sign_char(l.kind)] + l.content@ + "\n"@, change_tag(l.kind)))
    }
}

/// The lines of the first `n` hunks as text and highlight: each header on a
/// line, then its lines.
pub open spec fn text_lines(hs: Seq<DiffHunk>, n: int) -> Seq<(Seq<char>, Option<DiffTag>)>
    decreases n,
{
    if n <= 0 {
        Seq::empty()
    } else {
        let h = hs[n - 1];
        text_lines(hs, n - 1) + seq![(h.header@ + "\n"@, Some(DiffTag::HunkHeader))] + line_texts(
            h.lines@,
            h.lines@.len() as int,
        )
    }
}

proof fn lemma_line_texts_len(ls: Seq<DiffLine>, n: int)
    requires
        0 <= n,
    ensures
        line_texts(ls, n).len() == n,
    decreases n,
{
    if n > 0 {
        lemma_line_texts_len(ls, n - 1);
    }
}

/// The number of lines of the first `n` hunks.
pub open spec fn line_count(hs: Seq<DiffHunk>, n: int) -> nat
    decreases n,
{
    if n <= 0 {
        0
    } else {
        line_count(hs, n - 1) + hs[n - 1].lines@.len()
    }
}

/// The syntax marks of a line from its highlight spans.
pub open spec fn marks_of(spans: Seq<HighlightSpan>) -> Seq<(int, int, Seq<char>, Seq<char>)> {
    spans.map_values(
        |s: HighlightSpan| (s.start as int, s.end as int, syntax_tag_name(s.fg), color_text(s.fg)),
    )
}

/// The syntax marks of the `g`-th line of the diff (hunk headers not
/// counted): those of its highlight spans, when there are any for it.
pub open spec fn line_marks(hl: Option<Seq<Seq<HighlightSpan>>>, g: int) -> Seq<(int, int, Seq<char>, Seq<char>)> {
    match hl {
        Some(v) => if 0 <= g < v.len() {
            marks_of(v[g])
        } else {
            Seq::empty()
        },
        None => Seq::empty(),
    }
}

pub open spec fn text_lines_view(v: Seq<DiffTextLine>) -> Seq<(Seq<char>, Option<DiffTag>)> {
    v.map_values(|l: DiffTextLine| (l.text@, l.tag))
}

pub open spec fn marks_view(v: Seq<SyntaxMark>) -> Seq<(int, int, Seq<char>, Seq<char>)> {
    v.map_values(|m: SyntaxMark| (m.start as int, m.end as int, m.tag_name@, m.color@))
}

fn hex_digit_of(v: u8) -> (r: char)
    requires
        v < 16,
    ensures
        r == hex_digit(v as int),
{
    if v < 10 {
        (48u8 + v) as char
    } else {
        (87u8 + v) as char
    }
}

fn push_hex2(out: &mut Vec<char>, b: u8)
    ensures
        final(out)@ == old(out)@ + hex2(b),
{
    out.push(hex_digit_of(b / 16));
    out.push(hex_digit_of(b % 16));
    assert(final(out)@ =~= old(out)@ + hex2(b));
}

fn mark_of(s: &HighlightSpan) -> (r: SyntaxMark)
    ensures
        (r.start as int, r.end as int, r.tag_name@, r.color@) == (s.start as int, s.end as int, syntax_tag_name(
            s.fg,
        ), color_text(s.fg)),
{
    let mut name = chars_of("syn_");
    push_hex2(&mut name, s.fg.0);
    push_hex2(&mut name, s.fg.1);
    push_hex2(&mut name, s.fg.2);
    let mut color: Vec<char> = Vec::new();
    color.push('#');
    push_hex2(&mut color, s.fg.0);
    push_hex2(&mut color, s.fg.1);
    push_hex2(&mut color, s.fg.2);
    assert(color@ =~= seq!['#'] + hex2(s.fg.0) + hex2(s.fg.1) + hex2(s.fg.2));
    SyntaxMark { start: s.start, end: s.end, tag_name: string_of(&name), color: string_of(&color) }
}

fn marks_for(hl: Option<&Vec<Vec<HighlightSpan>>>, g: usize) -> (r: Vec<SyntaxMark>)
    ensures
        marks_view(r@) == line_marks(
            match hl {
                Some(v) => Some(v@.map_values(|l: Vec<HighlightSpan>| l@)),
                None => None,
            },
            g as int,
        ),
{
    let mut out: Vec<SyntaxMark> = Vec::new();
    match hl {
        Some(v) => {
            if g < v.len() {
                let spans = &v[g];
                let ghost want = marks_of(spans@);
                let mut i: usize = 0;
                while i < spans.len()
                    invariant
                        i <= spans.len(),
                        want == marks_of(spans@),
                        out@.len() == i,
                        marks_view(out@) == want.take(i as int),
                    decreases spans.len() - i,
                {
                    let m = mark_of(&spans[i]);
                    let ghost before = out@;
                    out.push(m);
                    assert(marks_view(out@) =~= want.take(i + 1)) by {
                        assert(out@ == before.push(m));
                        assert forall|k: int| 0 <= k < i + 1 implies #[trigger] marks_view(out@)[k]
                            == want[k] by {
                            if k < i {
                                assert(marks_view(before)[k] == want.take(i as int)[k]);
                                assert(out@[k] == before[k]);
                            }
                        }
                    }
                    i = i + 1;
                }
                assert(want.take(spans.len() as int) =~= want);
                assert(v@.map_values(|l: Vec<HighlightSpan>| l@)[g as int] == spans@);
            }
        },
        None => {},
    }
    out
}

/// The lines of a file's diff in the changes view, with the syntax marks of
/// `highlights` (one list of spans per diff line, hunk headers not counted).
#[verifier::spinoff_prover]
pub fn diff_text_lines(file: &DiffFile, highlights: Option<&Vec<Vec<HighlightSpan>>>) -> (r: Vec<DiffTextLine>)
    requires
        line_count(file.hunks@, file.hunks@.len() as int) <= usize::MAX,
    ensures
        text_lines_view(r@) == text_lines(file.hunks@, file.hunks@.len() as int),
        forall|j: int, i: int|
            0 <= j < file.hunks@.len() && 0 <= i < file.hunks@[j].lines@.len() ==> marks_view(
                #[trigger] r@[text_lines(file.hunks@, j).len() + 1 + i].syntax@,
            ) == line_marks(
                match highlights {
                    Some(v) => Some(v@.map_values(|l: Vec<HighlightSpan>| l@)),
                    None => None,
                },
                line_count(file.hunks@, j) + i,
            ),
{
    let ghost hl = match highlights {
        Some(v) => Some(v@.map_values(|l: Vec<HighlightSpan>| l@)),
        None => None,
    };
    let hs = &file.hunks;
    let mut out: Vec<DiffTextLine> = Vec::new();
    let mut g: usize = 0;
    let mut j: usize = 0;
    while j < hs.len()
        invariant
            j <= hs.len(),
            hs@ == file.hunks@,
            line_count(hs@, hs@.len() as int) <= usize::MAX,
            g as nat == line_count(hs@, j as int),
            text_lines_view(out@) == text_lines(hs@, j as int),
            hl == match highlights {
                Some(v) => Some(v@.map_values(|l: Vec<HighlightSpan>| l@)),
                None => None,
            },
            forall|jj: int, i: int|
                0 <= jj < j && 0 <= i < hs@[jj].lines@.len() ==> marks_view(
                    #[trigger] out@[text_lines(hs@, jj).len() + 1 + i].syntax@,
                ) == line_marks(hl, line_count(hs@, jj) + i),
        decreases hs.len() - j,
    {
        proof {
            lemma_line_count_mono(hs@, j + 1, hs@.len() as int);
        }
        let h = &hs[j];
        let mut head = chars_of(h.header.as_str());
        head.push('\n');
        proof {
            reveal_strlit("\n");
        }
        let ghost base = out@;
        let ghost base_len = out@.len();
        out.push(DiffTextLine { text: string_of(&head), tag: Some(DiffTag::HunkHeader), syntax: Vec::new() });
        proof {
            assert(head@ =~= h.header@ + "\n"@);
            assert(text_lines_view(out@) =~= text_lines_view(base).push((h.header@ + "\n"@, Some(DiffTag::HunkHeader))));
            assert(text_lines_view(out@) =~= text_lines(hs@, j as int) + seq![
                (h.header@ + "\n"@, Some(DiffTag::HunkHeader)),
            ] + line_texts(h.lines@, 0));
        }
        let mut i: usize = 0;
        while i < h.lines.len()
            invariant
                i <= h.lines.len(),
                hs@ == file.hunks@,
                g as nat + h.lines@.len() - i <= usize::MAX,
                g as nat == line_count(hs@, j as int) + i,
                out@.len() == base_len + 1 + i,
                base.len() == base_len,
                forall|k: int| 0 <= k < base_len ==> out@[k] == base[k],
                text_lines_view(out@) == text_lines(hs@, j as int) + seq![
                    (h.header@ + "\n"@, Some(DiffTag::HunkHeader)),
                ] + line_texts(h.lines@, i as int),
                hl == match highlights {
                    Some(v) => Some(v@.map_values(|l: Vec<HighlightSpan>| l@)),
                    None => None,
                },
                forall|t: int| 0 <= t < i ==> marks_view(#[trigger] out@[base_len + 1 + t].syntax@) == line_marks(
                    hl,
                    line_count(hs@, j as int) + t,
                ),
            decreases h.lines.len() - i,
        {
            let l = &h.lines[i];
            let mut text: Vec<char> = Vec::new();
            let tag: Option<DiffTag> = match l.kind {
                DiffLineKind::Addition => {
                    text.push('+');
                    Some(DiffTag::Addition)
                },
                DiffLineKind::Deletion => {
                    text.push('-');
                    Some(DiffTag::Deletion)
                },
                DiffLineKind::Context => {
                    text.push(' ');
                    None
                },
            };
            assert(text@ == seq![sign_char(l.kind)]);
            push_all(&mut text, &chars_of(l.content.as_str()));
            text.push('\n');
            proof {
                reveal_strlit("\n");
            }
            let marks = marks_for(highlights, g);
            let ghost before = out@;
            out.push(DiffTextLine { text: string_of(&text), tag, syntax: marks });
            proof {
                assert(text@ =~= seq![sign_char(l.kind)] + l.content@ + "\n"@);
                assert(tag == change_tag(l.kind));
                assert(*l == h.lines@[i as int]);
                assert(text_lines_view(out@) =~= text_lines_view(before).push((text@, tag)));
                assert(text_lines_view(out@) =~= text_lines(hs@, j as int) + seq![
                    (h.header@ + "\n"@, Some(DiffTag::HunkHeader)),
                ] + line_texts(h.lines@, i + 1));
                assert forall|k: int| 0 <= k < base_len implies out@[k] == base[k] by {
                    assert(out@[k] == before[k]);
                }
                assert forall|t: int| 0 <= t < i + 1 implies marks_view(#[trigger] out@[base_len + 1 + t].syntax@)
                    == line_marks(hl, line_count(hs@, j as int) + t) by {
                    if t < i {
                        assert(out@[base_len + 1 + t] == before[base_len + 1 + t]);
                    }
                }
            }
            g = g + 1;
            i = i + 1;
        }
        proof {
            lemma_line_texts_len(h.lines@, h.lines@.len() as int);
            assert(text_lines_view(out@) == text_lines(hs@, j + 1));
            assert(text_lines(hs@, j as int).len() == base_len) by {
                assert(text_lines_view(base).len() == base.len());
            }
            assert forall|jj: int, ii: int|
                0 <= jj < j + 1 && 0 <= ii < hs@[jj].lines@.len() implies marks_view(
                #[trigger] out@[text_lines(hs@, jj).len() + 1 + ii].syntax@,
            ) == line_marks(hl, line_count(hs@, jj) + ii) by {
                if jj < j {
                    lemma_text_lines_prefix(hs@, jj, j as int);
                    assert(text_lines(hs@, jj).len() + 1 + ii < text_lines(hs@, jj + 1).len());
                    assert(out@[text_lines(hs@, jj).len() + 1 + ii] == base[text_lines(hs@, jj).len() + 1 + ii]);
                } else {
                    assert(out@[base_len + 1 + ii].syntax@ == out@[base_len + 1 + ii].syntax@);
                }
            }
        }
        j = j + 1;
    }
    out
}

proof fn lemma_line_count_mono(hs: Seq<DiffHunk>, a: int, b: int)
    requires
        0 <= a <= b <= hs.len(),
    ensures
        line_count(hs, a) <= line_count(hs, b),
    decreases b - a,
{
    if a < b {
        lemma_line_count_mono(hs, a, b - 1);
    }
}

proof fn lemma_text_lines_prefix(hs: Seq<DiffHunk>, a: int, b: int)
    requires
        0 <= a < b <= hs.len(),
    ensures
        text_lines(hs, a + 1).len() <= text_lines(hs, b).len(),
        text_lines(hs, a + 1).len() == text_lines(hs, a).len() + 1 + hs[a].lines@.len(),
    decreases b - a,
{
    lemma_line_texts_len(hs[a].lines@, hs[a].lines@.len() as int);
    if a + 1 < b {
        lemma_text_lines_prefix(hs, a, b - 1);
        lemma_line_texts_len(hs[b - 1].lines@, hs[b - 1].lines@.len() as int);
    }
}

/// The height of a file's diff view of `n` lines: 18 pixels a line, for at
/// least 3 and at most 25 lines.
pub open spec fn visible_height(n: nat) -> int {
    18 * (if n < 3 {
        3
    } else if n > 25 {
        25
    } else {
        n as int
    })
}

/// The height of a file's diff view: 18 pixels a line, for at least 3 and at
/// most 25 lines.
pub fn diff_height(line_count: usize) -> (r: i32)
    ensures
        r == visible_height(line_count as nat),
{
    let visible: i32 = if line_count < 3 {
        3
    } else if line_count > 25 {
        25
    } else {
        line_count as i32
    };
    visible * 18
}

/// The contents of the lines of the first `n` hunks, in order.
pub open spec fn line_contents(hs: Seq<DiffHunk>, n: int) -> Seq<Seq<char>>
    decreases n,
{
    if n <= 0 {
        Seq::empty()
    } else {
        line_contents(hs, n - 1) + hs[n - 1].lines@.map_values(|l: DiffLine| l.content@)
    }
}

proof fn lemma_line_contents_len(hs: Seq<DiffHunk>, n: int)
    requires
        0 <= n <= hs.len(),
    ensures
        line_contents(hs, n).len() == line_count(hs, n),
    decreases n,
{
    if n > 0 {
        lemma_line_contents_len(hs, n - 1);
    }
}

/// The spans of highlighted lines, as plain values.
pub open spec fn highlights_view(h: Option<Highlighted>) -> Option<Seq<Seq<HighlightSpan>>> {
    match h {
        Some(x) => Some(x.lines@.map_values(|l: Vec<HighlightSpan>| l@)),
        None => None,
    }
}

/// A file's diff in the changes view: its lines, the highlighting they
/// carry, and the height of the view.
#[derive(Debug, Clone)]
pub struct RenderedDiff {
    pub lines: Vec<DiffTextLine>,
    pub highlighted: Option<Highlighted>,
    pub height: i32,
}

/// A file's diff in the changes view. Its lines are those of
/// `diff_text_lines`, with the syntax marks of the highlighting it computes:
/// the file's lines highlighted (`highlight_lines`) with the syntax found for
/// its path and the theme for a dark or a light background, or no
/// highlighting when no syntax or theme is found (for a plain path,
/// exactly when its extension is not listed or no theme is chosen). The
/// view is as high as `visible_height` of its line count. The colours, and
/// whether `syntect` finds a syntax for the path's extension, depend on
/// `syntect`.
pub fn render_file_diff(ss: &SyntaxSet, ts: &ThemeSet, file: &DiffFile, is_dark: bool) -> (r: RenderedDiff)
    requires
        line_count(file.hunks@, file.hunks@.len() as int) <= usize::MAX,
    ensures
        text_lines_view(r.lines@) == text_lines(file.hunks@, file.hunks@.len() as int),
        forall|j: int, i: int|
            0 <= j < file.hunks@.len() && 0 <= i < file.hunks@[j].lines@.len() ==> marks_view(
                #[trigger] r.lines@[text_lines(file.hunks@, j).len() + 1 + i].syntax@,
            ) == line_marks(highlights_view(r.highlighted), line_count(file.hunks@, j) + i),
        r.height == visible_height(line_count(file.hunks@, file.hunks@.len() as int)),
        (forall|k: int| 0 <= k < file.path@.len() ==> file.path@[k] != '.') ==> r.highlighted is None,
        chosen_theme(theme_names(*ts), is_dark) is None ==> r.highlighted is None,
        is_plain_path(file.path@) ==> (r.highlighted is Some <==> chosen_theme(theme_names(*ts), is_dark) is Some
            && lists_extension(syntax_extensions(*ss), plain_extension(file.path@))),
        r.highlighted matches Some(h) ==> {
            &&& chosen_theme(theme_names(*ts), is_dark) == Some(h.theme@)
            &&& exists|e: Seq<char>|
                #[trigger] extension_of(file.path@, e) && lists_extension(syntax_extensions(*ss), e)
            &&& h.lines@.len() == line_count(file.hunks@, file.hunks@.len() as int)
            &&& forall|g: int|
                0 <= g < h.lines@.len() ==> spans_for_line(
                    encode_utf8(line_contents(file.hunks@, file.hunks@.len() as int)[g]).len(),
                    #[trigger] h.lines@[g]@,
                )
        },
{
    let ghost hs = file.hunks@;
    let mut all_lines: Vec<&str> = Vec::new();
    let mut j: usize = 0;
    while j < file.hunks.len()
        invariant
            j <= file.hunks.len(),
            hs == file.hunks@,
            all_lines@.map_values(|t: &str| t@) == line_contents(hs, j as int),
        decreases file.hunks.len() - j,
    {
        let h = &file.hunks[j];
        let ghost base = line_contents(hs, j as int);
        let mut i: usize = 0;
        while i < h.lines.len()
            invariant
                i <= h.lines.len(),
                hs == file.hunks@,
                j < hs.len(),
                *h == hs[j as int],
                base == line_contents(hs, j as int),
                all_lines@.map_values(|t: &str| t@) == base + h.lines@.take(i as int).map_values(
                    |l: DiffLine| l.content@,
                ),
            decreases h.lines.len() - i,
        {
            let ghost prev = all_lines@;
            let t: &str = h.lines[i].content.as_str();
            all_lines.push(t);
            assert(all_lines@ == prev.push(t));
            assert(all_lines@.map_values(|t: &str| t@) =~= prev.map_values(|t: &str| t@).push(t@));
            assert(t@ == h.lines@[i as int].content@);
            assert(h.lines@.take(i + 1).map_values(|l: DiffLine| l.content@) =~= h.lines@.take(
                i as int,
            ).map_values(|l: DiffLine| l.content@).push(h.lines@[i as int].content@));
            assert(all_lines@.map_values(|t: &str| t@) =~= base + h.lines@.take(i + 1).map_values(
                |l: DiffLine| l.content@,
            ));
            i = i + 1;
        }
        assert(h.lines@.take(h.lines@.len() as int) == h.lines@);
        j = j + 1;
    }
    proof {
        lemma_line_contents_len(hs, hs.len() as int);
    }
    let highlighted = highlight_lines(ss, ts, file.path.as_str(), &all_lines, is_dark);
    proof {
        let flat = line_contents(hs, hs.len() as int);
        if highlighted is Some {
            let h = highlighted->0;
            assert forall|g: int| 0 <= g < h.lines@.len() implies spans_for_line(
                encode_utf8(flat[g]).len(),
                #[trigger] h.lines@[g]@,
            ) by {
                assert(all_lines@.map_values(|t: &str| t@)[g] == all_lines@[g]@);
            }
        }
    }
    let lines = diff_text_lines(file, match &highlighted {
        Some(h) => Some(&h.lines),
        None => None,
    });
    let height = diff_height(all_lines.len());
    RenderedDiff { lines, highlighted, height }
}

} // verus!
