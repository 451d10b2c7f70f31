//! Unified-diff patches for staging and unstaging single hunks or selected
//! lines of a hunk, and the hunk-header arithmetic they need.
use vstd::prelude::*;
use vstd::utf8::encode_utf8;

use crate::models::{DiffHunk, DiffLine, DiffLineKind};
use crate::text::{
    chars_of, decimal, is_space, parse_usize, parse_usize_range, push_decimal, push_range, split_words,
    string_of, trim, trim_bounds, trim_end, trim_start, word_end, words, words_from,
};

verus! {

broadcast use vstd::string::group_string_axioms;

/// `b` with a `\n` appended unless it already ends with one.
pub open spec fn with_newline(b: Seq<u8>) -> Seq<u8> {
    if b.len() > 0 && b.last() == 10u8 {
        b
    } else {
        b.push(10u8)
    }
}

/// `--- a/<path>\n+++ b/<path>\n`
pub open spec fn file_header(path: Seq<u8>) -> Seq<u8> {
    seq![45u8, 45u8, 45u8, 32u8, 97u8, 47u8] + path + seq![10u8] + seq![
        43u8,
        43u8,
        43u8,
        32u8,
        98u8,
        47u8,
    ] + path + seq![10u8]
}

/// The prefix byte of a line when a hunk is applied forwards.
pub open spec fn forward_prefix(kind: DiffLineKind) -> u8 {
    match kind {
        DiffLineKind::Addition => 43u8,
        DiffLineKind::Deletion => 45u8,
        DiffLineKind::Context => 32u8,
    }
}

/// The prefix byte of a line when a hunk is applied in reverse.
pub open spec fn reverse_prefix(kind: DiffLineKind) -> u8 {
    match kind {
        DiffLineKind::Addition => 45u8,
        DiffLineKind::Deletion => 43u8,
        DiffLineKind::Context => 32u8,
    }
}

/// The UTF-8 bytes of a line's text.
pub open spec fn content_bytes(line: DiffLine) -> Seq<u8> {
    encode_utf8(line.content@)
}

/// Every line of a hunk, with its prefix, as `(prefix, line index)`.
pub open spec fn all_lines(lines: Seq<DiffLine>, reverse: bool, n: int) -> Seq<(u8, int)>
    decreases n,
{
    if n <= 0 {
        Seq::empty()
    } else {
        let k = lines[n - 1].kind;
        all_lines(lines, reverse, n - 1).push(
            (
                if reverse {
                    reverse_prefix(k)
                } else {
                    forward_prefix(k)
                },
                n - 1,
            ),
        )
    }
}

/// The lines kept when only the lines at `selected` are staged (forwards) or
/// unstaged (`reverse`): an unselected change either vanishes or turns into
/// context, so that it stays as it is.
pub open spec fn picked_lines(lines: Seq<DiffLine>, selected: Seq<usize>, reverse: bool, n: int) -> Seq<
    (u8, int),
>
    decreases n,
{
    if n <= 0 {
        Seq::empty()
    } else {
        let prev = picked_lines(lines, selected, reverse, n - 1);
        let i = n - 1;
        let sel = selected.contains(i as usize);
        match lines[i].kind {
            DiffLineKind::Context => prev.push((32u8, i)),
            DiffLineKind::Addition => if sel {
                prev.push(
                    (
                        if reverse {
                            45u8
                        } else {
                            43u8
                        },
                        i,
                    ),
                )
            } else if reverse {
                prev.push((32u8, i))
            } else {
                prev
            },
            DiffLineKind::Deletion => if sel {
                prev.push(
                    (
                        if reverse {
                            43u8
                        } else {
                            45u8
                        },
                        i,
                    ),
                )
            } else if reverse {
                prev
            } else {
                prev.push((32u8, i))
            },
        }
    }
}

/// The patch lines for `ps`: each prefix, then the line's text ending in `\n`.
pub open spec fn body(lines: Seq<DiffLine>, ps: Seq<(u8, int)>) -> Seq<u8>
    decreases ps.len(),
{
    if ps.len() == 0 {
        Seq::empty()
    } else {
        body(lines, ps.drop_last()) + seq![ps.last().0] + with_newline(
            content_bytes(lines[ps.last().1]),
        )
    }
}

/// How many of `ps` count on the old side (context and deletions).
pub open spec fn old_side(ps: Seq<(u8, int)>) -> nat
    decreases ps.len(),
{
    if ps.len() == 0 {
        0
    } else {
        old_side(ps.drop_last()) + if ps.last().0 == 32u8 || ps.last().0 == 45u8 {
            1nat
        } else {
            0nat
        }
    }
}

/// How many of `ps` count on the new side (context and additions).
pub open spec fn new_side(ps: Seq<(u8, int)>) -> nat
    decreases ps.len(),
{
    if ps.len() == 0 {
        0
    } else {
        new_side(ps.drop_last()) + if ps.last().0 == 32u8 || ps.last().0 == 43u8 {
            1nat
        } else {
            0nat
        }
    }
}

/// ASCII bytes of the decimal rendering of `n`.
pub open spec fn decimal_bytes(n: nat) -> Seq<u8> {
    decimal(n).map_values(|c: char| c as u8)
}

/// `@@ -a,b +c,d @@\n`
pub open spec fn range_header(a: nat, b: nat, c: nat, d: nat) -> Seq<u8> {
    seq![64u8, 64u8, 32u8, 45u8] + decimal_bytes(a) + seq![44u8] + decimal_bytes(b) + seq![
        32u8,
        43u8,
    ] + decimal_bytes(c) + seq![44u8] + decimal_bytes(d) + seq![32u8, 64u8, 64u8, 10u8]
}

/// The index of the first `@@` in `s` at or after `i`.
pub open spec fn find_at_at(s: Seq<char>, i: int) -> Option<int>
    decreases s.len() - i,
{
    if i < 0 || i + 1 >= s.len() {
        None
    } else if s[i] == '@' && s[i + 1] == '@' {
        Some(i)
    } else {
        find_at_at(s, i + 1)
    }
}

/// `replace('+', "~").replace('-', "+").replace('~', "-")`, one character.
pub open spec fn flip_new_char(c: char) -> char {
    if c == '+' || c == '~' {
        '-'
    } else if c == '-' {
        '+'
    } else {
        c
    }
}

/// `replace('-', "~").replace('+', "-").replace('~', "+")`, one character.
pub open spec fn flip_old_char(c: char) -> char {
    if c == '-' || c == '~' {
        '+'
    } else if c == '+' {
        '-'
    } else {
        c
    }
}

/// The sign swap applied to the new-side range (`new_side`) or the old-side one.
pub open spec fn flip_char(c: char, new_side: bool) -> char {
    if new_side {
        flip_new_char(c)
    } else {
        flip_old_char(c)
    }
}

/// A hunk header with its two line ranges swapped:
/// `@@ -a,b +c,d @@ ctx` becomes `@@ -c,d +a,b @@ ctx`. A header of another
/// shape is returned unchanged.
pub open spec fn reversed_header(h: Seq<char>) -> Seq<char> {
    let t = trim(h);
    if t.len() >= 2 && t[0] == '@' && t[1] == '@' {
        let rest = t.subrange(2, t.len() as int);
        match find_at_at(rest, 0) {
            Some(k) => {
                let range = trim(rest.subrange(0, k));
                let ws = words(range);
                if ws.len() == 2 {
                    seq!['@', '@', ' '] + range.subrange(ws[1].0, ws[1].1).map_values(
                        |c: char| flip_char(c, true),
                    ) + seq![' '] + range.subrange(ws[0].0, ws[0].1).map_values(
                        |c: char| flip_char(c, false),
                    ) + seq![' ', '@', '@'] + rest.subrange(k + 2, rest.len() as int)
                } else {
                    h
                }
            },
            None => h,
        }
    } else {
        h
    }
}

/// The index of the first word of `ws` (ranges in `h`) from `i` on that
/// starts with `p`.
pub open spec fn first_word_with(h: Seq<char>, ws: Seq<(int, int)>, p: char, i: int) -> Option<int>
    decreases ws.len() - i,
{
    if i < 0 || i >= ws.len() {
        None
    } else if h[ws[i].0] == p {
        Some(i)
    } else {
        first_word_with(h, ws, p, i + 1)
    }
}

/// The index of the first `,` in `s` at or after `i`, or `s.len()`.
pub open spec fn comma_at(s: Seq<char>, i: int) -> int
    decreases s.len() - i,
{
    if i < 0 || i >= s.len() {
        s.len() as int
    } else if s[i] == ',' {
        i
    } else {
        comma_at(s, i + 1)
    }
}

/// The start line that a hunk header gives for the new side (`is_new`) or
/// the old side: the number after `+` (or `-`) up to any `,`; 1 when there is
/// no such word or its number does not parse.
pub open spec fn hunk_start(h: Seq<char>, is_new: bool) -> nat {
    let p = if is_new {
        '+'
    } else {
        '-'
    };
    let ws = words(h);
    match first_word_with(h, ws, p, 0) {
        Some(w) => {
            let s = h.subrange(ws[w].0 + 1, ws[w].1);
            match parse_usize(s.subrange(0, comma_at(s, 0))) {
                Some(v) => v as nat,
                None => 1,
            }
        },
        None => 1,
    }
}

/// The whole patch that stages one hunk.
pub open spec fn hunk_patch(path: Seq<u8>, hunk: DiffHunk) -> Seq<u8> {
    file_header(path) + with_newline(encode_utf8(hunk.header@)) + body(
        hunk.lines@,
        all_lines(hunk.lines@, false, hunk.lines@.len() as int),
    )
}

/// The whole patch that unstages one hunk.
pub open spec fn reverse_hunk_patch(path: Seq<u8>, hunk: DiffHunk) -> Seq<u8> {
    file_header(path) + with_newline(encode_utf8(reversed_header(hunk.header@))) + body(
        hunk.lines@,
        all_lines(hunk.lines@, true, hunk.lines@.len() as int),
    )
}

/// The whole patch that stages the selected lines of one hunk.
pub open spec fn lines_patch(path: Seq<u8>, hunk: DiffHunk, selected: Seq<usize>) -> Seq<u8> {
    let ps = picked_lines(hunk.lines@, selected, false, hunk.lines@.len() as int);
    file_header(path) + range_header(
        hunk_start(hunk.header@, false),
        old_side(ps),
        hunk_start(hunk.header@, true),
        new_side(ps),
    ) + body(hunk.lines@, ps)
}

/// The whole patch that unstages the selected lines of one hunk.
pub open spec fn reverse_lines_patch(path: Seq<u8>, hunk: DiffHunk, selected: Seq<usize>) -> Seq<
    u8,
> {
    let ps = picked_lines(hunk.lines@, selected, true, hunk.lines@.len() as int);
    file_header(path) + range_header(
        hunk_start(hunk.header@, true),
        old_side(ps),
        hunk_start(hunk.header@, false),
        new_side(ps),
    ) + body(hunk.lines@, ps)
}

fn push_bytes(out: &mut Vec<u8>, b: &[u8])
    ensures
        final(out)@ == old(out)@ + b@,
{
    let mut i: usize = 0;
    while i < b.len()
        invariant
            i <= b.len(),
            out@ == old(out)@ + b@.take(i as int),
        decreases b.len() - i,
    {
        out.push(b[i]);
        assert(b@.take(i + 1) == b@.take(i as int).push(b@[i as int]));
        i = i + 1;
    }
    assert(b@.take(b.len() as int) == b@);
}

/// Appends `b`, then a `\n` unless `b` already ends with one.
fn push_line_bytes(out: &mut Vec<u8>, b: &[u8])
    ensures
        final(out)@ == old(out)@ + with_newline(b@),
{
    push_bytes(out, b);
    if b.len() == 0 || b[b.len() - 1] != 10u8 {
        out.push(10u8);
    }
}

fn push_file_header(out: &mut Vec<u8>, path: &str)
    ensures
        final(out)@ == old(out)@ + file_header(encode_utf8(path@)),
{
    let p = path.as_bytes();
    out.push(45u8);
    out.push(45u8);
    out.push(45u8);
    out.push(32u8);
    out.push(97u8);
    out.push(47u8);
    push_bytes(out, p);
    out.push(10u8);
    out.push(43u8);
    out.push(43u8);
    out.push(43u8);
    out.push(32u8);
    out.push(98u8);
    out.push(47u8);
    push_bytes(out, p);
    out.push(10u8);
}

fn push_decimal_bytes(out: &mut Vec<u8>, n: usize)
    ensures
        final(out)@ == old(out)@ + decimal_bytes(n as nat),
{
    let mut cs: Vec<char> = Vec::new();
    push_decimal(&mut cs, n as u64);
    assert(cs@ == decimal(n as nat));
    let mut i: usize = 0;
    while i < cs.len()
        invariant
            i <= cs.len(),
            cs@ == decimal(n as nat),
            out@ == old(out)@ + decimal_bytes(n as nat).take(i as int),
        decreases cs.len() - i,
    {
        out.push(cs[i] as u8);
        assert(decimal_bytes(n as nat).take(i + 1) == decimal_bytes(n as nat).take(i as int).push(
            cs@[i as int] as u8,
        ));
        i = i + 1;
    }
    assert(decimal_bytes(n as nat).take(cs.len() as int) == decimal_bytes(n as nat));
}

fn push_range_header(out: &mut Vec<u8>, a: usize, b: usize, c: usize, d: usize)
    ensures
        final(out)@ == old(out)@ + range_header(a as nat, b as nat, c as nat, d as nat),
{
    out.push(64u8);
    out.push(64u8);
    out.push(32u8);
    out.push(45u8);
    push_decimal_bytes(out, a);
    out.push(44u8);
    push_decimal_bytes(out, b);
    out.push(32u8);
    out.push(43u8);
    push_decimal_bytes(out, c);
    out.push(44u8);
    push_decimal_bytes(out, d);
    out.push(32u8);
    out.push(64u8);
    out.push(64u8);
    out.push(10u8);
}

/// Appends the patch lines for `ps`.
fn push_body(out: &mut Vec<u8>, lines: &Vec<DiffLine>, ps: &Vec<(u8, usize)>)
    requires
        forall|k: int| 0 <= k < ps@.len() ==> ps@[k].1 < lines@.len(),
    ensures
        final(out)@ == old(out)@ + body(lines@, ps@.map_values(|p: (u8, usize)| (p.0, p.1 as int))),
{
    let ghost view = ps@.map_values(|p: (u8, usize)| (p.0, p.1 as int));
    let mut i: usize = 0;
    while i < ps.len()
        invariant
            i <= ps.len(),
            forall|k: int| 0 <= k < ps@.len() ==> ps@[k].1 < lines@.len(),
            view == ps@.map_values(|p: (u8, usize)| (p.0, p.1 as int)),
            out@ == old(out)@ + body(lines@, view.take(i as int)),
        decreases ps.len() - i,
    {
        let (pre, idx) = ps[i];
        out.push(pre);
        let b = lines[idx].content.as_str().as_bytes();
        push_line_bytes(out, b);
        proof {
            let t = view.take(i + 1);
            assert(t.drop_last() == view.take(i as int));
            assert(t.last() == (pre, idx as int));
        }
        i = i + 1;
    }
    assert(view.take(ps.len() as int) == view);
}

/// Whether `i` occurs in `selected`.
fn is_selected(selected: &[usize], i: usize) -> (b: bool)
    ensures
        b == selected@.contains(i),
{
    let mut k: usize = 0;
    while k < selected.len()
        invariant
            k <= selected.len(),
            forall|j: int| 0 <= j < k ==> selected@[j] != i,
        decreases selected.len() - k,
    {
        if selected[k] == i {
            assert(selected@[k as int] == i);
            return true;
        }
        k = k + 1;
    }
    false
}

/// Builds a unified diff patch for a single hunk (for staging).
pub fn build_hunk_patch(path: &str, hunk: &DiffHunk) -> (r: Vec<u8>)
    ensures
        r@ == hunk_patch(encode_utf8(path@), *hunk),
{
    let mut out: Vec<u8> = Vec::new();
    push_file_header(&mut out, path);
    push_line_bytes(&mut out, hunk.header.as_str().as_bytes());
    let ps = all_line_prefixes(&hunk.lines, false);
    push_body(&mut out, &hunk.lines, &ps);
    out
}

/// Every line of `lines` with its prefix.
fn all_line_prefixes(lines: &Vec<DiffLine>, reverse: bool) -> (ps: Vec<(u8, usize)>)
    ensures
        forall|k: int| 0 <= k < ps@.len() ==> ps@[k].1 < lines@.len(),
        ps@.map_values(|p: (u8, usize)| (p.0, p.1 as int)) == all_lines(
            lines@,
            reverse,
            lines@.len() as int,
        ),
{
    let mut ps: Vec<(u8, usize)> = Vec::new();
    let mut i: usize = 0;
    while i < lines.len()
        invariant
            i <= lines.len(),
            forall|k: int| 0 <= k < ps@.len() ==> ps@[k].1 < i,
            ps@.map_values(|p: (u8, usize)| (p.0, p.1 as int)) == all_lines(
                lines@,
                reverse,
                i as int,
            ),
        decreases lines.len() - i,
    {
        let pre = match lines[i].kind {
            DiffLineKind::Addition => if reverse {
                45u8
            } else {
                43u8
            },
            DiffLineKind::Deletion => if reverse {
                43u8
            } else {
                45u8
            },
            DiffLineKind::Context => 32u8,
        };
        let ghost before = ps@;
        ps.push((pre, i));
        proof {
            assert(ps@.map_values(|p: (u8, usize)| (p.0, p.1 as int)) == before.map_values(
                |p: (u8, usize)| (p.0, p.1 as int),
            ).push((pre, i as int)));
        }
        i = i + 1;
    }
    ps
}

/// Builds a reverse unified diff patch for a single hunk (for unstaging).
pub fn build_reverse_hunk_patch(path: &str, hunk: &DiffHunk) -> (r: Vec<u8>)
    ensures
        r@ == reverse_hunk_patch(encode_utf8(path@), *hunk),
{
    let mut out: Vec<u8> = Vec::new();
    push_file_header(&mut out, path);
    let reversed = reverse_hunk_header(hunk.header.as_str());
    push_line_bytes(&mut out, reversed.as_str().as_bytes());
    let ps = all_line_prefixes(&hunk.lines, true);
    push_body(&mut out, &hunk.lines, &ps);
    out
}

/// Reverses the line ranges of a hunk header:
/// `@@ -a,b +c,d @@` becomes `@@ -c,d +a,b @@`.
pub fn reverse_hunk_header(header: &str) -> (r: String)
    ensures
        r@ == reversed_header(header@),
{
    let v = chars_of(header);
    let (a, b) = trim_bounds(&v, 0, v.len());
    let ghost h = v@;
    let ghost t = trim(h);
    assert(v@.subrange(0, v.len() as int) == h);
    assert(t == v@.subrange(a as int, b as int));
    if b - a >= 2 && v[a] == '@' && v[a + 1] == '@' {
        let ghost rest = t.subrange(2, t.len() as int);
        proof {
            assert(t[0] == v@[a as int]);
            assert(t[1] == v@[a + 1]);
        }
        let rs = a + 2;
        let mut k = rs;
        let mut found = false;
        while !found && b - k >= 2
            invariant
                a + 2 == rs <= k <= b <= v.len(),
                t == v@.subrange(a as int, b as int),
                rest == t.subrange(2, t.len() as int),
                found ==> k + 1 < b && v@[k as int] == '@' && v@[k + 1] == '@',
                find_at_at(rest, 0) == find_at_at(rest, k - rs),
            decreases b - k + if found {
                0int
            } else {
                1int
            },
        {
            if v[k] == '@' && v[k + 1] == '@' {
                found = true;
            } else {
                proof {
                    assert(rest[k - rs] == v@[k as int]);
                    assert(rest[k - rs + 1] == v@[k + 1]);
                }
                k = k + 1;
            }
        }
        proof {
            if found {
                assert(rest[k - rs] == v@[k as int]);
                assert(rest[k - rs + 1] == v@[k + 1]);
            } else {
                assert(find_at_at(rest, k - rs) is None);
            }
        }
        if found {
            let ghost kk = k - rs;
            assert(find_at_at(rest, 0) == Some(kk));
            let mut range_chars: Vec<char> = Vec::new();
            let (c, d) = trim_bounds(&v, rs, k);
            push_range(&mut range_chars, &v, c, d);
            let ghost range = trim(rest.subrange(0, kk));
            proof {
                assert(rest.subrange(0, kk) == v@.subrange(rs as int, k as int));
                assert(range_chars@ == range);
            }
            let ws = split_words(&range_chars);
            if ws.len() == 2 {
                let ghost w = words(range);
                let mut out: Vec<char> = Vec::new();
                out.push('@');
                out.push('@');
                out.push(' ');
                let (p1, q1) = ws[1];
                push_flipped(&mut out, &range_chars, p1, q1, true);
                out.push(' ');
                let (p0, q0) = ws[0];
                push_flipped(&mut out, &range_chars, p0, q0, false);
                out.push(' ');
                out.push('@');
                out.push('@');
                push_range(&mut out, &v, k + 2, b);
                proof {
                    assert(rest.subrange(kk + 2, rest.len() as int) == v@.subrange(
                        k + 2,
                        b as int,
                    ));
                    assert(w[1].0 == p1 as int && w[1].1 == q1 as int);
                    assert(w[0].0 == p0 as int && w[0].1 == q0 as int);
                    assert(out@ == seq!['@', '@', ' '] + range.subrange(w[1].0, w[1].1).map_values(
                        |c: char| flip_char(c, true),
                    ) + seq![' '] + range.subrange(w[0].0, w[0].1).map_values(
                        |c: char| flip_char(c, false),
                    ) + seq![' ', '@', '@'] + rest.subrange(kk + 2, rest.len() as int));
                }
                return string_of(&out);
            }
        }
    }
    header.to_owned()
}

fn flip(c: char, new_side: bool) -> (d: char)
    ensures
        d == flip_char(c, new_side),
{
    if new_side {
        if c == '+' || c == '~' {
            '-'
        } else if c == '-' {
            '+'
        } else {
            c
        }
    } else {
        if c == '-' || c == '~' {
            '+'
        } else if c == '+' {
            '-'
        } else {
            c
        }
    }
}

/// Appends `t@[lo..hi]` with the signs swapped as `reversed_header` swaps them.
fn push_flipped(out: &mut Vec<char>, t: &Vec<char>, lo: usize, hi: usize, new_side: bool)
    requires
        lo <= hi <= t.len(),
    ensures
        final(out)@ == old(out)@ + t@.subrange(lo as int, hi as int).map_values(
            |c: char| flip_char(c, new_side),
        ),
{
    let mut i = lo;
    while i < hi
        invariant
            lo <= i <= hi <= t.len(),
            out@ == old(out)@ + t@.subrange(lo as int, i as int).map_values(
                |c: char| flip_char(c, new_side),
            ),
        decreases hi - i,
    {
        let c = t[i];
        out.push(flip(c, new_side));
        assert(t@.subrange(lo as int, i + 1).map_values(|c: char| flip_char(c, new_side))
            == t@.subrange(lo as int, i as int).map_values(|c: char| flip_char(c, new_side)).push(
            flip_char(c, new_side),
        ));
        i = i + 1;
    }
}

/// Parses the start line number from a hunk header: the number after `+`
/// (`is_new`) or `-`, or 1 when there is none.
pub fn parse_hunk_start(header: &str, is_new: bool) -> (r: usize)
    ensures
        r as nat == hunk_start(header@, is_new),
{
    let v = chars_of(header);
    let ws = split_words(&v);
    let p = if is_new {
        '+'
    } else {
        '-'
    };
    let ghost w = words(v@);
    let mut i: usize = 0;
    while i < ws.len()
        invariant
            i <= ws.len(),
            ws@.len() == w.len(),
            v@ == header@,
            w == words(v@),
            forall|k: int|
                0 <= k < ws@.len() ==> ws@[k].0 as int == w[k].0 && ws@[k].1 as int == w[k].1,
            forall|k: int| #![trigger ws@[k]] 0 <= k < ws@.len() ==> ws@[k].0 < ws@[k].1 && ws@[k].1 <= v@.len(),
            first_word_with(v@, w, p, 0) == first_word_with(v@, w, p, i as int),
            p == (if is_new {
                '+'
            } else {
                '-'
            }),
        decreases ws.len() - i,
    {
        let (lo, hi) = ws[i];
        if v[lo] == p {
            let start = lo + 1;
            let ghost sv = v@.subrange(start as int, hi as int);
            let mut e = start;
            while e < hi && v[e] != ','
                invariant
                    start <= e <= hi <= v.len(),
                    sv == v@.subrange(start as int, hi as int),
                    comma_at(sv, 0) == comma_at(sv, e - start),
                decreases hi - e,
            {
                proof {
                    assert(sv[e - start] == v@[e as int]);
                }
                e = e + 1;
            }
            proof {
                if e < hi {
                    assert(sv[e - start] == v@[e as int]);
                }
                assert(comma_at(sv, 0) == e - start);
                assert(sv.subrange(0, e - start) == v@.subrange(start as int, e as int));
                assert(ws@[i as int].0 as int == w[i as int].0);
                assert(ws@[i as int].1 as int == w[i as int].1);
                assert(first_word_with(v@, w, p, i as int) == Some(i as int));
                assert(sv == header@.subrange(w[i as int].0 + 1, w[i as int].1));
            }
            let parsed = parse_usize_range(&v, start, e);
            proof {
                assert(hunk_start(header@, is_new) == match parse_usize(sv.subrange(0, comma_at(sv, 0))) {
                    Some(n) => n as nat,
                    None => 1nat,
                });
            }
            return match parsed {
                Some(n) => n,
                None => 1,
            };
        }
        i = i + 1;
    }
    1
}

/// The kept lines, with prefixes, when staging (or, `reverse`, unstaging)
/// only the lines at `selected`.
fn picked_line_prefixes(lines: &Vec<DiffLine>, selected: &[usize], reverse: bool) -> (ps: Vec<
    (u8, usize),
>)
    ensures
        forall|k: int| 0 <= k < ps@.len() ==> ps@[k].1 < lines@.len(),
        ps@.map_values(|p: (u8, usize)| (p.0, p.1 as int)) == picked_lines(
            lines@,
            selected@,
            reverse,
            lines@.len() as int,
        ),
{
    let mut ps: Vec<(u8, usize)> = Vec::new();
    let mut i: usize = 0;
    while i < lines.len()
        invariant
            i <= lines.len(),
            forall|k: int| 0 <= k < ps@.len() ==> ps@[k].1 < i,
            ps@.map_values(|p: (u8, usize)| (p.0, p.1 as int)) == picked_lines(
                lines@,
                selected@,
                reverse,
                i as int,
            ),
        decreases lines.len() - i,
    {
        let sel = is_selected(selected, i);
        let ghost before = ps@;
        let ghost bv = before.map_values(|p: (u8, usize)| (p.0, p.1 as int));
        match lines[i].kind {
            DiffLineKind::Context => {
                ps.push((32u8, i));
            },
            DiffLineKind::Addition => {
                if sel {
                    ps.push(
                        (
                            if reverse {
                                45u8
                            } else {
                                43u8
                            },
                            i,
                        ),
                    );
                } else if reverse {
                    ps.push((32u8, i));
                }
            },
            DiffLineKind::Deletion => {
                if sel {
                    ps.push(
                        (
                            if reverse {
                                43u8
                            } else {
                                45u8
                            },
                            i,
                        ),
                    );
                } else if !reverse {
                    ps.push((32u8, i));
                }
            },
        }
        proof {
            if ps@.len() > before.len() {
                assert(ps@.map_values(|p: (u8, usize)| (p.0, p.1 as int)) == bv.push(
                    (ps@.last().0, i as int),
                ));
            } else {
                assert(ps@ == before);
            }
        }
        i = i + 1;
    }
    ps
}

/// Counts the old-side and new-side lines of `ps`.
fn side_counts(ps: &Vec<(u8, usize)>) -> (r: (usize, usize))
    ensures
        r.0 as nat == old_side(ps@.map_values(|p: (u8, usize)| (p.0, p.1 as int))),
        r.1 as nat == new_side(ps@.map_values(|p: (u8, usize)| (p.0, p.1 as int))),
{
    let ghost view = ps@.map_values(|p: (u8, usize)| (p.0, p.1 as int));
    let mut old_count: usize = 0;
    let mut new_count: usize = 0;
    let mut i: usize = 0;
    while i < ps.len()
        invariant
            i <= ps.len(),
            view == ps@.map_values(|p: (u8, usize)| (p.0, p.1 as int)),
            old_count as nat == old_side(view.take(i as int)),
            new_count as nat == new_side(view.take(i as int)),
            old_count <= i,
            new_count <= i,
        decreases ps.len() - i,
    {
        let c = ps[i].0;
        proof {
            let t = view.take(i + 1);
            assert(t.drop_last() == view.take(i as int));
            assert(t.last().0 == c);
        }
        if c == 32u8 || c == 45u8 {
            old_count = old_count + 1;
        }
        if c == 32u8 || c == 43u8 {
            new_count = new_count + 1;
        }
        i = i + 1;
    }
    assert(view.take(ps.len() as int) == view);
    (old_count, new_count)
}

/// Builds a partial patch for the selected lines within a hunk (for
/// staging). `selected` holds indices into `hunk.lines`; unselected additions
/// are left out and unselected deletions become context.
pub fn build_lines_patch(path: &str, hunk: &DiffHunk, selected: &[usize]) -> (r: Vec<u8>)
    ensures
        r@ == lines_patch(encode_utf8(path@), *hunk, selected@),
{
    let ps = picked_line_prefixes(&hunk.lines, selected, false);
    let (old_count, new_count) = side_counts(&ps);
    let old_start = parse_hunk_start(hunk.header.as_str(), false);
    let new_start = parse_hunk_start(hunk.header.as_str(), true);
    let mut out: Vec<u8> = Vec::new();
    push_file_header(&mut out, path);
    push_range_header(&mut out, old_start, old_count, new_start, new_count);
    push_body(&mut out, &hunk.lines, &ps);
    out
}

/// Builds a reverse partial patch for the selected lines within a hunk (for
/// unstaging). Unselected additions become context and unselected deletions
/// are left out.
pub fn build_reverse_lines_patch(path: &str, hunk: &DiffHunk, selected: &[usize]) -> (r: Vec<u8>)
    ensures
        r@ == reverse_lines_patch(encode_utf8(path@), *hunk, selected@),
{
    let ps = picked_line_prefixes(&hunk.lines, selected, true);
    let (old_count, new_count) = side_counts(&ps);
    let new_start = parse_hunk_start(hunk.header.as_str(), true);
    let old_start = parse_hunk_start(hunk.header.as_str(), false);
    let mut out: Vec<u8> = Vec::new();
    push_file_header(&mut out, path);
    push_range_header(&mut out, new_start, old_count, old_start, new_count);
    push_body(&mut out, &hunk.lines, &ps);
    out
}


// ---------------------------------------------------------------------------
// What the patches say about the two sides of a change
// ---------------------------------------------------------------------------

/// The texts of the lines that `ps` puts on one side of the change: context
/// and deletions on the old side, context and additions on the new side
/// (`new`).
pub open spec fn side_text(lines: Seq<DiffLine>, ps: Seq<(u8, int)>, new: bool) -> Seq<Seq<char>>
    decreases ps.len(),
{
    if ps.len() == 0 {
        Seq::empty()
    } else {
        let prev = side_text(lines, ps.drop_last(), new);
        let p = ps.last().0;
        let change = if new {
            43u8
        } else {
            45u8
        };
        if p == 32u8 || p == change {
            prev.push(lines[ps.last().1].content@)
        } else {
            prev
        }
    }
}

/// Unstaging a hunk undoes staging it: the patch that unstages a hunk turns
/// the new side of the patch that stages it back into its old side.
pub proof fn law_unstage_hunk_reverses_stage(lines: Seq<DiffLine>, n: int)
    requires
        0 <= n <= lines.len(),
    ensures
        side_text(lines, all_lines(lines, true, n), false) == side_text(
            lines,
            all_lines(lines, false, n),
            true,
        ),
        side_text(lines, all_lines(lines, true, n), true) == side_text(
            lines,
            all_lines(lines, false, n),
            false,
        ),
    decreases n,
{
    if n > 0 {
        law_unstage_hunk_reverses_stage(lines, n - 1);
        assert(all_lines(lines, true, n).drop_last() == all_lines(lines, true, n - 1));
        assert(all_lines(lines, false, n).drop_last() == all_lines(lines, false, n - 1));
    }
}

/// Selecting every line of a hunk stages (or unstages) the whole hunk: the
/// lines patch then carries exactly the lines of the hunk patch.
pub proof fn law_all_lines_selected_is_whole_hunk(
    lines: Seq<DiffLine>,
    selected: Seq<usize>,
    reverse: bool,
    n: int,
)
    requires
        0 <= n <= lines.len(),
        forall|i: int| 0 <= i < n ==> #[trigger] selected.contains(i as usize),
    ensures
        picked_lines(lines, selected, reverse, n) == all_lines(lines, reverse, n),
        body(lines, picked_lines(lines, selected, reverse, n)) == body(
            lines,
            all_lines(lines, reverse, n),
        ),
    decreases n,
{
    if n > 0 {
        law_all_lines_selected_is_whole_hunk(lines, selected, reverse, n - 1);
        assert(selected.contains((n - 1) as usize));
    }
}

/// With no line of a hunk selected, a lines patch changes nothing: its old
/// side and its new side are the same lines.
pub proof fn law_nothing_selected_changes_nothing(
    lines: Seq<DiffLine>,
    selected: Seq<usize>,
    reverse: bool,
    n: int,
)
    requires
        0 <= n <= lines.len(),
        forall|i: int| 0 <= i < n ==> !#[trigger] selected.contains(i as usize),
    ensures
        side_text(lines, picked_lines(lines, selected, reverse, n), false) == side_text(
            lines,
            picked_lines(lines, selected, reverse, n),
            true,
        ),
        forall|k: int|
            0 <= k < picked_lines(lines, selected, reverse, n).len() ==> (#[trigger] picked_lines(
                lines,
                selected,
                reverse,
                n,
            )[k]).0 == 32u8,
    decreases n,
{
    if n > 0 {
        law_nothing_selected_changes_nothing(lines, selected, reverse, n - 1);
        assert(!selected.contains((n - 1) as usize));
        let ps = picked_lines(lines, selected, reverse, n);
        let prev = picked_lines(lines, selected, reverse, n - 1);
        if ps.len() > prev.len() {
            assert(ps.drop_last() == prev);
        } else {
            assert(ps == prev);
        }
    }
}


/// The texts of the first `n` lines of a hunk whose kind is not `skip`, in
/// order: with `skip` the addition kind, the hunk's old side (context and
/// deletions); with the deletion kind, its new side.
pub open spec fn lines_but(lines: Seq<DiffLine>, skip: DiffLineKind, n: int) -> Seq<Seq<char>>
    decreases n,
{
    if n <= 0 {
        Seq::empty()
    } else if lines[n - 1].kind != skip {
        lines_but(lines, skip, n - 1).push(lines[n - 1].content@)
    } else {
        lines_but(lines, skip, n - 1)
    }
}

/// The texts of the first `n` lines of a hunk after applying only the
/// selected changes to the side that does not hold `applied` lines yet:
/// context stays, a selected `applied` line comes in, an unselected
/// `removed` line stays, and the rest is left out.
pub open spec fn after_selected(
    lines: Seq<DiffLine>,
    selected: Seq<usize>,
    applied: DiffLineKind,
    removed: DiffLineKind,
    n: int,
) -> Seq<Seq<char>>
    decreases n,
{
    if n <= 0 {
        Seq::empty()
    } else {
        let prev = after_selected(lines, selected, applied, removed, n - 1);
        let l = lines[n - 1];
        let sel = selected.contains((n - 1) as usize);
        if l.kind == DiffLineKind::Context || (l.kind == applied && sel) || (l.kind == removed && !sel) {
            prev.push(l.content@)
        } else {
            prev
        }
    }
}

/// Staging the selected lines of a hunk (forwards) gives a patch that
/// applies to the index and changes only what was selected: its old side is
/// exactly the hunk's old side (its context and deletions, so no unselected
/// addition shows up there), and its new side is that old side with the
/// selected deletions taken out and the selected additions put in. Every
/// addition in the patch is a selected one.
///
/// Unstaging them (`reverse`) works the other way round: the patch's old
/// side is the hunk's new side (context and additions), and its new side
/// takes the selected additions out and puts the selected deletions back.
/// Every deletion in that patch is a selected one.
pub proof fn law_selected_lines_patch_sides(lines: Seq<DiffLine>, selected: Seq<usize>, n: int)
    requires
        0 <= n <= lines.len(),
    ensures
        side_text(lines, picked_lines(lines, selected, false, n), false) == lines_but(
            lines,
            DiffLineKind::Addition,
            n,
        ),
        side_text(lines, picked_lines(lines, selected, false, n), true) == after_selected(
            lines,
            selected,
            DiffLineKind::Addition,
            DiffLineKind::Deletion,
            n,
        ),
        side_text(lines, picked_lines(lines, selected, true, n), false) == lines_but(
            lines,
            DiffLineKind::Deletion,
            n,
        ),
        side_text(lines, picked_lines(lines, selected, true, n), true) == after_selected(
            lines,
            selected,
            DiffLineKind::Deletion,
            DiffLineKind::Addition,
            n,
        ),
        forall|j: int|
            0 <= j < picked_lines(lines, selected, false, n).len() ==> {
                let (p, i) = #[trigger] picked_lines(lines, selected, false, n)[j];
                &&& 0 <= i < n
                &&& lines[i].kind == DiffLineKind::Addition ==> p == 43u8 && selected.contains(i as usize)
            },
        forall|j: int|
            0 <= j < picked_lines(lines, selected, true, n).len() ==> {
                let (p, i) = #[trigger] picked_lines(lines, selected, true, n)[j];
                &&& 0 <= i < n
                &&& lines[i].kind == DiffLineKind::Deletion ==> p == 43u8 && selected.contains(i as usize)
            },
    decreases n,
{
    if n > 0 {
        law_selected_lines_patch_sides(lines, selected, n - 1);
        let f = picked_lines(lines, selected, false, n);
        let fp = picked_lines(lines, selected, false, n - 1);
        let r = picked_lines(lines, selected, true, n);
        let rp = picked_lines(lines, selected, true, n - 1);
        if f.len() > fp.len() {
            assert(f.drop_last() == fp);
        } else {
            assert(f == fp);
        }
        if r.len() > rp.len() {
            assert(r.drop_last() == rp);
        } else {
            assert(r == rp);
        }
        assert forall|j: int| 0 <= j < f.len() implies {
            let (p, i) = #[trigger] f[j];
            &&& 0 <= i < n
            &&& lines[i].kind == DiffLineKind::Addition ==> p == 43u8 && selected.contains(i as usize)
        } by {
            if j < fp.len() {
                assert(f[j] == fp[j]);
            }
        }
        assert forall|j: int| 0 <= j < r.len() implies {
            let (p, i) = #[trigger] r[j];
            &&& 0 <= i < n
            &&& lines[i].kind == DiffLineKind::Deletion ==> p == 43u8 && selected.contains(i as usize)
        } by {
            if j < rp.len() {
                assert(r[j] == rp[j]);
            }
        }
    }
}

/// Staging a whole hunk gives a patch whose old side is the hunk's old side
/// (context and deletions) and whose new side is the hunk's new side
/// (context and additions); unstaging it gives the patch with the two sides
/// the other way round.
pub proof fn law_hunk_patch_sides(lines: Seq<DiffLine>, n: int)
    requires
        0 <= n <= lines.len(),
    ensures
        side_text(lines, all_lines(lines, false, n), false) == lines_but(lines, DiffLineKind::Addition, n),
        side_text(lines, all_lines(lines, false, n), true) == lines_but(lines, DiffLineKind::Deletion, n),
        side_text(lines, all_lines(lines, true, n), false) == lines_but(lines, DiffLineKind::Deletion, n),
        side_text(lines, all_lines(lines, true, n), true) == lines_but(lines, DiffLineKind::Addition, n),
    decreases n,
{
    if n > 0 {
        law_hunk_patch_sides(lines, n - 1);
        assert(all_lines(lines, true, n).drop_last() == all_lines(lines, true, n - 1));
        assert(all_lines(lines, false, n).drop_last() == all_lines(lines, false, n - 1));
    }
}

// ---------------------------------------------------------------------------
// Reversing a hunk header
// ---------------------------------------------------------------------------

/// A part of a hunk range (`12,3`): no whitespace, no sign and no `@`.
pub open spec fn plain_range(s: Seq<char>) -> bool {
    forall|k: int|
        #![trigger s[k]]
        0 <= k < s.len() ==> !is_space(s[k]) && s[k] != '+' && s[k] != '-' && s[k] != '~' && s[k] != '@'
}

/// `@@ -<old> +<new> @@<rest>`
pub open spec fn ranges_header(old: Seq<char>, new: Seq<char>, rest: Seq<char>) -> Seq<char> {
    "@@ -"@ + old + " +"@ + new + " @@"@ + rest
}

proof fn lemma_trim_end_append(p: Seq<char>, r: Seq<char>)
    requires
        p.len() > 0,
        !is_space(p.last()),
    ensures
        trim_end(p + r) == p + trim_end(r),
    decreases r.len(),
{
    if r.len() > 0 {
        assert((p + r).last() == r.last());
        if is_space(r.last()) {
            assert((p + r).drop_last() == p + r.drop_last());
            lemma_trim_end_append(p, r.drop_last());
        }
    } else {
        assert(p + r == p);
        assert((p + r).last() == p.last());
    }
}

proof fn lemma_find_at_at_skip(s: Seq<char>, i: int, k: int)
    requires
        0 <= i <= k,
        k + 1 < s.len(),
        forall|j: int| i <= j < k ==> s[j] != '@',
        s[k] == '@',
        s[k + 1] == '@',
    ensures
        find_at_at(s, i) == Some(k),
    decreases k - i,
{
    if i < k {
        lemma_find_at_at_skip(s, i + 1, k);
    }
}

proof fn lemma_word_end_at(s: Seq<char>, i: int, j: int)
    requires
        0 <= i <= j <= s.len(),
        forall|t: int| i <= t < j ==> !is_space(#[trigger] s[t]),
        j == s.len() || is_space(s[j]),
    ensures
        word_end(s, i) == j,
    decreases j - i,
{
    if i < j {
        lemma_word_end_at(s, i + 1, j);
    }
}

proof fn lemma_flip_sign(x: Seq<char>, sign: char, new_side: bool)
    requires
        plain_range(x),
    ensures
        (seq![sign] + x).map_values(|c: char| flip_char(c, new_side)) == seq![flip_char(sign, new_side)] + x,
{
    let l = (seq![sign] + x).map_values(|c: char| flip_char(c, new_side));
    let r = seq![flip_char(sign, new_side)] + x;
    assert forall|k: int| 0 <= k < l.len() implies l[k] == r[k] by {
        if k > 0 {
            assert((seq![sign] + x)[k] == x[k - 1]);
            assert(x[k - 1] != '+' && x[k - 1] != '-' && x[k - 1] != '~');
        }
    }
    assert(l =~= r);
}


/// The two ranges of `ranges_header(old, new, _)`, with the space between
/// them: `-<old> +<new>`.
pub open spec fn ranges_part(old: Seq<char>, new: Seq<char>) -> Seq<char> {
    seq!['-'] + old + seq![' ', '+'] + new
}

/// The header trimmed, its `@@` ranges found, and what follows them.
#[verifier::spinoff_prover]
proof fn lemma_header_split(old: Seq<char>, new: Seq<char>, rest: Seq<char>)
    requires
        plain_range(old),
        plain_range(new),
    ensures
        ({
            let t = trim(ranges_header(old, new, rest));
            let r2 = t.subrange(2, t.len() as int);
            let k: int = old.len() + new.len() + 5int;
            &&& t.len() >= 2 && t[0] == '@' && t[1] == '@'
            &&& find_at_at(r2, 0) == Some(k)
            &&& r2.subrange(0, k) == seq![' '] + ranges_part(old, new) + seq![' ']
            &&& r2.subrange(k + 2, r2.len() as int) == trim_end(rest)
        }),
{
    reveal_strlit("@@ -");
    reveal_strlit(" +");
    reveal_strlit(" @@");
    let h = ranges_header(old, new, rest);
    let p = "@@ -"@ + old + " +"@ + new + " @@"@;
    assert(h == p + rest);
    assert(p.last() == '@');
    lemma_trim_end_append(p, rest);
    assert(h[0] == '@');
    assert(trim_start(h) == h);
    let te = trim_end(rest);
    let t = trim(h);
    assert(t == p + te);
    let r2 = t.subrange(2, t.len() as int);
    let k: int = old.len() + new.len() + 5int;
    let inner = seq![' ', '-'] + old + seq![' ', '+'] + new + seq![' '];
    assert(r2 =~= inner + seq!['@', '@'] + te);
    assert forall|j: int| 0 <= j < k implies r2[j] != '@' by {
        assert(r2[j] == inner[j]);
        if 2 <= j < 2 + old.len() {
            assert(inner[j] == old[j - 2]);
        } else if 4 + old.len() <= j < 4 + old.len() + new.len() {
            assert(inner[j] == new[j - 4 - old.len()]);
        }
    }
    lemma_find_at_at_skip(r2, 0, k);
    assert(r2.subrange(0, k) =~= seq![' '] + ranges_part(old, new) + seq![' ']);
    assert(r2.subrange(k + 2, r2.len() as int) =~= te);
}

/// Trimming the spaces round the ranges.
proof fn lemma_ranges_trim(old: Seq<char>, new: Seq<char>)
    requires
        plain_range(old),
        plain_range(new),
    ensures
        trim(seq![' '] + ranges_part(old, new) + seq![' ']) == ranges_part(old, new),
{
    let range = ranges_part(old, new);
    let inner = seq![' '] + range + seq![' '];
    assert(inner.drop_first() =~= range.push(' '));
    assert(is_space(inner[0]));
    assert(!is_space(inner.drop_first()[0]));
    assert(trim_start(inner.drop_first()) == inner.drop_first());
    assert(trim_start(inner) == range.push(' '));
    assert(range.push(' ').drop_last() =~= range);
    if new.len() > 0 {
        assert(range.last() == new.last());
    } else {
        assert(range.last() == '+');
    }
    assert(trim_end(range) == range);
}

/// The words of the ranges: `-<old>` and `+<new>`.
proof fn lemma_ranges_words(old: Seq<char>, new: Seq<char>)
    requires
        plain_range(old),
        plain_range(new),
    ensures
        ({
            let range = ranges_part(old, new);
            &&& words(range) == seq![(0int, old.len() + 1int), (old.len() + 2int, range.len() as int)]
            &&& range.subrange(0, old.len() + 1int) == seq!['-'] + old
            &&& range.subrange(old.len() + 2int, range.len() as int) == seq!['+'] + new
        }),
{
    let range = ranges_part(old, new);
    let a: int = old.len() + 1int;
    let b: int = old.len() + 2int;
    assert forall|j: int| 1 <= j < a implies !is_space(#[trigger] range[j]) by {
        assert(range[j] == old[j - 1]);
    }
    assert(is_space(range[a]));
    lemma_word_end_at(range, 1, a);
    assert forall|j: int| b + 1 <= j < range.len() implies !is_space(#[trigger] range[j]) by {
        assert(range[j] == new[j - b - 1]);
    }
    lemma_word_end_at(range, b + 1, range.len() as int);
    assert(words_from(range, range.len() as int) == Seq::<(int, int)>::empty());
    assert(words_from(range, b) == seq![(b, range.len() as int)]);
    assert(words_from(range, a) == words_from(range, b));
    assert(words(range) =~= seq![(0int, a), (b, range.len() as int)]);
    assert(range.subrange(0, a) =~= seq!['-'] + old);
    assert(range.subrange(b, range.len() as int) =~= seq!['+'] + new);
}

/// Reversing a hunk header swaps its two ranges: `@@ -<old> +<new> @@<rest>`
/// becomes `@@ -<new> +<old> @@<rest>`, without the whitespace that ends
/// the header.
#[verifier::spinoff_prover]
pub proof fn law_reversed_header_swaps_ranges(old: Seq<char>, new: Seq<char>, rest: Seq<char>)
    requires
        plain_range(old),
        plain_range(new),
    ensures
        reversed_header(ranges_header(old, new, rest)) == ranges_header(new, old, trim_end(rest)),
{
    reveal_strlit("@@ -");
    reveal_strlit(" +");
    reveal_strlit(" @@");
    lemma_header_split(old, new, rest);
    lemma_ranges_trim(old, new);
    lemma_ranges_words(old, new);
    lemma_flip_sign(old, '-', false);
    lemma_flip_sign(new, '+', true);
    let h = ranges_header(old, new, rest);
    let range = ranges_part(old, new);
    let ws = words(range);
    assert(ws[0] == (0int, old.len() + 1int));
    assert(ws[1] == (old.len() + 2int, range.len() as int));
    assert(reversed_header(h) =~= ranges_header(new, old, trim_end(rest)));
}

} // verus!
