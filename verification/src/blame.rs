//! The text of the blame view: for each line of a file, who changed it last
//! and when, its number and its text, with the background alternating from
//! one commit to the next.
use vstd::prelude::*;
use vstd::utf8::encode_utf8;

use crate::config::{blame_date, format_timestamp};
use crate::diff_view::{pad4, push_pad4};
use crate::models::BlameLine;
use crate::repo::str_eq;
use crate::text::{chars_of, push_all, string_of};
use crate::views::{truncate, truncated};

verus! {

broadcast use vstd::string::group_string_axioms;

/// One line of the blame view.
#[derive(Debug, Clone)]
pub struct BlameRow {
    /// Short id, author and date, each in a column of its own.
    pub info: String,
    /// The line number and a separator.
    pub number: String,
    /// The line's text and a line end.
    pub text: String,
    /// Whether the line has the background of even commit groups.
    pub even: bool,
}

pub open spec fn rows_view(v: Seq<BlameRow>) -> Seq<(Seq<char>, Seq<char>, Seq<char>, bool)> {
    v.map_values(|r: BlameRow| (r.info@, r.number@, r.text@, r.even))
}

/// `s` padded with spaces on the right to `w` characters.
pub open spec fn pad_right(s: Seq<char>, w: nat) -> Seq<char> {
    if s.len() < w {
        s + Seq::new((w - s.len()) as nat, |_i: int| ' ')
    } else {
        s
    }
}

/// The info column of a line: short id, author cut to 16 bytes and date,
/// left-aligned in columns 8, 16 and 12 characters wide.
pub open spec fn blame_info(l: BlameLine) -> Seq<char> {
    pad_right(l.short_id@, 8) + " "@ + pad_right(truncated(l.author@, 16), 16) + " "@ + pad_right(
        blame_date(l.time),
        12,
    ) + " "@
}

/// The author of a line can be cut to 16 bytes between two characters.
pub open spec fn author_fits(l: BlameLine) -> bool {
    encode_utf8(l.author@).len() > 16 ==> vstd::utf8::is_char_boundary(encode_utf8(l.author@), 15)
}

/// The commit group of the first `n` lines: the last commit seen and whether
/// its group is even. A new group starts at each line whose commit differs
/// from the last one seen; lines without a commit stay in the group.
pub open spec fn group(ls: Seq<BlameLine>, n: int) -> (Seq<char>, bool)
    decreases n,
{
    if n <= 0 {
        (Seq::empty(), true)
    } else {
        let (last, even) = group(ls, n - 1);
        let c = ls[n - 1].commit_id@;
        if c != last && c.len() > 0 {
            (c, !even)
        } else {
            (last, even)
        }
    }
}

/// The rows of the first `n` lines.
pub open spec fn blame_rows(ls: Seq<BlameLine>, n: int) -> Seq<(Seq<char>, Seq<char>, Seq<char>, bool)>
    decreases n,
{
    if n <= 0 {
        Seq::empty()
    } else {
        let l = ls[n - 1];
        blame_rows(ls, n - 1).push(
            (blame_info(l), pad4(l.line_no as nat) + " │ "@, l.content@ + "\n"@, group(ls, n).1),
        )
    }
}

fn push_padded(out: &mut Vec<char>, s: &str, w: usize)
    ensures
        final(out)@ == old(out)@ + pad_right(s@, w as nat),
{
    let v = chars_of(s);
    push_all(out, &v);
    let mut k = v.len();
    while k < w
        invariant
            v@ == s@,
            v.len() <= k,
            v.len() < w ==> k <= w,
            v.len() >= w ==> k == v.len(),
            out@ == old(out)@ + s@ + Seq::new((k - v.len()) as nat, |_i: int| ' '),
        decreases w - k,
    {
        out.push(' ');
        assert(Seq::new((k + 1 - v.len()) as nat, |_i: int| ' ') =~= Seq::new(
            (k - v.len()) as nat,
            |_i: int| ' ',
        ).push(' '));
        k = k + 1;
    }
    assert(out@ =~= old(out)@ + pad_right(s@, w as nat));
}

fn info_of(l: &BlameLine) -> (r: Vec<char>)
    requires
        author_fits(*l),
    ensures
        r@ == blame_info(*l),
{
    let mut v: Vec<char> = Vec::new();
    push_padded(&mut v, l.short_id.as_str(), 8);
    push_all(&mut v, &chars_of(" "));
    let author = truncate(l.author.as_str(), 16);
    push_padded(&mut v, author.as_str(), 16);
    push_all(&mut v, &chars_of(" "));
    let date = format_timestamp(l.time);
    push_padded(&mut v, date.as_str(), 12);
    push_all(&mut v, &chars_of(" "));
    v
}

/// The rows of the blame view of a file.
pub fn render_blame(lines: &[BlameLine]) -> (r: Vec<BlameRow>)
    requires
        forall|k: int| 0 <= k < lines@.len() ==> author_fits(#[trigger] lines@[k]),
    ensures
        rows_view(r@) == blame_rows(lines@, lines@.len() as int),
{
    let mut rows: Vec<BlameRow> = Vec::new();
    let mut last = String::new();
    let mut even = true;
    let mut i: usize = 0;
    while i < lines.len()
        invariant
            i <= lines.len(),
            forall|k: int| 0 <= k < lines@.len() ==> author_fits(#[trigger] lines@[k]),
            (last@, even) == group(lines@, i as int),
            rows_view(rows@) == blame_rows(lines@, i as int),
        decreases lines.len() - i,
    {
        let l = &lines[i];
        if !str_eq(l.commit_id.as_str(), last.as_str()) && !l.commit_id.as_str().is_empty() {
            last = l.commit_id.clone();
            even = !even;
        }
        proof {
            assert(lines@[i as int] == *l);
        }
        let info = info_of(l);
        let mut number: Vec<char> = Vec::new();
        push_pad4(&mut number, l.line_no as u64);
        push_all(&mut number, &chars_of(" │ "));
        let mut text = chars_of(l.content.as_str());
        push_all(&mut text, &chars_of("\n"));
        let ghost before = rows_view(rows@);
        rows.push(BlameRow { info: string_of(&info), number: string_of(&number), text: string_of(&text), even });
        assert(rows_view(rows@) =~= before.push((info@, number@, text@, even)));
        i = i + 1;
    }
    rows
}

} // verus!
