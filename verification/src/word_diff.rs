//! Cheap intra-line word-level diff used to highlight which parts of a
//! deletion/addition pair actually changed. Operates on byte offsets within
//! each line.
use vstd::prelude::*;
use vstd::utf8::encode_utf8;

verus! {

broadcast use vstd::string::group_string_axioms;

/// A half-open range `start..end` of byte offsets.
#[derive(Debug, Clone, Copy, PartialEq, Eq, Structural)]
pub struct ByteRange {
    pub start: usize,
    pub end: usize,
}

/// The changed parts of a pair of lines.
#[derive(Debug, Clone)]
pub struct WordDiff {
    /// Byte ranges within `old` that were removed.
    pub deleted: Vec<ByteRange>,
    /// Byte ranges within `new` that were inserted.
    pub inserted: Vec<ByteRange>,
}

/// The most tokens a line may have for the diff to be computed.
pub const MAX_TOKENS: usize = 256;

// ---------------------------------------------------------------------------
// Tokens
// ---------------------------------------------------------------------------

/// ASCII whitespace as `u8::is_ascii_whitespace` defines it.
pub open spec fn is_ws_byte(x: u8) -> bool {
    x == 32u8 || x == 9u8 || x == 10u8 || x == 12u8 || x == 13u8
}

/// ASCII letters, digits and `_`.
pub open spec fn is_word_byte(x: u8) -> bool {
    (48u8 <= x <= 57u8) || (65u8 <= x <= 90u8) || (97u8 <= x <= 122u8) || x == 95u8
}

/// The length of the UTF-8 sequence that a byte starts; 1 for a byte that
/// cannot start one.
pub open spec fn char_len(x: u8) -> int {
    if x < 0x80u8 {
        1
    } else if x < 0xC0u8 {
        1
    } else if x < 0xE0u8 {
        2
    } else if x < 0xF0u8 {
        3
    } else {
        4
    }
}

/// The first index at or after `i` whose byte is not whitespace (`ws`) or
/// not a word byte (`!ws`).
pub open spec fn run_end(b: Seq<u8>, i: int, ws: bool) -> int
    decreases b.len() - i,
{
    if i < 0 || i >= b.len() {
        i
    } else if (ws && is_ws_byte(b[i])) || (!ws && is_word_byte(b[i])) {
        run_end(b, i + 1, ws)
    } else {
        i
    }
}

/// Where the token that starts at `i` ends: a run of whitespace, a run of
/// word bytes, one UTF-8 sequence, or one other byte.
pub open spec fn token_end(b: Seq<u8>, i: int) -> int {
    let x = b[i];
    if is_ws_byte(x) {
        run_end(b, i, true)
    } else if is_word_byte(x) {
        run_end(b, i, false)
    } else if x >= 0x80u8 {
        i + if char_len(x) <= b.len() - i {
            char_len(x)
        } else {
            b.len() - i
        }
    } else {
        i + 1
    }
}

/// The `(start, end)` ranges of the tokens of `b` from `i` on.
pub open spec fn tokens_from(b: Seq<u8>, i: int) -> Seq<(int, int)>
    decreases b.len() - i,
{
    if i < 0 || i >= b.len() {
        Seq::empty()
    } else {
        let e = token_end(b, i);
        if e <= i || e > b.len() {
            Seq::empty()
        } else {
            seq![(i, e)] + tokens_from(b, e)
        }
    }
}

/// The tokens of a line: runs of word characters, single other characters,
/// and runs of whitespace, as byte ranges that cover the line in order.
pub open spec fn tokens(b: Seq<u8>) -> Seq<(int, int)> {
    tokens_from(b, 0)
}

proof fn lemma_run_end(b: Seq<u8>, i: int, ws: bool)
    requires
        0 <= i <= b.len(),
    ensures
        i <= run_end(b, i, ws) <= b.len(),
    decreases b.len() - i,
{
    if i < b.len() && ((ws && is_ws_byte(b[i])) || (!ws && is_word_byte(b[i]))) {
        lemma_run_end(b, i + 1, ws);
    }
}

proof fn lemma_token_end(b: Seq<u8>, i: int)
    requires
        0 <= i < b.len(),
    ensures
        i < token_end(b, i) <= b.len(),
{
    let x = b[i];
    if is_ws_byte(x) {
        lemma_run_end(b, i + 1, true);
    } else if is_word_byte(x) {
        lemma_run_end(b, i + 1, false);
    }
}

/// Tokens from `i` cover `b[i..]` contiguously: each is non-empty, the first
/// starts at `i`, each starts where the one before ends, and the last ends at
/// the end of `b`.
pub proof fn lemma_tokens_from_shape(b: Seq<u8>, i: int)
    requires
        0 <= i <= b.len(),
    ensures
        ({
            let ts = tokens_from(b, i);
            &&& forall|k: int| #![trigger ts[k]] 0 <= k < ts.len() ==> i <= ts[k].0 < ts[k].1 <= b.len()
            &&& forall|k: int|
                #![trigger ts[k]]
                0 <= k < ts.len() - 1 ==> ts[k].1 == ts[k + 1].0
            &&& ts.len() > 0 ==> ts[0].0 == i && ts.last().1 == b.len()
            &&& ts.len() == 0 <==> i == b.len()
        }),
    decreases b.len() - i,
{
    let ts = tokens_from(b, i);
    if i < b.len() {
        let e = token_end(b, i);
        lemma_token_end(b, i);
        lemma_tokens_from_shape(b, e);
        let rest = tokens_from(b, e);
        assert(ts == seq![(i, e)] + rest);
        assert forall|k: int| #![trigger ts[k]] 0 <= k < ts.len() implies i <= ts[k].0 < ts[k].1
            <= b.len() by {
            if k > 0 {
                assert(ts[k] == rest[k - 1]);
            }
        }
        assert forall|k: int| #![trigger ts[k]] 0 <= k < ts.len() - 1 implies ts[k].1 == ts[k
            + 1].0 by {
            if k > 0 {
                assert(ts[k] == rest[k - 1]);
                assert(ts[k + 1] == rest[k]);
            } else {
                assert(ts[1] == rest[0]);
            }
        }
        if rest.len() > 0 {
            assert(ts.last() == rest.last());
        }
    }
}

/// Tokens are ordered: a token ends no later than any later token starts.
pub proof fn lemma_tokens_ordered(b: Seq<u8>, x: int, y: int)
    requires
        0 <= x < y < tokens(b).len(),
    ensures
        tokens(b)[x].1 <= tokens(b)[y].0,
    decreases y - x,
{
    lemma_tokens_from_shape(b, 0);
    let ts = tokens(b);
    if y > x + 1 {
        lemma_tokens_ordered(b, x, y - 1);
        assert(ts[y - 1].1 == ts[y].0);
    } else {
        assert(ts[x].1 == ts[x + 1].0);
    }
}

fn is_ws(x: u8) -> (r: bool)
    ensures
        r == is_ws_byte(x),
{
    x == 32u8 || x == 9u8 || x == 10u8 || x == 12u8 || x == 13u8
}

fn is_word(x: u8) -> (r: bool)
    ensures
        r == is_word_byte(x),
{
    (48u8 <= x && x <= 57u8) || (65u8 <= x && x <= 90u8) || (97u8 <= x && x <= 122u8) || x == 95u8
}

/// The length of the UTF-8 sequence that `first_byte` starts.
fn utf8_char_len(first_byte: u8) -> (r: usize)
    ensures
        r as int == char_len(first_byte),
        1 <= r <= 4,
{
    if first_byte < 0x80 {
        1
    } else if first_byte < 0xC0 {
        1  // invalid continuation byte; advance one to avoid an endless loop

    } else if first_byte < 0xE0 {
        2
    } else if first_byte < 0xF0 {
        3
    } else {
        4
    }
}

/// Splits `s` into tokens: runs of word characters, single non-word
/// characters, or runs of whitespace. Returns each token's byte range.
fn tokenize(s: &[u8]) -> (r: Vec<(usize, usize)>)
    ensures
        r@.len() == tokens(s@).len(),
        forall|k: int|
            #![trigger r@[k]]
            0 <= k < r@.len() ==> r@[k].0 as int == tokens(s@)[k].0 && r@[k].1 as int == tokens(
                s@,
            )[k].1,
{
    let ghost b = s@;
    let mut toks: Vec<(usize, usize)> = Vec::new();
    let ghost mut acc: Seq<(int, int)> = Seq::empty();
    let mut i: usize = 0;
    while i < s.len()
        invariant
            b == s@,
            i <= s.len(),
            acc + tokens_from(b, i as int) == tokens(b),
            toks@.len() == acc.len(),
            forall|k: int|
                #![trigger toks@[k]]
                0 <= k < toks@.len() ==> toks@[k].0 as int == acc[k].0 && toks@[k].1 as int
                    == acc[k].1,
        decreases s.len() - i,
    {
        let start = i;
        let x = s[i];
        if is_ws(x) {
            while i < s.len() && is_ws(s[i])
                invariant
                    start <= i <= s.len(),
                    b == s@,
                    run_end(b, start as int, true) == run_end(b, i as int, true),
                decreases s.len() - i,
            {
                i = i + 1;
            }
        } else if is_word(x) {
            while i < s.len() && is_word(s[i])
                invariant
                    start <= i <= s.len(),
                    b == s@,
                    run_end(b, start as int, false) == run_end(b, i as int, false),
                decreases s.len() - i,
            {
                i = i + 1;
            }
        } else if x >= 0x80 {
            let n = utf8_char_len(x);
            let left = s.len() - i;
            i = i + if n <= left {
                n
            } else {
                left
            };
        } else {
            i = i + 1;
        }
        proof {
            lemma_token_end(b, start as int);
            assert(token_end(b, start as int) == i);
            assert(tokens_from(b, start as int) == seq![(start as int, i as int)] + tokens_from(
                b,
                i as int,
            ));
            acc = acc + seq![(start as int, i as int)];
        }
        toks.push((start, i));
    }
    proof {
        assert(acc + tokens_from(b, i as int) == acc);
        assert(acc == tokens(b));
    }
    toks
}

// ---------------------------------------------------------------------------
// Longest common subsequence of the token texts
// ---------------------------------------------------------------------------

/// The texts of the tokens `ts` of `b`.
pub open spec fn texts(b: Seq<u8>, ts: Seq<(int, int)>) -> Seq<Seq<u8>> {
    ts.map_values(|t: (int, int)| b.subrange(t.0, t.1))
}

/// Length of a longest common subsequence of `a[..i]` and `c[..j]`.
pub open spec fn lcs(a: Seq<Seq<u8>>, c: Seq<Seq<u8>>, i: int, j: int) -> nat
    decreases i, j,
{
    if i <= 0 || j <= 0 {
        0
    } else if a[i - 1] == c[j - 1] {
        lcs(a, c, i - 1, j - 1) + 1
    } else {
        let x = lcs(a, c, i, j - 1);
        let y = lcs(a, c, i - 1, j);
        if x >= y {
            x
        } else {
            y
        }
    }
}

proof fn lemma_lcs_bound(a: Seq<Seq<u8>>, c: Seq<Seq<u8>>, i: int, j: int)
    requires
        0 <= i,
        0 <= j,
    ensures
        lcs(a, c, i, j) <= i,
        lcs(a, c, i, j) <= j,
    decreases i, j,
{
    if i > 0 && j > 0 {
        lemma_lcs_bound(a, c, i - 1, j - 1);
        lemma_lcs_bound(a, c, i, j - 1);
        lemma_lcs_bound(a, c, i - 1, j);
    }
}

/// The walk back through the LCS table from `(i, j)`: the indices of the old
/// tokens that were deleted and of the new tokens that were inserted, each in
/// increasing order. Equal tokens are matched first; otherwise a deletion is
/// preferred whenever it keeps the longest common subsequence.
pub open spec fn walk(a: Seq<Seq<u8>>, c: Seq<Seq<u8>>, i: int, j: int) -> (Seq<int>, Seq<int>)
    decreases i + j,
{
    if i < 0 || j < 0 {
        (Seq::empty(), Seq::empty())
    } else if i > 0 && j > 0 {
        if a[i - 1] == c[j - 1] {
            walk(a, c, i - 1, j - 1)
        } else if lcs(a, c, i - 1, j) >= lcs(a, c, i, j - 1) {
            let r = walk(a, c, i - 1, j);
            (r.0.push(i - 1), r.1)
        } else {
            let r = walk(a, c, i, j - 1);
            (r.0, r.1.push(j - 1))
        }
    } else if i > 0 {
        let r = walk(a, c, i - 1, j);
        (r.0.push(i - 1), r.1)
    } else if j > 0 {
        let r = walk(a, c, i, j - 1);
        (r.0, r.1.push(j - 1))
    } else {
        (Seq::empty(), Seq::empty())
    }
}

// ---------------------------------------------------------------------------
// Ranges
// ---------------------------------------------------------------------------

/// A list of byte ranges as pairs of integers.
pub open spec fn pairs(v: Seq<ByteRange>) -> Seq<(int, int)> {
    v.map_values(|r: ByteRange| (r.start as int, r.end as int))
}

/// The byte ranges of the tokens at indices `idx`.
pub open spec fn ranges_at(ts: Seq<(int, int)>, idx: Seq<int>) -> Seq<(int, int)> {
    idx.map_values(|k: int| ts[k])
}

/// `r` put in front of `m`, merged with `m`'s first range when they abut.
pub open spec fn prepend_merge(r: (int, int), m: Seq<(int, int)>) -> Seq<(int, int)> {
    if m.len() > 0 && r.1 == m[0].0 {
        m.update(0, (r.0, m[0].1))
    } else {
        seq![r] + m
    }
}

/// `rs` with every run of abutting ranges merged into one range.
pub open spec fn merged(rs: Seq<(int, int)>) -> Seq<(int, int)>
    decreases rs.len(),
{
    if rs.len() == 0 {
        Seq::empty()
    } else {
        prepend_merge(rs[0], merged(rs.drop_first()))
    }
}

/// `r` added after `m` (which runs right to left), merged with `m`'s last
/// range when `r` ends where that range starts.
pub open spec fn push_merge(m: Seq<(int, int)>, r: (int, int)) -> Seq<(int, int)> {
    if m.len() > 0 && m.last().0 == r.1 {
        m.update(m.len() - 1, (r.0, m.last().1))
    } else {
        m.push(r)
    }
}

/// One left-to-right pass that merges each range into the one before it
/// when they abut.
pub open spec fn coalesced(s: Seq<(int, int)>) -> Seq<(int, int)>
    decreases s.len(),
{
    if s.len() == 0 {
        s
    } else {
        let m = coalesced(s.drop_last());
        let r = s.last();
        if m.len() > 0 && m.last().1 == r.0 {
            m.update(m.len() - 1, (m.last().0, r.1))
        } else {
            m.push(r)
        }
    }
}

/// Ranges in increasing order, each ending strictly before the next starts.
pub open spec fn separated(s: Seq<(int, int)>) -> bool {
    forall|k: int| #![trigger s[k]] 0 <= k < s.len() - 1 ==> s[k].1 < s[k + 1].0
}

/// Ranges in increasing order, each ending no later than the next starts.
pub open spec fn ordered(s: Seq<(int, int)>) -> bool {
    forall|k: int| #![trigger s[k]] 0 <= k < s.len() - 1 ==> s[k].1 <= s[k + 1].0
}

proof fn lemma_coalesced_separated(s: Seq<(int, int)>)
    requires
        separated(s),
    ensures
        coalesced(s) == s,
    decreases s.len(),
{
    if s.len() > 0 {
        let p = s.drop_last();
        assert(separated(p)) by {
            assert forall|k: int| #![trigger p[k]] 0 <= k < p.len() - 1 implies p[k].1 < p[k + 1].0 by {
                assert(p[k] == s[k]);
                assert(p[k + 1] == s[k + 1]);
            }
        }
        lemma_coalesced_separated(p);
        if p.len() > 0 {
            assert(s[s.len() - 2].1 < s[s.len() - 1].0);
        }
        assert(p.push(s.last()) == s);
    }
}

proof fn lemma_merged_shape(rs: Seq<(int, int)>)
    requires
        ordered(rs),
    ensures
        separated(merged(rs)),
        rs.len() > 0 ==> merged(rs).len() > 0 && merged(rs)[0].0 == rs[0].0,
        rs.len() == 0 ==> merged(rs).len() == 0,
    decreases rs.len(),
{
    if rs.len() > 0 {
        let rest = rs.drop_first();
        assert(ordered(rest)) by {
            assert forall|k: int| #![trigger rest[k]] 0 <= k < rest.len() - 1 implies rest[k].1
                <= rest[k + 1].0 by {
                assert(rest[k] == rs[k + 1]);
                assert(rest[k + 1] == rs[k + 2]);
            }
        }
        lemma_merged_shape(rest);
        let m = merged(rest);
        let out = merged(rs);
        assert(out == prepend_merge(rs[0], m));
        if m.len() > 0 {
            assert(rest[0] == rs[1]);
            assert(rs[0].1 <= rs[1].0);
        }
        assert forall|k: int| #![trigger out[k]] 0 <= k < out.len() - 1 implies out[k].1 < out[k
            + 1].0 by {
            if m.len() > 0 && rs[0].1 == m[0].0 {
                assert(out[k + 1] == m[k + 1]);
                if k > 0 {
                    assert(out[k] == m[k]);
                }
            } else {
                assert(out[k + 1] == m[k]);
                if k > 0 {
                    assert(out[k] == m[k - 1]);
                }
            }
        }
    }
}

/// Appends `r`, merging it into the last range when `r` ends where that
/// range starts (ranges are pushed right to left).
fn push_range(out: &mut Vec<ByteRange>, r: ByteRange)
    ensures
        pairs(final(out)@) == push_merge(pairs(old(out)@), (r.start as int, r.end as int)),
{
    let n = out.len();
    if n > 0 && out[n - 1].start == r.end {
        let last = out[n - 1];
        out.set(n - 1, ByteRange { start: r.start, end: last.end });
        proof {
            assert(pairs(out@) == pairs(old(out)@).update(
                n - 1,
                (r.start as int, last.end as int),
            ));
        }
        return ;
    }
    out.push(r);
    proof {
        assert(pairs(out@) == pairs(old(out)@).push((r.start as int, r.end as int)));
    }
}

/// Merges each range into the one before it when they abut.
fn coalesce(out: &mut Vec<ByteRange>)
    ensures
        pairs(final(out)@) == coalesced(pairs(old(out)@)),
{
    let ghost s = pairs(out@);
    if out.len() < 2 {
        proof {
            if s.len() == 1 {
                assert(s.drop_last() == Seq::<(int, int)>::empty());
                assert(coalesced(s.drop_last()).len() == 0);
                assert(Seq::<(int, int)>::empty().push(s.last()) == s);
            } else {
                assert(s == Seq::<(int, int)>::empty());
            }
        }
        return ;
    }
    let mut merged_v: Vec<ByteRange> = Vec::new();
    let mut i: usize = 0;
    while i < out.len()
        invariant
            i <= out.len(),
            s == pairs(out@),
            pairs(merged_v@) == coalesced(s.take(i as int)),
        decreases out.len() - i,
    {
        let r = out[i];
        let n = merged_v.len();
        proof {
            assert(s.take(i + 1).drop_last() == s.take(i as int));
            assert(s.take(i + 1).last() == (r.start as int, r.end as int));
        }
        if n > 0 && merged_v[n - 1].end == r.start {
            let last = merged_v[n - 1];
            merged_v.set(n - 1, ByteRange { start: last.start, end: r.end });
            proof {
                assert(pairs(merged_v@) == coalesced(s.take(i as int)).update(
                    n - 1,
                    (last.start as int, r.end as int),
                ));
            }
        } else {
            merged_v.push(r);
            proof {
                assert(pairs(merged_v@) == coalesced(s.take(i as int)).push(
                    (r.start as int, r.end as int),
                ));
            }
        }
        i = i + 1;
    }
    assert(s.take(out.len() as int) == s);
    *out = merged_v;
}

proof fn lemma_push_merge_reverse(m: Seq<(int, int)>, r: (int, int))
    ensures
        push_merge(m, r).reverse() == prepend_merge(r, m.reverse()),
{
    let mr = m.reverse();
    if m.len() > 0 && m.last().0 == r.1 {
        assert(mr[0] == m.last());
        assert(push_merge(m, r).reverse() =~= mr.update(0, (r.0, m.last().1)));
    } else {
        if m.len() > 0 {
            assert(mr[0] == m.last());
        }
        assert(push_merge(m, r).reverse() =~= seq![r] + mr);
    }
}

proof fn lemma_ranges_at_prepend(ts: Seq<(int, int)>, k: int, d: Seq<int>)
    ensures
        merged(ranges_at(ts, seq![k] + d)) == prepend_merge(ts[k], merged(ranges_at(ts, d))),
{
    let x = ranges_at(ts, seq![k] + d);
    assert(x.len() > 0);
    assert(x[0] == ts[k]);
    assert(x.drop_first() =~= ranges_at(ts, d));
}

/// Increasing indices, all in `0..bound`.
pub open spec fn increasing_below(s: Seq<int>, bound: int) -> bool {
    &&& forall|k: int| #![trigger s[k]] 0 <= k < s.len() ==> 0 <= s[k] < bound
    &&& forall|k: int| #![trigger s[k]] 0 <= k < s.len() - 1 ==> s[k] < s[k + 1]
}

proof fn lemma_increasing_push(s: Seq<int>, x: int)
    requires
        increasing_below(s, x),
        0 <= x,
    ensures
        increasing_below(s.push(x), x + 1),
{
    let t = s.push(x);
    assert forall|k: int| #![trigger t[k]] 0 <= k < t.len() implies 0 <= t[k] < x + 1 by {
        if k < s.len() {
            assert(t[k] == s[k]);
        }
    }
    assert forall|k: int| #![trigger t[k]] 0 <= k < t.len() - 1 implies t[k] < t[k + 1] by {
        assert(t[k] == s[k]);
        if k + 1 < s.len() {
            assert(t[k + 1] == s[k + 1]);
        }
    }
}

proof fn lemma_increasing_weaken(s: Seq<int>, x: int, y: int)
    requires
        increasing_below(s, x),
        x <= y,
    ensures
        increasing_below(s, y),
{
}

/// The walk yields strictly increasing indices below its starting point.
proof fn lemma_walk_sorted(a: Seq<Seq<u8>>, c: Seq<Seq<u8>>, i: int, j: int)
    requires
        0 <= i,
        0 <= j,
    ensures
        increasing_below(walk(a, c, i, j).0, i),
        increasing_below(walk(a, c, i, j).1, j),
    decreases i + j,
{
    if i > 0 && j > 0 {
        if a[i - 1] == c[j - 1] {
            lemma_walk_sorted(a, c, i - 1, j - 1);
            lemma_increasing_weaken(walk(a, c, i - 1, j - 1).0, i - 1, i);
            lemma_increasing_weaken(walk(a, c, i - 1, j - 1).1, j - 1, j);
        } else if lcs(a, c, i - 1, j) >= lcs(a, c, i, j - 1) {
            lemma_walk_sorted(a, c, i - 1, j);
            lemma_increasing_push(walk(a, c, i - 1, j).0, i - 1);
        } else {
            lemma_walk_sorted(a, c, i, j - 1);
            lemma_increasing_push(walk(a, c, i, j - 1).1, j - 1);
        }
    } else if i > 0 {
        lemma_walk_sorted(a, c, i - 1, j);
        lemma_increasing_push(walk(a, c, i - 1, j).0, i - 1);
    } else if j > 0 {
        lemma_walk_sorted(a, c, i, j - 1);
        lemma_increasing_push(walk(a, c, i, j - 1).1, j - 1);
    }
}

/// Token ranges at strictly increasing indices are ordered.
proof fn lemma_ranges_ordered(b: Seq<u8>, idx: Seq<int>)
    requires
        forall|k: int| #![trigger idx[k]] 0 <= k < idx.len() ==> 0 <= idx[k] < tokens(b).len(),
        forall|k: int| #![trigger idx[k]] 0 <= k < idx.len() - 1 ==> idx[k] < idx[k + 1],
    ensures
        ordered(ranges_at(tokens(b), idx)),
{
    let rs = ranges_at(tokens(b), idx);
    assert forall|k: int| #![trigger rs[k]] 0 <= k < rs.len() - 1 implies rs[k].1 <= rs[k + 1].0 by {
        assert(idx[k] < idx[k + 1]);
        lemma_tokens_ordered(b, idx[k], idx[k + 1]);
    }
}

/// What `diff_lines` computes: `None` when either line is empty, when either
/// has more than `MAX_TOKENS` tokens, or when their longest common token
/// subsequence is under 30% of the longer token count; otherwise the merged
/// byte ranges of the deleted old tokens and of the inserted new tokens.
pub open spec fn word_diff(ob: Seq<u8>, nb: Seq<u8>) -> Option<(Seq<(int, int)>, Seq<(int, int)>)> {
    let ot = tokens(ob);
    let nt = tokens(nb);
    let n = ot.len() as int;
    let m = nt.len() as int;
    if ob.len() == 0 || nb.len() == 0 || n > MAX_TOKENS || m > MAX_TOKENS {
        None
    } else {
        let a = texts(ob, ot);
        let c = texts(nb, nt);
        let longer = if n >= m {
            n
        } else {
            m
        };
        if 10 * lcs(a, c, n, m) < 3 * longer {
            None
        } else {
            let w = walk(a, c, n, m);
            Some((merged(ranges_at(ot, w.0)), merged(ranges_at(nt, w.1))))
        }
    }
}

/// Whether `x[xs..xe]` and `y[ys..ye]` hold the same bytes.
fn same_bytes(x: &[u8], xs: usize, xe: usize, y: &[u8], ys: usize, ye: usize) -> (r: bool)
    requires
        xs <= xe <= x@.len(),
        ys <= ye <= y@.len(),
    ensures
        r == (x@.subrange(xs as int, xe as int) == y@.subrange(ys as int, ye as int)),
{
    if xe - xs != ye - ys {
        assert(x@.subrange(xs as int, xe as int).len() != y@.subrange(ys as int, ye as int).len());
        return false;
    }
    let mut k: usize = 0;
    while k < xe - xs
        invariant
            xs <= xe <= x@.len(),
            ys <= ye <= y@.len(),
            xe - xs == ye - ys,
            k <= xe - xs,
            forall|t: int|
                0 <= t < k ==> #[trigger] x@.subrange(xs as int, xe as int)[t] == y@.subrange(
                    ys as int,
                    ye as int,
                )[t],
        decreases xe - xs - k,
    {
        if x[xs + k] != y[ys + k] {
            assert(x@.subrange(xs as int, xe as int)[k as int] != y@.subrange(ys as int, ye as int)[k as int]);
            return false;
        }
        k = k + 1;
    }
    assert(x@.subrange(xs as int, xe as int) =~= y@.subrange(ys as int, ye as int));
    true
}

fn reversed(v: &Vec<ByteRange>) -> (r: Vec<ByteRange>)
    ensures
        pairs(r@) == pairs(v@).reverse(),
{
    let mut r: Vec<ByteRange> = Vec::new();
    let mut k = v.len();
    while k > 0
        invariant
            k <= v.len(),
            r@.len() == v.len() - k,
            forall|t: int| 0 <= t < r@.len() ==> r@[t] == v@[v.len() - 1 - t],
        decreases k,
    {
        k = k - 1;
        r.push(v[k]);
    }
    assert(pairs(r@) =~= pairs(v@).reverse());
    r
}

/// Computes a word-level diff between two single lines.
///
/// Returns `None` when either line is empty or the diff is too noisy to be
/// useful (the lines barely share any tokens). In that case the caller should
/// fall back to plain line-level highlighting.
#[verifier::spinoff_prover]
pub fn diff_lines(old: &str, new: &str) -> (r: Option<WordDiff>)
    ensures
        match r {
            None => word_diff(encode_utf8(old@), encode_utf8(new@)) is None,
            Some(d) => word_diff(encode_utf8(old@), encode_utf8(new@)) == Some(
                (pairs(d.deleted@), pairs(d.inserted@)),
            ),
        },
{
    let ob = old.as_bytes();
    let nb = new.as_bytes();
    if ob.len() == 0 || nb.len() == 0 {
        return None;
    }
    // Pairs that are too long are skipped: the table below is O(n*m).
    let old_tokens = tokenize(ob);
    let new_tokens = tokenize(nb);
    if old_tokens.len() > MAX_TOKENS || new_tokens.len() > MAX_TOKENS {
        return None;
    }
    let ghost ot = tokens(ob@);
    let ghost nt = tokens(nb@);
    let ghost a = texts(ob@, ot);
    let ghost c = texts(nb@, nt);
    let n = old_tokens.len();
    let m = new_tokens.len();
    proof {
        lemma_tokens_from_shape(ob@, 0);
        lemma_tokens_from_shape(nb@, 0);
    }
    // Standard LCS table, one row per prefix of the old tokens.
    let mut dp: Vec<Vec<u16>> = Vec::new();
    let mut first_row: Vec<u16> = Vec::new();
    let mut j: usize = 0;
    while j <= m
        invariant
            j <= m + 1,
            m <= MAX_TOKENS,
            first_row@.len() == j,
            forall|t: int| 0 <= t < j ==> first_row@[t] == 0,
        decreases m + 1 - j,
    {
        first_row.push(0u16);
        j = j + 1;
    }
    dp.push(first_row);
    let mut i: usize = 0;
    while i < n
        invariant
            i <= n <= MAX_TOKENS,
            m <= MAX_TOKENS,
            n == old_tokens@.len(),
            m == new_tokens@.len(),
            ot == tokens(ob@),
            nt == tokens(nb@),
            a == texts(ob@, ot),
            c == texts(nb@, nt),
            ot.len() == n,
            nt.len() == m,
            forall|k: int|
                #![trigger old_tokens@[k]]
                0 <= k < old_tokens@.len() ==> old_tokens@[k].0 as int == ot[k].0
                    && old_tokens@[k].1 as int == ot[k].1,
            forall|k: int|
                #![trigger new_tokens@[k]]
                0 <= k < new_tokens@.len() ==> new_tokens@[k].0 as int == nt[k].0
                    && new_tokens@[k].1 as int == nt[k].1,
            forall|k: int| #![trigger ot[k]] 0 <= k < ot.len() ==> 0 <= ot[k].0 < ot[k].1 <= ob@.len(),
            forall|k: int| #![trigger nt[k]] 0 <= k < nt.len() ==> 0 <= nt[k].0 < nt[k].1 <= nb@.len(),
            dp@.len() == i + 1,
            forall|r: int| #![trigger dp@[r]] 0 <= r < dp@.len() ==> dp@[r]@.len() == m + 1,
            forall|r: int, q: int|
                0 <= r < dp@.len() && 0 <= q <= m ==> #[trigger] dp@[r]@[q] as nat == lcs(
                    a,
                    c,
                    r,
                    q,
                ),
        decreases n - i,
    {
        let mut cur: Vec<u16> = Vec::new();
        cur.push(0u16);
        let (os, oe) = old_tokens[i];
        let mut j: usize = 0;
        while j < m
            invariant
                i < n <= MAX_TOKENS,
                m <= MAX_TOKENS,
                j <= m,
                m == new_tokens@.len(),
                dp@.len() == i + 1,
                os as int == ot[i as int].0,
                oe as int == ot[i as int].1,
                0 <= os <= oe <= ob@.len(),
                a == texts(ob@, ot),
                c == texts(nb@, nt),
                ot.len() == n,
                nt.len() == m,
                forall|k: int|
                    #![trigger new_tokens@[k]]
                    0 <= k < new_tokens@.len() ==> new_tokens@[k].0 as int == nt[k].0
                        && new_tokens@[k].1 as int == nt[k].1,
                forall|k: int| #![trigger nt[k]] 0 <= k < nt.len() ==> 0 <= nt[k].0 < nt[k].1 <= nb@.len(),
                forall|r: int| #![trigger dp@[r]] 0 <= r < dp@.len() ==> dp@[r]@.len() == m + 1,
                forall|r: int, q: int|
                    0 <= r < dp@.len() && 0 <= q <= m ==> #[trigger] dp@[r]@[q] as nat == lcs(
                        a,
                        c,
                        r,
                        q,
                    ),
                cur@.len() == j + 1,
                forall|q: int| 0 <= q <= j ==> #[trigger] cur@[q] as nat == lcs(a, c, i + 1, q),
            decreases m - j,
        {
            let (ns, ne) = new_tokens[j];
            proof {
                lemma_lcs_bound(a, c, i as int, j as int);
                lemma_lcs_bound(a, c, i + 1, j as int);
                lemma_lcs_bound(a, c, i as int, j + 1);
                assert(a[i as int] == ob@.subrange(os as int, oe as int));
                assert(c[j as int] == nb@.subrange(ns as int, ne as int));
                assert(dp@[i as int]@[j as int] as nat == lcs(a, c, i as int, j as int));
                assert(dp@[i as int]@[j + 1] as nat == lcs(a, c, i as int, j + 1));
            }
            let v = if same_bytes(ob, os, oe, nb, ns, ne) {
                dp[i][j] + 1
            } else {
                let x = cur[j];
                let y = dp[i][j + 1];
                if x >= y {
                    x
                } else {
                    y
                }
            };
            cur.push(v);
            j = j + 1;
        }
        dp.push(cur);
        i = i + 1;
    }
    let lcs_len = dp[n][m] as usize;
    let longer = if n >= m {
        n
    } else {
        m
    };
    // If the lines share fewer than 30% of tokens with the longer one,
    // intra-line highlighting is just noise.
    if 10 * lcs_len < 3 * longer {
        return None;
    }
    // Walk back to produce inserted/deleted ranges. Adjacent ranges are
    // merged so the highlighter draws one rectangle per contiguous change.

    let mut deleted: Vec<ByteRange> = Vec::new();
    let mut inserted: Vec<ByteRange> = Vec::new();
    let ghost mut dels: Seq<int> = Seq::empty();
    let ghost mut ins: Seq<int> = Seq::empty();
    let ghost full = walk(a, c, n as int, m as int);
    let mut i = n;
    let mut j = m;
    while i > 0 || j > 0
        invariant
            i <= n <= MAX_TOKENS,
            j <= m <= MAX_TOKENS,
            n == old_tokens@.len(),
            m == new_tokens@.len(),
            ot == tokens(ob@),
            nt == tokens(nb@),
            a == texts(ob@, ot),
            c == texts(nb@, nt),
            ot.len() == n,
            nt.len() == m,
            full == walk(a, c, n as int, m as int),
            forall|k: int|
                #![trigger old_tokens@[k]]
                0 <= k < old_tokens@.len() ==> old_tokens@[k].0 as int == ot[k].0
                    && old_tokens@[k].1 as int == ot[k].1,
            forall|k: int|
                #![trigger new_tokens@[k]]
                0 <= k < new_tokens@.len() ==> new_tokens@[k].0 as int == nt[k].0
                    && new_tokens@[k].1 as int == nt[k].1,
            forall|k: int| #![trigger ot[k]] 0 <= k < ot.len() ==> 0 <= ot[k].0 < ot[k].1 <= ob@.len(),
            forall|k: int| #![trigger nt[k]] 0 <= k < nt.len() ==> 0 <= nt[k].0 < nt[k].1 <= nb@.len(),
            dp@.len() == n + 1,
            forall|r: int| #![trigger dp@[r]] 0 <= r < dp@.len() ==> dp@[r]@.len() == m + 1,
            forall|r: int, q: int|
                0 <= r < dp@.len() && 0 <= q <= m ==> #[trigger] dp@[r]@[q] as nat == lcs(
                    a,
                    c,
                    r,
                    q,
                ),
            full.0 == walk(a, c, i as int, j as int).0 + dels,
            full.1 == walk(a, c, i as int, j as int).1 + ins,
            pairs(deleted@).reverse() == merged(ranges_at(ot, dels)),
            pairs(inserted@).reverse() == merged(ranges_at(nt, ins)),
        decreases i + j,
    {
        if i > 0 && j > 0 {
            let (os, oe) = old_tokens[i - 1];
            let (ns, ne) = new_tokens[j - 1];
            proof {
                assert(a[i - 1] == ob@.subrange(os as int, oe as int));
                assert(c[j - 1] == nb@.subrange(ns as int, ne as int));
            }
            if same_bytes(ob, os, oe, nb, ns, ne) {
                i = i - 1;
                j = j - 1;
            } else if dp[i - 1][j] >= dp[i][j - 1] {
                // deletion of old_tokens[i - 1]
                proof {
                    assert(dp@[i - 1]@[j as int] as nat == lcs(a, c, i - 1, j as int));
                    assert(dp@[i as int]@[j - 1] as nat == lcs(a, c, i as int, j - 1));
                    lemma_push_merge_reverse(pairs(deleted@), (os as int, oe as int));
                    lemma_ranges_at_prepend(ot, i - 1, dels);
                    let w = walk(a, c, i - 1, j as int);
                    assert(w.0.push(i - 1) + dels == w.0 + (seq![i - 1] + dels));
                    dels = seq![i - 1] + dels;
                }
                push_range(&mut deleted, ByteRange { start: os, end: oe });
                i = i - 1;
            } else {
                proof {
                    assert(dp@[i - 1]@[j as int] as nat == lcs(a, c, i - 1, j as int));
                    assert(dp@[i as int]@[j - 1] as nat == lcs(a, c, i as int, j - 1));
                    lemma_push_merge_reverse(pairs(inserted@), (ns as int, ne as int));
                    lemma_ranges_at_prepend(nt, j - 1, ins);
                    let w = walk(a, c, i as int, j - 1);
                    assert(w.1.push(j - 1) + ins == w.1 + (seq![j - 1] + ins));
                    ins = seq![j - 1] + ins;
                }
                push_range(&mut inserted, ByteRange { start: ns, end: ne });
                j = j - 1;
            }
        } else if i > 0 {
            let (os, oe) = old_tokens[i - 1];
            proof {
                lemma_push_merge_reverse(pairs(deleted@), (os as int, oe as int));
                lemma_ranges_at_prepend(ot, i - 1, dels);
                let w = walk(a, c, i - 1, j as int);
                assert(w.0.push(i - 1) + dels == w.0 + (seq![i - 1] + dels));
                dels = seq![i - 1] + dels;
            }
            push_range(&mut deleted, ByteRange { start: os, end: oe });
            i = i - 1;
        } else {
            let (ns, ne) = new_tokens[j - 1];
            proof {
                lemma_push_merge_reverse(pairs(inserted@), (ns as int, ne as int));
                lemma_ranges_at_prepend(nt, j - 1, ins);
                let w = walk(a, c, i as int, j - 1);
                assert(w.1.push(j - 1) + ins == w.1 + (seq![j - 1] + ins));
                ins = seq![j - 1] + ins;
            }
            push_range(&mut inserted, ByteRange { start: ns, end: ne });
            j = j - 1;
        }
    }
    let mut deleted = reversed(&deleted);
    let mut inserted = reversed(&inserted);
    proof {
        assert(full.0 == dels);
        assert(full.1 == ins);
        lemma_walk_sorted(a, c, n as int, m as int);
        lemma_ranges_ordered(ob@, dels);
        lemma_ranges_ordered(nb@, ins);
        lemma_merged_shape(ranges_at(ot, dels));
        lemma_merged_shape(ranges_at(nt, ins));
        lemma_coalesced_separated(merged(ranges_at(ot, dels)));
        lemma_coalesced_separated(merged(ranges_at(nt, ins)));
    }
    coalesce(&mut deleted);
    coalesce(&mut inserted);
    Some(WordDiff { deleted, inserted })
}


// ---------------------------------------------------------------------------
// What a word diff leaves in common
// ---------------------------------------------------------------------------

/// The tokens of `a[..n]` whose indices are not in `del`, in order.
pub open spec fn kept(a: Seq<Seq<u8>>, del: Seq<int>, n: int) -> Seq<Seq<u8>>
    decreases n,
{
    if n <= 0 {
        Seq::empty()
    } else if del.contains(n - 1) {
        kept(a, del, n - 1)
    } else {
        kept(a, del, n - 1).push(a[n - 1])
    }
}

proof fn lemma_kept_push(a: Seq<Seq<u8>>, del: Seq<int>, x: int, n: int)
    requires
        x >= n,
    ensures
        kept(a, del.push(x), n) == kept(a, del, n),
    decreases n,
{
    if n > 0 {
        lemma_kept_push(a, del, x, n - 1);
        let d = del.push(x);
        if d.contains(n - 1) {
            let k = choose|k: int| 0 <= k < d.len() && d[k] == n - 1;
            assert(k < del.len());
            assert(del[k] == n - 1);
        }
        if del.contains(n - 1) {
            let k = choose|k: int| 0 <= k < del.len() && del[k] == n - 1;
            assert(d[k] == n - 1);
        }
    }
}

/// Along the walk, the old tokens left undeleted are the new tokens left
/// uninserted.
proof fn lemma_walk_keeps_common(a: Seq<Seq<u8>>, c: Seq<Seq<u8>>, i: int, j: int)
    requires
        0 <= i <= a.len(),
        0 <= j <= c.len(),
    ensures
        kept(a, walk(a, c, i, j).0, i) == kept(c, walk(a, c, i, j).1, j),
    decreases i + j,
{
    if i > 0 && j > 0 && a[i - 1] == c[j - 1] {
        lemma_walk_keeps_common(a, c, i - 1, j - 1);
        lemma_walk_sorted(a, c, i - 1, j - 1);
        let w = walk(a, c, i - 1, j - 1);
        assert(!w.0.contains(i - 1));
        assert(!w.1.contains(j - 1));
    } else if i > 0 && (j == 0 || lcs(a, c, i - 1, j) >= lcs(a, c, i, j - 1)) {
        lemma_walk_keeps_common(a, c, i - 1, j);
        let r = walk(a, c, i - 1, j);
        lemma_kept_push(a, r.0, i - 1, i - 1);
        assert(r.0.push(i - 1)[r.0.len() as int] == i - 1);
        assert(r.0.push(i - 1).contains(i - 1));
    } else if j > 0 {
        lemma_walk_keeps_common(a, c, i, j - 1);
        let r = walk(a, c, i, j - 1);
        lemma_kept_push(c, r.1, j - 1, j - 1);
        assert(r.1.push(j - 1)[r.1.len() as int] == j - 1);
        assert(r.1.push(j - 1).contains(j - 1));
    }
}


/// Whether some range of `rs` contains position `p`.
pub open spec fn covered(rs: Seq<(int, int)>, p: int) -> bool {
    exists|k: int| #![trigger rs[k]] 0 <= k < rs.len() && rs[k].0 <= p < rs[k].1
}

/// The bytes of `b[..n]` at positions that no range of `rs` covers, in order.
pub open spec fn outside(b: Seq<u8>, rs: Seq<(int, int)>, n: int) -> Seq<u8>
    decreases n,
{
    if n <= 0 {
        Seq::empty()
    } else if covered(rs, n - 1) {
        outside(b, rs, n - 1)
    } else {
        outside(b, rs, n - 1).push(b[n - 1])
    }
}

/// Every range starts no later than it ends.
pub open spec fn well_formed(rs: Seq<(int, int)>) -> bool {
    forall|k: int| #![trigger rs[k]] 0 <= k < rs.len() ==> rs[k].0 <= rs[k].1
}

proof fn lemma_covered_front(r: (int, int), m: Seq<(int, int)>, p: int)
    ensures
        covered(seq![r] + m, p) == ((r.0 <= p < r.1) || covered(m, p)),
{
    let s = seq![r] + m;
    if covered(m, p) {
        let k = choose|k: int| #![trigger m[k]] 0 <= k < m.len() && m[k].0 <= p < m[k].1;
        assert(s[k + 1] == m[k]);
    }
    if r.0 <= p < r.1 {
        assert(s[0] == r);
    }
    if covered(s, p) {
        let k = choose|k: int| #![trigger s[k]] 0 <= k < s.len() && s[k].0 <= p < s[k].1;
        if k > 0 {
            assert(s[k] == m[k - 1]);
        }
    }
}

proof fn lemma_prepend_merge_covers(r: (int, int), m: Seq<(int, int)>, p: int)
    requires
        r.0 <= r.1,
        well_formed(m),
    ensures
        covered(prepend_merge(r, m), p) == ((r.0 <= p < r.1) || covered(m, p)),
        well_formed(prepend_merge(r, m)),
        prepend_merge(r, m).len() > 0,
        prepend_merge(r, m)[0].0 == r.0,
{
    let out = prepend_merge(r, m);
    if m.len() > 0 && r.1 == m[0].0 {
        let u = (r.0, m[0].1);
        assert(out == m.update(0, u));
        assert(out == seq![u] + m.drop_first());
        assert(m == seq![m[0]] + m.drop_first());
        lemma_covered_front(u, m.drop_first(), p);
        lemma_covered_front(m[0], m.drop_first(), p);
        assert forall|k: int| #![trigger out[k]] 0 <= k < out.len() implies out[k].0 <= out[k].1 by {
            if k > 0 {
                assert(out[k] == m[k]);
            }
        }
    } else {
        lemma_covered_front(r, m, p);
        assert forall|k: int| #![trigger out[k]] 0 <= k < out.len() implies out[k].0 <= out[k].1 by {
            if k > 0 {
                assert(out[k] == m[k - 1]);
            }
        }
    }
}

/// Merging abutting ranges covers exactly the positions the ranges covered.
proof fn lemma_merged_covers(rs: Seq<(int, int)>, p: int)
    requires
        well_formed(rs),
    ensures
        covered(merged(rs), p) == covered(rs, p),
        well_formed(merged(rs)),
    decreases rs.len(),
{
    if rs.len() > 0 {
        let rest = rs.drop_first();
        assert(well_formed(rest)) by {
            assert forall|k: int| #![trigger rest[k]] 0 <= k < rest.len() implies rest[k].0
                <= rest[k].1 by {
                assert(rest[k] == rs[k + 1]);
            }
        }
        lemma_merged_covers(rest, p);
        lemma_prepend_merge_covers(rs[0], merged(rest), p);
        assert(rs == seq![rs[0]] + rest);
        lemma_covered_front(rs[0], rest, p);
    } else {
        assert(!covered(rs, p));
        assert(!covered(merged(rs), p));
    }
}

/// `outside` depends only on which positions are covered.
proof fn lemma_outside_same(b: Seq<u8>, r1: Seq<(int, int)>, r2: Seq<(int, int)>, n: int)
    requires
        forall|p: int| #![trigger covered(r1, p)] #![trigger covered(r2, p)] 0 <= p < n ==> covered(r1, p) == covered(r2, p),
    ensures
        outside(b, r1, n) == outside(b, r2, n),
    decreases n,
{
    if n > 0 {
        lemma_outside_same(b, r1, r2, n - 1);
        assert(covered(r1, n - 1) == covered(r2, n - 1));
    }
}


/// Over a span whose positions are all covered, or all uncovered, `outside`
/// gains nothing, or the whole span.
proof fn lemma_outside_span(b: Seq<u8>, rs: Seq<(int, int)>, s: int, t: int, cov: bool)
    requires
        0 <= s <= t <= b.len(),
        forall|p: int| #![trigger covered(rs, p)] s <= p < t ==> covered(rs, p) == cov,
    ensures
        outside(b, rs, t) == outside(b, rs, s) + (if cov {
            Seq::<u8>::empty()
        } else {
            b.subrange(s, t)
        }),
    decreases t - s,
{
    if t > s {
        lemma_outside_span(b, rs, s, t - 1, cov);
        assert(covered(rs, t - 1) == cov);
        if !cov {
            assert(b.subrange(s, t) == b.subrange(s, t - 1).push(b[t - 1]));
        }
    }
}

/// A position inside token `k` is covered by the ranges of the tokens at
/// `d` exactly when `k` is one of them.
proof fn lemma_token_covered(b: Seq<u8>, d: Seq<int>, k: int, p: int)
    requires
        increasing_below(d, tokens(b).len() as int),
        0 <= k < tokens(b).len(),
        tokens(b)[k].0 <= p < tokens(b)[k].1,
    ensures
        covered(ranges_at(tokens(b), d), p) == d.contains(k),
{
    let ts = tokens(b);
    let rs = ranges_at(ts, d);
    if d.contains(k) {
        let t = choose|t: int| 0 <= t < d.len() && d[t] == k;
        assert(rs[t] == ts[k]);
    }
    if covered(rs, p) {
        let t = choose|t: int| #![trigger rs[t]] 0 <= t < rs.len() && rs[t].0 <= p < rs[t].1;
        assert(rs[t] == ts[d[t]]);
        if d[t] < k {
            lemma_tokens_ordered(b, d[t], k);
        } else if d[t] > k {
            lemma_tokens_ordered(b, k, d[t]);
        }
        assert(d[t] == k);
    }
}

/// Up to the end of token `e - 1`, the bytes outside the ranges of the
/// tokens at `d` are the texts of the other tokens, joined.
proof fn lemma_outside_tokens(b: Seq<u8>, d: Seq<int>, e: int)
    requires
        increasing_below(d, tokens(b).len() as int),
        0 <= e <= tokens(b).len(),
    ensures
        outside(b, ranges_at(tokens(b), d), if e == 0 {
            0
        } else {
            tokens(b)[e - 1].1
        }) == kept(texts(b, tokens(b)), d, e).flatten_alt(),
    decreases e,
{
    let ts = tokens(b);
    let rs = ranges_at(ts, d);
    lemma_tokens_from_shape(b, 0);
    if e > 0 {
        lemma_outside_tokens(b, d, e - 1);
        let s = ts[e - 1].0;
        let t = ts[e - 1].1;
        if e > 1 {
            assert(ts[e - 2].1 == ts[e - 1].0);
        } else {
            assert(ts[0].0 == 0);
        }
        let cov = d.contains(e - 1);
        assert forall|p: int| #![trigger covered(rs, p)] s <= p < t implies covered(rs, p) == cov by {
            lemma_token_covered(b, d, e - 1, p);
        }
        lemma_outside_span(b, rs, s, t, cov);
        let ks = kept(texts(b, ts), d, e);
        if !cov {
            assert(ks.drop_last() == kept(texts(b, ts), d, e - 1));
            assert(ks.last() == b.subrange(s, t));
        }
    }
}

/// The bytes outside the merged ranges of the tokens at `d` are the texts of
/// the other tokens, joined.
proof fn lemma_outside_merged(b: Seq<u8>, d: Seq<int>)
    requires
        increasing_below(d, tokens(b).len() as int),
    ensures
        outside(b, merged(ranges_at(tokens(b), d)), b.len() as int) == kept(
            texts(b, tokens(b)),
            d,
            tokens(b).len() as int,
        ).flatten_alt(),
{
    let ts = tokens(b);
    let rs = ranges_at(ts, d);
    lemma_tokens_from_shape(b, 0);
    assert(well_formed(rs)) by {
        assert forall|k: int| #![trigger rs[k]] 0 <= k < rs.len() implies rs[k].0 <= rs[k].1 by {
            assert(rs[k] == ts[d[k]]);
        }
    }
    assert forall|p: int| #![trigger covered(merged(rs), p)] #![trigger covered(rs, p)] 0 <= p < b.len() implies covered(
        merged(rs),
        p,
    ) == covered(rs, p) by {
        lemma_merged_covers(rs, p);
    }
    lemma_outside_same(b, merged(rs), rs, b.len() as int);
    lemma_outside_tokens(b, d, ts.len() as int);
}

/// A word diff marks as deleted and inserted only what differs: removing
/// the deleted ranges from the old line and the inserted ranges from the new
/// line leaves the same bytes.
pub proof fn law_word_diff_leaves_common_part(ob: Seq<u8>, nb: Seq<u8>)
    ensures
        word_diff(ob, nb) matches Some((del, ins)) ==> outside(ob, del, ob.len() as int) == outside(
            nb,
            ins,
            nb.len() as int,
        ),
{
    let ot = tokens(ob);
    let nt = tokens(nb);
    let n = ot.len() as int;
    let m = nt.len() as int;
    if word_diff(ob, nb) is Some {
        let a = texts(ob, ot);
        let c = texts(nb, nt);
        let w = walk(a, c, n, m);
        lemma_walk_sorted(a, c, n, m);
        lemma_walk_keeps_common(a, c, n, m);
        lemma_outside_merged(ob, w.0);
        lemma_outside_merged(nb, w.1);
    }
}


/// Every range is non-empty and lies within `lo..hi`.
pub open spec fn within(rs: Seq<(int, int)>, lo: int, hi: int) -> bool {
    forall|k: int| #![trigger rs[k]] 0 <= k < rs.len() ==> lo <= rs[k].0 < rs[k].1 <= hi
}

proof fn lemma_merged_within(rs: Seq<(int, int)>, lo: int, hi: int)
    requires
        within(rs, lo, hi),
    ensures
        within(merged(rs), lo, hi),
        rs.len() > 0 ==> merged(rs)[0].0 == rs[0].0,
    decreases rs.len(),
{
    if rs.len() > 0 {
        let rest = rs.drop_first();
        assert(within(rest, lo, hi)) by {
            assert forall|k: int| #![trigger rest[k]] 0 <= k < rest.len() implies lo <= rest[k].0
                < rest[k].1 <= hi by {
                assert(rest[k] == rs[k + 1]);
            }
        }
        lemma_merged_within(rest, lo, hi);
        let m = merged(rest);
        let out = merged(rs);
        assert(out == prepend_merge(rs[0], m));
        assert forall|k: int| #![trigger out[k]] 0 <= k < out.len() implies lo <= out[k].0 < out[k].1
            <= hi by {
            if m.len() > 0 && rs[0].1 == m[0].0 {
                if k > 0 {
                    assert(out[k] == m[k]);
                }
            } else if k > 0 {
                assert(out[k] == m[k - 1]);
            }
        }
    }
}

/// The changed ranges of a word diff lie within their lines, in order and
/// apart from each other, and none is empty.
pub proof fn law_word_diff_ranges_in_line(ob: Seq<u8>, nb: Seq<u8>)
    ensures
        word_diff(ob, nb) matches Some((del, ins)) ==> separated(del) && within(del, 0, ob.len() as int)
            && separated(ins) && within(ins, 0, nb.len() as int),
{
    let ot = tokens(ob);
    let nt = tokens(nb);
    let n = ot.len() as int;
    let m = nt.len() as int;
    if word_diff(ob, nb) is Some {
        let a = texts(ob, ot);
        let c = texts(nb, nt);
        let w = walk(a, c, n, m);
        lemma_walk_sorted(a, c, n, m);
        lemma_tokens_from_shape(ob, 0);
        lemma_tokens_from_shape(nb, 0);
        lemma_ranges_ordered(ob, w.0);
        lemma_ranges_ordered(nb, w.1);
        lemma_merged_shape(ranges_at(ot, w.0));
        lemma_merged_shape(ranges_at(nt, w.1));
        let rd = ranges_at(ot, w.0);
        let ri = ranges_at(nt, w.1);
        assert(within(rd, 0, ob.len() as int)) by {
            assert forall|k: int| #![trigger rd[k]] 0 <= k < rd.len() implies 0 <= rd[k].0 < rd[k].1
                <= ob.len() by {
                assert(rd[k] == ot[w.0[k]]);
            }
        }
        assert(within(ri, 0, nb.len() as int)) by {
            assert forall|k: int| #![trigger ri[k]] 0 <= k < ri.len() implies 0 <= ri[k].0 < ri[k].1
                <= nb.len() by {
                assert(ri[k] == nt[w.1[k]]);
            }
        }
        lemma_merged_within(rd, 0, ob.len() as int);
        lemma_merged_within(ri, 0, nb.len() as int);
    }
}

} // verus!
