//! Character-level text helpers shared by the rest of the library: Unicode
//! whitespace, trimming, whitespace splitting, decimal rendering and parsing.
use vstd::prelude::*;
use vstd::std_specs::iter::IteratorSpec;

verus! {

broadcast use vstd::string::group_string_axioms;

/// Collects the characters of `s`, in order.
pub fn chars_of(s: &str) -> (v: Vec<char>)
    ensures
        v@ == s@,
{
    let mut v: Vec<char> = Vec::new();
    for c in it: s.chars()
        invariant
            v@ == it.seq().take(it.index() as int),
            it.seq() == s@,
    {
        v.push(c);
    }
    v
}

/// Appends one character to a `String` (std's `String::push`).
#[verifier::external_body]
fn push_char(s: &mut String, c: char)
    ensures
        final(s)@ == old(s)@.push(c),
{
    s.push(c);
}

/// Builds a `String` holding exactly the characters `v`.
pub fn string_of(v: &Vec<char>) -> (s: String)
    ensures
        s@ == v@,
{
    let mut s = String::new();
    let mut i: usize = 0;
    while i < v.len()
        invariant
            i <= v.len(),
            s@ == v@.take(i as int),
        decreases v.len() - i,
    {
        push_char(&mut s, v[i]);
        assert(v@.take(i + 1) == v@.take(i as int).push(v@[i as int]));
        i = i + 1;
    }
    assert(v@.take(v.len() as int) == v@);
    s
}

/// Unicode `White_Space`, the set that `char::is_whitespace` tests.
pub open spec fn is_space(c: char) -> bool {
    let u = c as u32;
    ||| 0x9 <= u <= 0xD
    ||| u == 0x20
    ||| u == 0x85
    ||| u == 0xA0
    ||| u == 0x1680
    ||| 0x2000 <= u <= 0x200A
    ||| u == 0x2028
    ||| u == 0x2029
    ||| u == 0x202F
    ||| u == 0x205F
    ||| u == 0x3000
}

pub fn char_is_space(c: char) -> (b: bool)
    ensures
        b == is_space(c),
{
    let u = c as u32;
    (0x9 <= u && u <= 0xD) || u == 0x20 || u == 0x85 || u == 0xA0 || u == 0x1680 || (0x2000 <= u
        && u <= 0x200A) || u == 0x2028 || u == 0x2029 || u == 0x202F || u == 0x205F || u == 0x3000
}

/// `s` without its leading whitespace.
pub open spec fn trim_start(s: Seq<char>) -> Seq<char>
    decreases s.len(),
{
    if s.len() > 0 && is_space(s[0]) {
        trim_start(s.drop_first())
    } else {
        s
    }
}

/// `s` without its trailing whitespace.
pub open spec fn trim_end(s: Seq<char>) -> Seq<char>
    decreases s.len(),
{
    if s.len() > 0 && is_space(s.last()) {
        trim_end(s.drop_last())
    } else {
        s
    }
}

/// `s` without leading and trailing whitespace (what `str::trim` returns).
pub open spec fn trim(s: Seq<char>) -> Seq<char> {
    trim_end(trim_start(s))
}

proof fn lemma_trim_start_skip(s: Seq<char>, i: int)
    requires
        0 <= i <= s.len(),
        forall|k: int| 0 <= k < i ==> is_space(#[trigger] s[k]),
    ensures
        trim_start(s) == trim_start(s.subrange(i, s.len() as int)),
    decreases i,
{
    if i > 0 {
        assert(s.drop_first().subrange(i - 1, s.drop_first().len() as int) == s.subrange(
            i,
            s.len() as int,
        ));
        lemma_trim_start_skip(s.drop_first(), i - 1);
    } else {
        assert(s.subrange(0, s.len() as int) == s);
    }
}

proof fn lemma_trim_end_skip(s: Seq<char>, j: int)
    requires
        0 <= j <= s.len(),
        forall|k: int| j <= k < s.len() ==> is_space(#[trigger] s[k]),
    ensures
        trim_end(s) == trim_end(s.subrange(0, j)),
    decreases s.len() - j,
{
    if j < s.len() {
        assert(s.drop_last().subrange(0, j) == s.subrange(0, j));
        lemma_trim_end_skip(s.drop_last(), j);
    } else {
        assert(s.subrange(0, j) == s);
    }
}

/// The bounds `(start, end)` of `trim(v@)` within `v@`.
pub fn trim_bounds(v: &Vec<char>, lo: usize, hi: usize) -> (r: (usize, usize))
    requires
        lo <= hi <= v.len(),
    ensures
        lo <= r.0 <= r.1 <= hi,
        v@.subrange(r.0 as int, r.1 as int) == trim(v@.subrange(lo as int, hi as int)),
{
    let ghost s = v@.subrange(lo as int, hi as int);
    let mut i = lo;
    while i < hi && char_is_space(v[i])
        invariant
            lo <= i <= hi <= v.len(),
            s == v@.subrange(lo as int, hi as int),
            forall|k: int| lo <= k < i ==> is_space(#[trigger] v@[k]),
        decreases hi - i,
    {
        i = i + 1;
    }
    proof {
        assert forall|k: int| 0 <= k < i - lo implies is_space(#[trigger] s[k]) by {
            assert(s[k] == v@[lo + k]);
        }
        lemma_trim_start_skip(s, i - lo);
        assert(s.subrange(i - lo, s.len() as int) == v@.subrange(i as int, hi as int));
        let t = v@.subrange(i as int, hi as int);
        if t.len() > 0 {
            assert(t[0] == v@[i as int]);
        }
        assert(trim_start(t) == t);
    }
    let mut j = hi;
    while j > i && char_is_space(v[j - 1])
        invariant
            lo <= i <= j <= hi <= v.len(),
            forall|k: int| j <= k < hi ==> is_space(#[trigger] v@[k]),
        decreases j - i,
    {
        j = j - 1;
    }
    proof {
        let t = v@.subrange(i as int, hi as int);
        assert forall|k: int| j - i <= k < t.len() implies is_space(#[trigger] t[k]) by {
            assert(t[k] == v@[i + k]);
        }
        lemma_trim_end_skip(t, j - i);
        let u = v@.subrange(i as int, j as int);
        assert(t.subrange(0, j - i) == u);
        if u.len() > 0 {
            assert(u.last() == v@[j - 1]);
        }
        assert(trim_end(u) == u);
    }
    (i, j)
}

/// The length of `trim_end(v@)`: `v@` up to that length is `v@` without
/// its trailing whitespace.
pub fn trim_end_len(v: &Vec<char>) -> (n: usize)
    ensures
        n <= v.len(),
        v@.subrange(0, n as int) == trim_end(v@),
{
    let mut j = v.len();
    while j > 0 && char_is_space(v[j - 1])
        invariant
            j <= v.len(),
            forall|k: int| j <= k < v.len() ==> is_space(#[trigger] v@[k]),
        decreases j,
    {
        j = j - 1;
    }
    proof {
        lemma_trim_end_skip(v@, j as int);
        let u = v@.subrange(0, j as int);
        if u.len() > 0 {
            assert(u.last() == v@[j - 1]);
        }
        assert(trim_end(u) == u);
    }
    j
}

/// What follows the last `c` of `s`; all of `s` when it has none (what
/// `rsplit(c).next()` gives).
pub open spec fn after_last(s: Seq<char>, c: char) -> Seq<char>
    decreases s.len(),
{
    if s.len() == 0 {
        s
    } else if s.last() == c {
        Seq::empty()
    } else {
        after_last(s.drop_last(), c).push(s.last())
    }
}

/// The start of what follows the last `c` of `v@`.
pub fn after_last_start(v: &Vec<char>, c: char) -> (i: usize)
    ensures
        i <= v.len(),
        v@.subrange(i as int, v.len() as int) == after_last(v@, c),
{
    let mut i = v.len();
    assert(v@.subrange(0, i as int) == v@);
    assert(v@.subrange(i as int, i as int) =~= Seq::<char>::empty());
    while i > 0 && v[i - 1] != c
        invariant
            i <= v.len(),
            after_last(v@, c) == after_last(v@.subrange(0, i as int), c) + v@.subrange(
                i as int,
                v.len() as int,
            ),
        decreases i,
    {
        let ghost p = v@.subrange(0, i as int);
        assert(p.drop_last() == v@.subrange(0, i - 1));
        assert(p.last() == v@[i - 1]);
        assert(v@.subrange(i - 1, v.len() as int) == seq![v@[i - 1]] + v@.subrange(
            i as int,
            v.len() as int,
        ));
        i = i - 1;
    }
    proof {
        let p = v@.subrange(0, i as int);
        if i > 0 {
            assert(p.last() == v@[i - 1]);
        }
        assert(after_last(p, c) == Seq::<char>::empty());
    }
    i
}

/// Whether `t` begins with `p`.
pub open spec fn starts_with(t: Seq<char>, p: Seq<char>) -> bool {
    p.len() <= t.len() && t.subrange(0, p.len() as int) == p
}

/// Whether `t@` begins with `p`.
pub fn starts_with_text(t: &Vec<char>, p: &str) -> (r: bool)
    ensures
        r == starts_with(t@, p@),
{
    let pv = chars_of(p);
    if pv.len() > t.len() {
        return false;
    }
    let mut k: usize = 0;
    while k < pv.len()
        invariant
            pv.len() <= t.len(),
            pv@ == p@,
            k <= pv.len(),
            forall|j: int| 0 <= j < k ==> t@[j] == pv@[j],
        decreases pv.len() - k,
    {
        if t[k] != pv[k] {
            assert(t@.subrange(0, pv.len() as int)[k as int] != pv@[k as int]);
            return false;
        }
        k = k + 1;
    }
    assert(t@.subrange(0, pv.len() as int) =~= pv@);
    true
}

/// End of the run of non-whitespace characters that starts at `i`.
pub open spec fn word_end(s: Seq<char>, i: int) -> int
    decreases s.len() - i,
{
    if i >= s.len() || i < 0 {
        i
    } else if is_space(s[i]) {
        i
    } else {
        word_end(s, i + 1)
    }
}

pub proof fn lemma_word_end(s: Seq<char>, i: int)
    requires
        0 <= i <= s.len(),
    ensures
        i <= word_end(s, i) <= s.len(),
        forall|k: int| i <= k < word_end(s, i) ==> !is_space(#[trigger] s[k]),
        word_end(s, i) < s.len() ==> is_space(s[word_end(s, i)]),
    decreases s.len() - i,
{
    if i < s.len() && !is_space(s[i]) {
        lemma_word_end(s, i + 1);
    }
}

/// The `(start, end)` ranges of the whitespace-separated words of `s` that
/// begin at or after `i` (what `str::split_whitespace` yields, as ranges).
pub open spec fn words_from(s: Seq<char>, i: int) -> Seq<(int, int)>
    decreases s.len() - i,
{
    if i < 0 || i >= s.len() {
        Seq::empty()
    } else if is_space(s[i]) {
        words_from(s, i + 1)
    } else {
        let k = word_end(s, i + 1);
        if k <= i || k > s.len() {
            Seq::empty()
        } else {
            seq![(i, k)] + words_from(s, k)
        }
    }
}

pub proof fn lemma_words_from_bounds(s: Seq<char>, i: int)
    requires
        0 <= i,
    ensures
        forall|k: int|
            #![trigger words_from(s, i)[k]]
            0 <= k < words_from(s, i).len() ==> i <= words_from(s, i)[k].0 && words_from(s, i)[k].0
                < words_from(s, i)[k].1 && words_from(s, i)[k].1 <= s.len(),
    decreases s.len() - i,
{
    let w = words_from(s, i);
    if i < s.len() {
        if is_space(s[i]) {
            lemma_words_from_bounds(s, i + 1);
            assert(w == words_from(s, i + 1));
        } else {
            let k = word_end(s, i + 1);
            lemma_word_end(s, i + 1);
            lemma_words_from_bounds(s, k);
            let rest = words_from(s, k);
            assert(w == seq![(i, k)] + rest);
            assert forall|j: int| #![trigger w[j]] 0 <= j < w.len() implies i <= w[j].0 && w[j].0
                < w[j].1 && w[j].1 <= s.len() by {
                if j > 0 {
                    assert(w[j] == rest[j - 1]);
                }
            }
        }
    }
}

/// The word ranges of the whole of `s`.
pub open spec fn words(s: Seq<char>) -> Seq<(int, int)> {
    words_from(s, 0)
}

/// The word ranges of `v@` (as `str::split_whitespace` splits it).
pub fn split_words(v: &Vec<char>) -> (r: Vec<(usize, usize)>)
    ensures
        r@.len() == words(v@).len(),
        forall|k: int|
            0 <= k < r@.len() ==> r@[k].0 as int == words(v@)[k].0 && r@[k].1 as int == words(
                v@,
            )[k].1,
        forall|k: int| #![trigger r@[k]] 0 <= k < r@.len() ==> r@[k].0 < r@[k].1 && r@[k].1 <= v@.len(),
{
    proof {
        lemma_words_from_bounds(v@, 0);
    }
    let mut r: Vec<(usize, usize)> = Vec::new();
    let mut i: usize = 0;
    let ghost mut acc: Seq<(int, int)> = Seq::empty();
    while i < v.len()
        invariant
            i <= v.len(),
            acc + words_from(v@, i as int) == words(v@),
            r@.len() == acc.len(),
            forall|k: int|
                0 <= k < r@.len() ==> r@[k].0 as int == acc[k].0 && r@[k].1 as int == acc[k].1,
            forall|k: int|
                #![trigger words(v@)[k]]
                0 <= k < words(v@).len() ==> 0 <= words(v@)[k].0 && words(v@)[k].0 < words(v@)[k].1
                    && words(v@)[k].1 <= v@.len(),
        decreases v.len() - i,
    {
        if char_is_space(v[i]) {
            i = i + 1;
        } else {
            let mut k = i + 1;
            proof {
                lemma_word_end(v@, i + 1);
            }
            while k < v.len() && !char_is_space(v[k])
                invariant
                    i < k <= v.len(),
                    word_end(v@, i + 1) == word_end(v@, k as int),
                decreases v.len() - k,
            {
                k = k + 1;
            }
            r.push((i, k));
            proof {
                acc = acc + seq![(i as int, k as int)];
            }
            i = k;
        }
    }
    proof {
        assert(acc + words_from(v@, i as int) == acc);
        assert forall|k: int| #![trigger r@[k]] 0 <= k < r@.len() implies r@[k].0 < r@[k].1
            && r@[k].1 <= v@.len() by {
            assert(words(v@)[k] == acc[k]);
        }
    }
    r
}

/// The decimal digit character for `d < 10`.
pub open spec fn digit_char(d: nat) -> char {
    ((48 + d) as u32) as char
}

/// Decimal rendering of `n` (as `format!("{}", n)` writes it).
pub open spec fn decimal(n: nat) -> Seq<char>
    decreases n,
{
    if n < 10 {
        seq![digit_char(n)]
    } else {
        decimal(n / 10).push(digit_char(n % 10))
    }
}

/// The digit character for `d < 10`.
fn digit(d: u64) -> (c: char)
    requires
        d < 10,
    ensures
        c == digit_char(d as nat),
{
    if d == 0 {
        '0'
    } else if d == 1 {
        '1'
    } else if d == 2 {
        '2'
    } else if d == 3 {
        '3'
    } else if d == 4 {
        '4'
    } else if d == 5 {
        '5'
    } else if d == 6 {
        '6'
    } else if d == 7 {
        '7'
    } else if d == 8 {
        '8'
    } else {
        '9'
    }
}

/// Appends the decimal rendering of `n` to `out`.
pub fn push_decimal(out: &mut Vec<char>, n: u64)
    ensures
        final(out)@ == old(out)@ + decimal(n as nat),
    decreases n,
{
    if n >= 10 {
        push_decimal(out, n / 10);
        out.push(digit(n % 10));
    } else {
        out.push(digit(n));
    }
}

/// Appends the characters of `t` to `out`.
pub fn push_all(out: &mut Vec<char>, t: &Vec<char>)
    ensures
        final(out)@ == old(out)@ + t@,
{
    let mut i: usize = 0;
    while i < t.len()
        invariant
            i <= t.len(),
            out@ == old(out)@ + t@.take(i as int),
        decreases t.len() - i,
    {
        out.push(t[i]);
        assert(t@.take(i + 1) == t@.take(i as int).push(t@[i as int]));
        i = i + 1;
    }
    assert(t@.take(t.len() as int) == t@);
}

/// Appends the characters `t@[lo..hi]` to `out`.
pub fn push_range(out: &mut Vec<char>, t: &Vec<char>, lo: usize, hi: usize)
    requires
        lo <= hi <= t.len(),
    ensures
        final(out)@ == old(out)@ + t@.subrange(lo as int, hi as int),
{
    let mut i: usize = lo;
    while i < hi
        invariant
            lo <= i <= hi <= t.len(),
            out@ == old(out)@ + t@.subrange(lo as int, i as int),
        decreases hi - i,
    {
        out.push(t[i]);
        assert(t@.subrange(lo as int, i + 1) == t@.subrange(lo as int, i as int).push(
            t@[i as int],
        ));
        i = i + 1;
    }
}

pub open spec fn is_digit(c: char) -> bool {
    '0' <= c <= '9'
}

/// The value of a run of decimal digits.
pub open spec fn digits_value(d: Seq<char>) -> nat
    decreases d.len(),
{
    if d.len() == 0 {
        0
    } else {
        digits_value(d.drop_last()) * 10 + ((d.last() as u32 - 48) as nat)
    }
}

/// `s` without one leading `+`, if it has one.
pub open spec fn strip_plus(s: Seq<char>) -> Seq<char> {
    if s.len() > 0 && s[0] == '+' {
        s.drop_first()
    } else {
        s
    }
}

pub open spec fn all_digits(d: Seq<char>) -> bool {
    forall|k: int| 0 <= k < d.len() ==> is_digit(#[trigger] d[k])
}

/// What `str::parse::<usize>` gives for the text `s`: an optional `+`, then
/// at least one decimal digit, with a value that fits in `usize`.
pub open spec fn parse_usize(s: Seq<char>) -> Option<usize> {
    let d = strip_plus(s);
    if d.len() > 0 && all_digits(d) && digits_value(d) <= usize::MAX {
        Some(digits_value(d) as usize)
    } else {
        None
    }
}

/// The decimal rendering of `n` is a non-empty run of digits worth `n`.
pub proof fn lemma_decimal_digits(n: nat)
    ensures
        decimal(n).len() > 0,
        all_digits(decimal(n)),
        digits_value(decimal(n)) == n,
    decreases n,
{
    let d = decimal(n);
    if n < 10 {
        assert(d == seq![digit_char(n)]);
        assert(d.drop_last() =~= Seq::<char>::empty());
        assert((digit_char(n) as u32) == 48 + n);
        assert(digits_value(d) == digits_value(d.drop_last()) * 10 + ((d.last() as u32 - 48) as nat));
        assert(digits_value(d.drop_last()) == 0);
    } else {
        lemma_decimal_digits(n / 10);
        assert(d.drop_last() == decimal(n / 10));
        assert((digit_char(n % 10) as u32) == 48 + n % 10);
        assert(n == (n / 10) * 10 + n % 10) by (nonlinear_arith);
        assert(d.last() == digit_char(n % 10));
        assert(digits_value(d) == digits_value(d.drop_last()) * 10 + ((d.last() as u32 - 48) as nat));
        assert forall|k: int| 0 <= k < d.len() implies is_digit(#[trigger] d[k]) by {
            if k < d.len() - 1 {
                assert(d[k] == decimal(n / 10)[k]);
            }
        }
    }
}

/// `str::parse::<usize>` reads back the decimal rendering of any `usize`.
pub proof fn lemma_parse_decimal(n: nat)
    requires
        n <= usize::MAX,
    ensures
        parse_usize(decimal(n)) == Some(n as usize),
{
    lemma_decimal_digits(n);
    let d = decimal(n);
    assert(is_digit(d[0]));
    assert(strip_plus(d) == d);
}

proof fn lemma_digits_prefix_le(d: Seq<char>, k: int)
    requires
        0 <= k <= d.len(),
        forall|i: int| 0 <= i < d.len() ==> is_digit(#[trigger] d[i]),
    ensures
        digits_value(d.subrange(0, k)) <= digits_value(d),
    decreases d.len() - k,
{
    if k < d.len() {
        lemma_digits_prefix_le(d, k + 1);
        let p = d.subrange(0, k + 1);
        assert(p.drop_last() == d.subrange(0, k));
        assert(is_digit(d[k]));
    } else {
        assert(d.subrange(0, k) == d);
    }
}

/// Parses `v@[lo..hi]` as `str::parse::<usize>` does.
pub fn parse_usize_range(v: &Vec<char>, lo: usize, hi: usize) -> (r: Option<usize>)
    requires
        lo <= hi <= v.len(),
    ensures
        r == parse_usize(v@.subrange(lo as int, hi as int)),
{
    let ghost s = v@.subrange(lo as int, hi as int);
    let mut start = lo;
    if lo < hi && v[lo] == '+' {
        start = lo + 1;
    }
    let ghost d = v@.subrange(start as int, hi as int);
    proof {
        if lo < hi && v@[lo as int] == '+' {
            assert(s.drop_first() == d);
        } else {
            assert(s == d);
        }
        assert(strip_plus(s) == d);
    }
    if start == hi {
        return None;
    }
    let mut val: usize = 0;
    let mut i = start;
    while i < hi
        invariant
            lo <= start <= i <= hi <= v.len(),
            d == v@.subrange(start as int, hi as int),
            s == v@.subrange(lo as int, hi as int),
            d.len() > 0,
            strip_plus(s) == d,
            forall|k: int| start <= k < i ==> is_digit(#[trigger] v@[k]),
            val as nat == digits_value(v@.subrange(start as int, i as int)),
        decreases hi - i,
    {
        let c = v[i];
        if !('0' <= c && c <= '9') {
            proof {
                assert(d[i - start] == c);
                assert(!is_digit(d[i - start]));
                assert(!all_digits(d));
            }
            return None;
        }
        let dv = (c as u32 - 48) as usize;
        proof {
            let p = v@.subrange(start as int, i + 1);
            assert(p.drop_last() == v@.subrange(start as int, i as int));
            assert(p.last() == c);
            assert(digits_value(p) == val * 10 + dv);
        }
        match val.checked_mul(10) {
            Some(m) => match m.checked_add(dv) {
                Some(nv) => {
                    val = nv;
                },
                None => {
                    proof {
                        if all_digits(d) {
                            lemma_digits_prefix_le(d, i + 1 - start);
                            assert(d.subrange(0, i + 1 - start) == v@.subrange(
                                start as int,
                                i + 1,
                            ));
                        }
                    }
                    return None;
                },
            },
            None => {
                proof {
                    if all_digits(d) {
                        lemma_digits_prefix_le(d, i + 1 - start);
                        assert(d.subrange(0, i + 1 - start) == v@.subrange(start as int, i + 1));
                    }
                }
                return None;
            },
        }
        i = i + 1;
    }
    proof {
        assert forall|k: int| 0 <= k < d.len() implies is_digit(#[trigger] d[k]) by {
            assert(d[k] == v@[start + k]);
        }
        assert(d == v@.subrange(start as int, i as int));
    }
    Some(val)
}

} // verus!
