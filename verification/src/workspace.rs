//! Workspace entries (the repositories of a folder) and the status
//! indicators shown next to them.
use vstd::prelude::*;

use crate::models::RepoStatus;
use crate::repo::{dirty, is_dirty};
use crate::text::{chars_of, decimal, push_all, push_decimal, string_of};

verus! {

broadcast use vstd::string::group_string_axioms;

/// Quick status of a repository: uncommitted changes (and whether any are
/// in tracked files), commits ahead of the remote, current branch.
#[derive(Debug, Clone)]
pub struct RepoIndicator {
    pub is_dirty: bool,
    pub has_tracked_changes: bool,
    pub ahead: usize,
    pub branch: Option<String>,
}

/// Whether a status has changes in tracked files: staged, or modified or
/// deleted in the working directory.
pub open spec fn tracked_changes(s: RepoStatus) -> bool {
    s.staged@.len() > 0 || s.unstaged@.len() > 0
}

/// One directory of a workspace.
#[derive(Debug, Clone)]
pub struct WorkspaceEntry {
    pub name: String,
    pub path: String,
    pub is_git_repo: bool,
    pub indicator: Option<RepoIndicator>,
}

/// The indicator of a repository from what was read of it: its branch name,
/// its ahead/behind counts (none when they could not be read, which counts
/// as zero) and its status (none when it could not be read, which counts as
/// clean).
pub fn compute_indicator(
    branch: Option<String>,
    ahead_behind: Option<(usize, usize)>,
    status: Option<&RepoStatus>,
) -> (r: RepoIndicator)
    ensures
        r.branch == branch,
        r.ahead == match ahead_behind {
            Some(ab) => ab.0,
            None => 0,
        },
        r.is_dirty == match status {
            Some(s) => dirty(*s),
            None => false,
        },
        r.has_tracked_changes == match status {
            Some(s) => tracked_changes(*s),
            None => false,
        },
{
    let ahead = match ahead_behind {
        Some((a, _)) => a,
        None => 0,
    };
    let d = match status {
        Some(s) => is_dirty(s),
        None => false,
    };
    let in_tracked = match status {
        Some(s) => !s.staged.is_empty() || !s.unstaged.is_empty(),
        None => false,
    };
    RepoIndicator { is_dirty: d, has_tracked_changes: in_tracked, ahead, branch }
}

/// Whether a folder of the workspace is hidden (its name starts with `.`);
/// hidden folders are not listed.
pub fn is_hidden_folder(name: &str) -> (r: bool)
    ensures
        r == (name@.len() > 0 && name@[0] == '.'),
{
    let v = chars_of(name);
    v.len() > 0 && v[0] == '.'
}

/// Whether the text `a` sorts before or equal to `b`, character by
/// character (for UTF-8 text the same order as byte by byte).
pub open spec fn text_le(a: Seq<char>, b: Seq<char>) -> bool
    decreases a.len(),
{
    if a.len() == 0 {
        true
    } else if b.len() == 0 {
        false
    } else if a[0] != b[0] {
        a[0] < b[0]
    } else {
        text_le(a.drop_first(), b.drop_first())
    }
}

/// Workspace order: git repositories first, then by name.
pub open spec fn entry_le(a: WorkspaceEntry, b: WorkspaceEntry) -> bool {
    (a.is_git_repo && !b.is_git_repo) || (a.is_git_repo == b.is_git_repo && text_le(
        a.name@,
        b.name@,
    ))
}

proof fn lemma_text_le_total(a: Seq<char>, b: Seq<char>)
    ensures
        text_le(a, b) || text_le(b, a),
    decreases a.len(),
{
    if a.len() > 0 && b.len() > 0 && a[0] == b[0] {
        lemma_text_le_total(a.drop_first(), b.drop_first());
    }
}

proof fn lemma_text_le_trans(a: Seq<char>, b: Seq<char>, c: Seq<char>)
    requires
        text_le(a, b),
        text_le(b, c),
    ensures
        text_le(a, c),
    decreases a.len(),
{
    if a.len() > 0 && b.len() > 0 && c.len() > 0 && a[0] == b[0] && b[0] == c[0] {
        lemma_text_le_trans(a.drop_first(), b.drop_first(), c.drop_first());
    }
}

proof fn lemma_entry_le_total(a: WorkspaceEntry, b: WorkspaceEntry)
    ensures
        entry_le(a, b) || entry_le(b, a),
{
    lemma_text_le_total(a.name@, b.name@);
}

proof fn lemma_entry_le_trans(a: WorkspaceEntry, b: WorkspaceEntry, c: WorkspaceEntry)
    requires
        entry_le(a, b),
        entry_le(b, c),
    ensures
        entry_le(a, c),
{
    if a.is_git_repo == b.is_git_repo && b.is_git_repo == c.is_git_repo {
        lemma_text_le_trans(a.name@, b.name@, c.name@);
    }
}

fn text_le_exec(a: &str, b: &str) -> (r: bool)
    ensures
        r == text_le(a@, b@),
{
    let x = crate::text::chars_of(a);
    let y = crate::text::chars_of(b);
    let mut k: usize = 0;
    assert(x@.subrange(0, x@.len() as int) == x@);
    assert(y@.subrange(0, y@.len() as int) == y@);
    while k < x.len() && k < y.len() && x[k] == y[k]
        invariant
            k <= x.len(),
            k <= y.len(),
            x@ == a@,
            y@ == b@,
            text_le(a@, b@) == text_le(x@.subrange(k as int, x@.len() as int), y@.subrange(
                k as int,
                y@.len() as int,
            )),
        decreases x.len() - k,
    {
        proof {
            let xs = x@.subrange(k as int, x@.len() as int);
            let ys = y@.subrange(k as int, y@.len() as int);
            assert(xs.drop_first() == x@.subrange(k + 1, x@.len() as int));
            assert(ys.drop_first() == y@.subrange(k + 1, y@.len() as int));
        }
        k = k + 1;
    }
    proof {
        let xs = x@.subrange(k as int, x@.len() as int);
        let ys = y@.subrange(k as int, y@.len() as int);
        if k < x.len() && k < y.len() {
            assert(xs[0] == x@[k as int]);
            assert(ys[0] == y@[k as int]);
        }
    }
    if k == x.len() {
        true
    } else if k == y.len() {
        false
    } else {
        x[k] < y[k]
    }
}

fn entry_le_exec(a: &WorkspaceEntry, b: &WorkspaceEntry) -> (r: bool)
    ensures
        r == entry_le(*a, *b),
{
    (a.is_git_repo && !b.is_git_repo) || (a.is_git_repo == b.is_git_repo && text_le_exec(
        a.name.as_str(),
        b.name.as_str(),
    ))
}

proof fn lemma_empty_multiset(s: Seq<WorkspaceEntry>)
    requires
        s.len() == 0,
    ensures
        s.to_multiset() =~= vstd::multiset::Multiset::empty(),
{
    assert forall|a: WorkspaceEntry| s.to_multiset().count(a) == 0 by {
        vstd::seq_lib::to_multiset_contains(s, a);
    }
}

/// Sorted in workspace order.
pub open spec fn sorted_entries(s: Seq<WorkspaceEntry>) -> bool {
    forall|i: int, j: int| 0 <= i < j < s.len() ==> entry_le(#[trigger] s[i], #[trigger] s[j])
}

/// Whether two entries sort alike: both repositories or both not, and the
/// same name.
pub open spec fn same_key(a: WorkspaceEntry, b: WorkspaceEntry) -> bool {
    a.is_git_repo == b.is_git_repo && a.name@ == b.name@
}

/// The entries of `s` that sort like `x`, in their order in `s`.
pub open spec fn with_key(s: Seq<WorkspaceEntry>, x: WorkspaceEntry) -> Seq<WorkspaceEntry> {
    s.filter(|y: WorkspaceEntry| same_key(y, x))
}

proof fn lemma_text_le_refl(a: Seq<char>)
    ensures
        text_le(a, a),
    decreases a.len(),
{
    if a.len() > 0 {
        lemma_text_le_refl(a.drop_first());
    }
}

proof fn lemma_filter_none(s: Seq<WorkspaceEntry>, f: spec_fn(WorkspaceEntry) -> bool)
    requires
        forall|k: int| 0 <= k < s.len() ==> !f(#[trigger] s[k]),
    ensures
        s.filter(f) == Seq::<WorkspaceEntry>::empty(),
    decreases s.len(),
{
    reveal(Seq::filter);
    if s.len() > 0 {
        let p = s.drop_last();
        assert forall|k: int| 0 <= k < p.len() implies !f(#[trigger] p[k]) by {
            assert(p[k] == s[k]);
        }
        lemma_filter_none(p, f);
        assert(!f(s.last()));
        assert(s.filter(f) == p.filter(f));
    } else {
        assert(s =~= Seq::<WorkspaceEntry>::empty());
    }
}

proof fn lemma_filter_push(s: Seq<WorkspaceEntry>, e: WorkspaceEntry, f: spec_fn(WorkspaceEntry) -> bool)
    ensures
        s.push(e).filter(f) == if f(e) {
            s.filter(f).push(e)
        } else {
            s.filter(f)
        },
{
    reveal(Seq::filter);
    assert(s.push(e).drop_last() =~= s);
    assert(s.push(e).last() == e);
}

/// Inserting `e` after every entry that sorts before or with it adds `e` at
/// the end of the entries that sort like it, and leaves the others alone.
proof fn lemma_insert_keeps_key_order(out: Seq<WorkspaceEntry>, p: int, e: WorkspaceEntry, x: WorkspaceEntry)
    requires
        0 <= p <= out.len(),
        sorted_entries(out),
        p < out.len() ==> !entry_le(out[p], e),
    ensures
        with_key(out.insert(p, e), x) == if same_key(e, x) {
            with_key(out, x).push(e)
        } else {
            with_key(out, x)
        },
{
    let f = |y: WorkspaceEntry| same_key(y, x);
    let a = out.take(p);
    let b = out.skip(p);
    assert(out == a + b);
    assert(out.insert(p, e) == a + seq![e] + b);
    Seq::filter_distributes_over_add(a, b, f);
    Seq::filter_distributes_over_add(a + seq![e], b, f);
    Seq::filter_distributes_over_add(a, seq![e], f);
    lemma_filter_push(Seq::<WorkspaceEntry>::empty(), e, f);
    assert(Seq::<WorkspaceEntry>::empty().push(e) =~= seq![e]);
    lemma_filter_none(Seq::<WorkspaceEntry>::empty(), f);
    if same_key(e, x) {
        assert forall|k: int| 0 <= k < b.len() implies !f(#[trigger] b[k]) by {
            assert(b[k] == out[p + k]);
            if same_key(out[p + k], x) {
                lemma_text_le_refl(e.name@);
                assert(entry_le(out[p + k], e));
                if k > 0 {
                    assert(entry_le(out[p], out[p + k]));
                    lemma_entry_le_trans(out[p], out[p + k], e);
                }
            }
        }
        lemma_filter_none(b, f);
        assert(b.filter(f) + Seq::<WorkspaceEntry>::empty() == b.filter(f));
        assert(a.filter(f) + b.filter(f) == a.filter(f));
        assert(seq![e].filter(f) == seq![e]);
        assert(a.filter(f) + seq![e] == a.filter(f).push(e));
    } else {
        assert(seq![e].filter(f) == Seq::<WorkspaceEntry>::empty());
        assert(a.filter(f) + Seq::<WorkspaceEntry>::empty() == a.filter(f));
    }
}

/// Puts workspace entries in order: git repositories first, then by name.
/// Entries that sort alike keep their order.
#[verifier::spinoff_prover]
pub fn sort_entries(entries: Vec<WorkspaceEntry>) -> (r: Vec<WorkspaceEntry>)
    ensures
        sorted_entries(r@),
        r@.to_multiset() == entries@.to_multiset(),
        forall|x: WorkspaceEntry| #[trigger] with_key(r@, x) == with_key(entries@, x),
{
    let mut out: Vec<WorkspaceEntry> = Vec::new();
    let mut input = entries;
    let ghost all = input@;
    let mut rest: Vec<WorkspaceEntry> = Vec::new();
    // Move the entries into `rest`, last first, so that popping from `rest`
    // yields them in the order they came.
    proof {
        lemma_empty_multiset(rest@);
        assert(rest@.to_multiset().add(input@.to_multiset()) =~= all.to_multiset());
        assert(all.take(all.len() as int) == all);
        assert(all.subrange(all.len() as int, all.len() as int).reverse() =~= rest@);
    }
    while input.len() > 0
        invariant
            rest@.to_multiset().add(input@.to_multiset()) == all.to_multiset(),
            input.len() <= all.len(),
            input@ == all.take(input.len() as int),
            rest@ == all.subrange(input.len() as int, all.len() as int).reverse(),
        decreases input.len(),
    {
        let ghost r0 = rest@;
        let ghost i0 = input@;
        let e = input.pop().unwrap();
        proof {
            assert(i0 == input@.push(e));
            vstd::seq_lib::to_multiset_build(input@, e);
        }
        rest.push(e);
        proof {
            vstd::seq_lib::to_multiset_build(r0, e);
            assert(rest@.to_multiset().add(input@.to_multiset()) =~= all.to_multiset());
            assert(input@ =~= all.take(input.len() as int));
            assert(e == all[input.len() as int]);
            assert(rest@ =~= all.subrange(input.len() as int, all.len() as int).reverse());
        }
    }
    proof {
        lemma_empty_multiset(input@);
        lemma_empty_multiset(out@);
        assert(out@.to_multiset().add(rest@.to_multiset()) =~= all.to_multiset());
        assert forall|x: WorkspaceEntry| #[trigger] with_key(out@, x) == with_key(all.take(0), x) by {
            assert(out@ =~= all.take(0));
        }
    }
    while rest.len() > 0
        invariant
            sorted_entries(out@),
            out@.to_multiset().add(rest@.to_multiset()) == all.to_multiset(),
            rest.len() <= all.len(),
            rest@ == all.subrange(all.len() - rest.len(), all.len() as int).reverse(),
            forall|x: WorkspaceEntry|
                #[trigger] with_key(out@, x) == with_key(all.take(all.len() - rest.len()), x),
        decreases rest.len(),
    {
        let ghost r0 = rest@;
        let ghost c: int = all.len() - rest.len();
        let e = rest.pop().unwrap();
        proof {
            assert(r0 == rest@.push(e));
            vstd::seq_lib::to_multiset_build(rest@, e);
            assert(e == all[c]);
            assert(rest@ =~= all.subrange(c + 1, all.len() as int).reverse());
        }
        let mut p: usize = 0;
        while p < out.len() && entry_le_exec(&out[p], &e)
            invariant
                p <= out.len(),
                sorted_entries(out@),
                forall|t: int| 0 <= t < p ==> entry_le(#[trigger] out@[t], e),
            decreases out.len() - p,
        {
            p = p + 1;
        }
        proof {
            if p < out.len() {
                assert(!entry_le(out@[p as int], e));
                lemma_entry_le_total(out@[p as int], e);
            }
        }
        let ghost before = out@;
        out.insert(p, e);
        proof {
            assert(out@ == before.insert(p as int, e));
            assert forall|i: int, j: int| 0 <= i < j < out@.len() implies entry_le(
                #[trigger] out@[i],
                #[trigger] out@[j],
            ) by {
                if j < p {
                    assert(out@[i] == before[i]);
                    assert(out@[j] == before[j]);
                } else if j == p {
                    assert(out@[i] == before[i]);
                } else if i < p {
                    assert(out@[i] == before[i]);
                    assert(out@[j] == before[j - 1]);
                    lemma_entry_le_trans(before[i], e, before[p as int]);
                    if j - 1 > p {
                        lemma_entry_le_trans(before[i], before[p as int], before[j - 1]);
                    }
                } else if i == p {
                    assert(out@[j] == before[j - 1]);
                    if j - 1 > p {
                        lemma_entry_le_trans(e, before[p as int], before[j - 1]);
                    }
                } else {
                    assert(out@[i] == before[i - 1]);
                    assert(out@[j] == before[j - 1]);
                }
            }
            vstd::seq_lib::to_multiset_insert(before, p as int, e);
            assert(out@.to_multiset().add(rest@.to_multiset()) =~= all.to_multiset());
            assert(all.take(c + 1) == all.take(c).push(e));
            assert forall|x: WorkspaceEntry| #[trigger] with_key(out@, x) == with_key(
                all.take(all.len() - rest.len()),
                x,
            ) by {
                lemma_insert_keeps_key_order(before, p as int, e, x);
                assert(with_key(before, x) == with_key(all.take(c), x));
                lemma_filter_push(all.take(c), e, |y: WorkspaceEntry| same_key(y, x));
                assert(all.len() - rest.len() == c + 1);
            }
        }
    }
    proof {
        lemma_empty_multiset(rest@);
        assert(out@.to_multiset() =~= all.to_multiset());
        assert(all.take(all.len() as int) == all);
    }
    out
}

/// A status dot next to a repository's name.
#[derive(Debug, Clone)]
pub struct IndicatorDot {
    /// `●`, followed by the count of unpushed commits on the green dot.
    pub label: String,
    pub css_class: &'static str,
    pub tooltip: String,
}

/// What the sidebar shows of a workspace entry.
#[derive(Debug, Clone)]
pub struct RepoRow {
    pub icon: &'static str,
    /// Whether the icon and the name are dimmed (a folder that is no
    /// repository).
    pub dimmed: bool,
    pub name: String,
    /// The dots: yellow for changes in tracked files or blue for untracked
    /// files only, then green with the count of unpushed commits.
    pub dots: Vec<IndicatorDot>,
    /// The current branch, under the name.
    pub branch: Option<String>,
    /// Whether the row can be activated and selected.
    pub selectable: bool,
}

/// The dirty dot of an indicator: yellow when tracked files changed, blue
/// when only untracked files are new; none when the repository is clean.
pub open spec fn dirty_dot_ok(ind: RepoIndicator, d: IndicatorDot) -> bool {
    &&& d.label@ == "●"@
    &&& d.css_class@ == if ind.has_tracked_changes {
        "gp-ind-yellow"@
    } else {
        "gp-ind-blue"@
    }
    &&& d.tooltip@ == if ind.has_tracked_changes {
        "Uncommitted changes"@
    } else {
        "Untracked files"@
    }
}

/// The green dot of `ahead` unpushed commits.
pub open spec fn ahead_dot_ok(ahead: usize, d: IndicatorDot) -> bool {
    &&& d.label@ == "●"@ + decimal(ahead as nat)
    &&& d.css_class@ == "gp-ind-green"@
    &&& d.tooltip@ == decimal(ahead as nat) + " unpushed commit(s)"@
}

/// The dots of an indicator, in order.
pub open spec fn dots_ok(ind: RepoIndicator, dots: Seq<IndicatorDot>) -> bool {
    if ind.is_dirty && ind.ahead > 0 {
        dots.len() == 2 && dirty_dot_ok(ind, dots[0]) && ahead_dot_ok(ind.ahead, dots[1])
    } else if ind.is_dirty {
        dots.len() == 1 && dirty_dot_ok(ind, dots[0])
    } else if ind.ahead > 0 {
        dots.len() == 1 && ahead_dot_ok(ind.ahead, dots[0])
    } else {
        dots.len() == 0
    }
}

/// The sidebar row of a workspace entry: a git icon for a repository and a
/// dimmed folder icon otherwise, the name, the status dots and the branch
/// of a repository with an indicator; only repositories can be selected.
pub fn create_repo_row(entry: &WorkspaceEntry) -> (r: RepoRow)
    ensures
        r.icon@ == if entry.is_git_repo {
            "git-symbolic"@
        } else {
            "folder-symbolic"@
        },
        r.dimmed == !entry.is_git_repo,
        r.name@ == entry.name@,
        r.selectable == entry.is_git_repo,
        match entry.indicator {
            Some(ind) => dots_ok(ind, r.dots@) && r.branch == ind.branch,
            None => r.dots@.len() == 0 && r.branch is None,
        },
{
    let mut dots: Vec<IndicatorDot> = Vec::new();
    let mut branch: Option<String> = None;
    if let Some(ind) = &entry.indicator {
        if ind.is_dirty {
            let (class, tooltip) = if ind.has_tracked_changes {
                ("gp-ind-yellow", "Uncommitted changes")
            } else {
                ("gp-ind-blue", "Untracked files")
            };
            dots.push(IndicatorDot { label: string_of(&chars_of("●")), css_class: class, tooltip: string_of(&chars_of(tooltip)) });
        }
        if ind.ahead > 0 {
            let mut label = chars_of("●");
            push_decimal(&mut label, ind.ahead as u64);
            let mut tip: Vec<char> = Vec::new();
            push_decimal(&mut tip, ind.ahead as u64);
            push_all(&mut tip, &chars_of(" unpushed commit(s)"));
            dots.push(IndicatorDot { label: string_of(&label), css_class: "gp-ind-green", tooltip: string_of(&tip) });
        }
        branch = ind.branch.clone();
    }
    RepoRow {
        icon: if entry.is_git_repo {
            "git-symbolic"
        } else {
            "folder-symbolic"
        },
        dimmed: !entry.is_git_repo,
        name: entry.name.clone(),
        dots,
        branch,
        selectable: entry.is_git_repo,
    }
}

} // verus!
