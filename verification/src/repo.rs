//! The decisions and texts of the repository operations: classifying file
//! statuses, naming refs, the checks before a checkout or a branch deletion,
//! `.gitignore` editing, the interactive-rebase todo list, worktree lists,
//! and what a failed `git` command reports.
use vstd::prelude::*;

use crate::models::{CommitInfo, FileStatus, FileStatusKind, RepoStatus, Signature};
use crate::text::{after_last, after_last_start, chars_of, push_all, push_range, string_of, trim, trim_bounds};

verus! {

broadcast use vstd::string::group_string_axioms;

// ---------------------------------------------------------------------------
// File status
// ---------------------------------------------------------------------------

/// git's status flags, as libgit2 numbers them.
pub const INDEX_NEW: u32 = 1;
pub const INDEX_MODIFIED: u32 = 2;
pub const INDEX_DELETED: u32 = 4;
pub const INDEX_RENAMED: u32 = 8;
pub const INDEX_TYPECHANGE: u32 = 16;
pub const WT_NEW: u32 = 128;
pub const WT_MODIFIED: u32 = 256;
pub const WT_DELETED: u32 = 512;
pub const WT_TYPECHANGE: u32 = 1024;
pub const WT_RENAMED: u32 = 2048;

pub open spec fn has_flag(bits: u32, flag: u32) -> bool {
    bits & flag != 0
}

/// How the index differs from HEAD for a file with status `bits`.
pub open spec fn staged_kind(bits: u32) -> Option<FileStatusKind> {
    if has_flag(bits, INDEX_NEW) {
        Some(FileStatusKind::New)
    } else if has_flag(bits, INDEX_MODIFIED) {
        Some(FileStatusKind::Modified)
    } else if has_flag(bits, INDEX_DELETED) {
        Some(FileStatusKind::Deleted)
    } else if has_flag(bits, INDEX_RENAMED) {
        Some(FileStatusKind::Renamed)
    } else if has_flag(bits, INDEX_TYPECHANGE) {
        Some(FileStatusKind::Typechange)
    } else {
        None
    }
}

/// How the working tree differs from the index for a tracked file.
pub open spec fn unstaged_kind(bits: u32) -> Option<FileStatusKind> {
    if has_flag(bits, WT_MODIFIED) {
        Some(FileStatusKind::Modified)
    } else if has_flag(bits, WT_DELETED) {
        Some(FileStatusKind::Deleted)
    } else if has_flag(bits, WT_RENAMED) {
        Some(FileStatusKind::Renamed)
    } else if has_flag(bits, WT_TYPECHANGE) {
        Some(FileStatusKind::Typechange)
    } else {
        None
    }
}

/// A status list as plain values.
pub open spec fn statuses_view(v: Seq<FileStatus>) -> Seq<(Seq<char>, FileStatusKind)> {
    v.map_values(|f: FileStatus| (f.path@, f.status))
}

pub open spec fn paths_view(v: Seq<String>) -> Seq<Seq<char>> {
    v.map_values(|s: String| s@)
}

/// The staged, unstaged and untracked lists for the first `n` status
/// entries `(path, bits)`, in entry order.
pub open spec fn classify(entries: Seq<(Seq<char>, u32)>, n: int) -> (
    Seq<(Seq<char>, FileStatusKind)>,
    Seq<(Seq<char>, FileStatusKind)>,
    Seq<Seq<char>>,
)
    decreases n,
{
    if n <= 0 {
        (Seq::empty(), Seq::empty(), Seq::empty())
    } else {
        let prev = classify(entries, n - 1);
        let (path, bits) = entries[n - 1];
        let staged = match staged_kind(bits) {
            Some(k) => prev.0.push((path, k)),
            None => prev.0,
        };
        let unstaged = match unstaged_kind(bits) {
            Some(k) => prev.1.push((path, k)),
            None => prev.1,
        };
        let untracked = if has_flag(bits, WT_NEW) {
            prev.2.push(path)
        } else {
            prev.2
        };
        (staged, unstaged, untracked)
    }
}

pub open spec fn entries_view(v: Seq<(String, u32)>) -> Seq<(Seq<char>, u32)> {
    v.map_values(|e: (String, u32)| (e.0@, e.1))
}

fn kind_staged(bits: u32) -> (r: Option<FileStatusKind>)
    ensures
        r == staged_kind(bits),
{
    if bits & INDEX_NEW != 0 {
        Some(FileStatusKind::New)
    } else if bits & INDEX_MODIFIED != 0 {
        Some(FileStatusKind::Modified)
    } else if bits & INDEX_DELETED != 0 {
        Some(FileStatusKind::Deleted)
    } else if bits & INDEX_RENAMED != 0 {
        Some(FileStatusKind::Renamed)
    } else if bits & INDEX_TYPECHANGE != 0 {
        Some(FileStatusKind::Typechange)
    } else {
        None
    }
}

fn kind_unstaged(bits: u32) -> (r: Option<FileStatusKind>)
    ensures
        r == unstaged_kind(bits),
{
    if bits & WT_MODIFIED != 0 {
        Some(FileStatusKind::Modified)
    } else if bits & WT_DELETED != 0 {
        Some(FileStatusKind::Deleted)
    } else if bits & WT_RENAMED != 0 {
        Some(FileStatusKind::Renamed)
    } else if bits & WT_TYPECHANGE != 0 {
        Some(FileStatusKind::Typechange)
    } else {
        None
    }
}

/// Sorts status entries `(path, status bits)` into the staged, unstaged and
/// untracked lists. A file can be in the staged list and in one of the
/// other two.
pub fn classify_status(entries: &[(String, u32)]) -> (r: RepoStatus)
    ensures
        (statuses_view(r.staged@), statuses_view(r.unstaged@), paths_view(r.untracked@)) == classify(
            entries_view(entries@),
            entries@.len() as int,
        ),
{
    let ghost ev = entries_view(entries@);
    let mut staged: Vec<FileStatus> = Vec::new();
    let mut unstaged: Vec<FileStatus> = Vec::new();
    let mut untracked: Vec<String> = Vec::new();
    let mut i: usize = 0;
    assert(statuses_view(staged@) == Seq::<(Seq<char>, FileStatusKind)>::empty());
    assert(statuses_view(unstaged@) == Seq::<(Seq<char>, FileStatusKind)>::empty());
    assert(paths_view(untracked@) == Seq::<Seq<char>>::empty());
    while i < entries.len()
        invariant
            i <= entries.len(),
            ev == entries_view(entries@),
            (statuses_view(staged@), statuses_view(unstaged@), paths_view(untracked@)) == classify(
                ev,
                i as int,
            ),
        decreases entries.len() - i,
    {
        let (path, bits) = &entries[i];
        let bits = *bits;
        let ghost s0 = staged@;
        let ghost u0 = unstaged@;
        let ghost t0 = untracked@;
        assert(ev[i as int] == (path@, bits));
        match kind_staged(bits) {
            Some(k) => {
                staged.push(FileStatus { path: path.clone(), status: k });
                assert(statuses_view(staged@) == statuses_view(s0).push((path@, k)));
            },
            None => {},
        }
        match kind_unstaged(bits) {
            Some(k) => {
                unstaged.push(FileStatus { path: path.clone(), status: k });
                assert(statuses_view(unstaged@) == statuses_view(u0).push((path@, k)));
            },
            None => {},
        }
        if bits & WT_NEW != 0 {
            untracked.push(path.clone());
            assert(paths_view(untracked@) == paths_view(t0).push(path@));
        }
        i = i + 1;
    }
    RepoStatus { staged, unstaged, untracked }
}

/// Whether a file with status `bits` stands in the way of a checkout: a new,
/// modified or deleted file in the index, or a modified or deleted file in
/// the working tree. Untracked files do not.
pub open spec fn blocks_checkout(bits: u32) -> bool {
    has_flag(bits, INDEX_NEW | INDEX_MODIFIED | INDEX_DELETED | WT_MODIFIED | WT_DELETED)
}

/// Whether any of the status entries stands in the way of a checkout.
pub fn has_uncommitted_changes(statuses: &[u32]) -> (r: bool)
    ensures
        r == exists|k: int| 0 <= k < statuses@.len() && blocks_checkout(#[trigger] statuses@[k]),
{
    let mask: u32 = INDEX_NEW | INDEX_MODIFIED | INDEX_DELETED | WT_MODIFIED | WT_DELETED;
    let mut k: usize = 0;
    while k < statuses.len()
        invariant
            k <= statuses.len(),
            mask == INDEX_NEW | INDEX_MODIFIED | INDEX_DELETED | WT_MODIFIED | WT_DELETED,
            forall|t: int| 0 <= t < k ==> !blocks_checkout(#[trigger] statuses@[t]),
        decreases statuses.len() - k,
    {
        if statuses[k] & mask != 0 {
            assert(blocks_checkout(statuses@[k as int]));
            return true;
        }
        k = k + 1;
    }
    false
}

/// The index flags of a status: the low five bits.
pub open spec fn index_bits(bits: u32) -> u32 {
    bits & 31u32
}

/// Whether the index changed a file, and how git reports it: new over
/// modified over deleted over renamed over a type change, going by the
/// first of these flags that is set.
pub open spec fn index_change_is(bits: u32, k: FileStatusKind) -> bool {
    &&& (k == FileStatusKind::New <==> bits & 1u32 != 0)
    &&& (k == FileStatusKind::Modified <==> bits & 1u32 == 0 && bits & 2u32 != 0)
    &&& (k == FileStatusKind::Deleted <==> bits & 3u32 == 0 && bits & 4u32 != 0)
    &&& (k == FileStatusKind::Renamed <==> bits & 7u32 == 0 && bits & 8u32 != 0)
    &&& (k == FileStatusKind::Typechange <==> bits & 15u32 == 0 && bits & 16u32 != 0)
}

proof fn lemma_index_flags(bits: u32)
    ensures
        (bits & 31u32 != 0) == (bits & 1u32 != 0 || bits & 2u32 != 0 || bits & 4u32 != 0 || bits & 8u32 != 0
            || bits & 16u32 != 0),
        (bits & 3u32 == 0) == (bits & 1u32 == 0 && bits & 2u32 == 0),
        (bits & 7u32 == 0) == (bits & 3u32 == 0 && bits & 4u32 == 0),
        (bits & 15u32 == 0) == (bits & 7u32 == 0 && bits & 8u32 == 0),
{
    assert((bits & 31u32 != 0) == (bits & 1u32 != 0 || bits & 2u32 != 0 || bits & 4u32 != 0 || bits & 8u32
        != 0 || bits & 16u32 != 0)) by (bit_vector);
    assert((bits & 3u32 == 0) == (bits & 1u32 == 0 && bits & 2u32 == 0)) by (bit_vector);
    assert((bits & 7u32 == 0) == (bits & 3u32 == 0 && bits & 4u32 == 0)) by (bit_vector);
    assert((bits & 15u32 == 0) == (bits & 7u32 == 0 && bits & 8u32 == 0)) by (bit_vector);
}

/// The entries whose index changed: some index flag is set.
pub open spec fn index_changed(e: (Seq<char>, u32)) -> bool {
    index_bits(e.1) != 0
}

/// The staged list holds exactly the entries whose index changed, each once
/// and in entry order, each with the kind that its first set index flag
/// names; a file removed with `git rm` (only `INDEX_DELETED`) is staged as
/// deleted.
pub proof fn law_staged_list_is_index_changes(entries: Seq<(Seq<char>, u32)>, n: int)
    requires
        0 <= n <= entries.len(),
    ensures
        ({
            let st = classify(entries, n).0;
            let ch = entries.take(n).filter(|e: (Seq<char>, u32)| index_changed(e));
            &&& st.len() == ch.len()
            &&& forall|j: int|
                0 <= j < st.len() ==> (#[trigger] st[j]).0 == ch[j].0 && index_change_is(ch[j].1, st[j].1)
        }),
    decreases n,
{
    reveal(Seq::filter);
    if n > 0 {
        law_staged_list_is_index_changes(entries, n - 1);
        let pred = |e: (Seq<char>, u32)| index_changed(e);
        let t = entries.take(n);
        assert(t.drop_last() == entries.take(n - 1));
        assert(t.last() == entries[n - 1]);
        let bits = entries[n - 1].1;
        lemma_index_flags(bits);
        let st = classify(entries, n).0;
        let sp = classify(entries, n - 1).0;
        let ch = t.filter(pred);
        let cp = entries.take(n - 1).filter(pred);
        assert(ch == if pred(t.last()) {
            cp.push(t.last())
        } else {
            cp
        });
        if index_changed(entries[n - 1]) {
            assert(staged_kind(bits) is Some);
            assert(st == sp.push((entries[n - 1].0, staged_kind(bits)->0)));
            assert forall|j: int| 0 <= j < st.len() implies (#[trigger] st[j]).0 == ch[j].0 && index_change_is(
                ch[j].1,
                st[j].1,
            ) by {
                if j < sp.len() {
                    assert(st[j] == sp[j]);
                    assert(ch[j] == cp[j]);
                }
            }
        } else {
            assert(staged_kind(bits) is None);
            assert(st == sp);
        }
    }
}

/// Whether the working tree changed a tracked file, and how git reports
/// it: modified over deleted over renamed over a type change, going by the
/// first of these flags that is set.
pub open spec fn worktree_change_is(bits: u32, k: FileStatusKind) -> bool {
    &&& k != FileStatusKind::New
    &&& (k == FileStatusKind::Modified <==> bits & 256u32 != 0)
    &&& (k == FileStatusKind::Deleted <==> bits & 256u32 == 0 && bits & 512u32 != 0)
    &&& (k == FileStatusKind::Renamed <==> bits & 768u32 == 0 && bits & 2048u32 != 0)
    &&& (k == FileStatusKind::Typechange <==> bits & 2816u32 == 0 && bits & 1024u32 != 0)
}

/// The entries whose tracked file changed in the working tree.
pub open spec fn worktree_changed(e: (Seq<char>, u32)) -> bool {
    e.1 & 3840u32 != 0
}

/// The entries of untracked files.
pub open spec fn is_untracked(e: (Seq<char>, u32)) -> bool {
    e.1 & 128u32 != 0
}

proof fn lemma_worktree_flags(bits: u32)
    ensures
        (bits & 3840u32 != 0) == (bits & 256u32 != 0 || bits & 512u32 != 0 || bits & 1024u32 != 0 || bits
            & 2048u32 != 0),
        (bits & 768u32 == 0) == (bits & 256u32 == 0 && bits & 512u32 == 0),
        (bits & 2816u32 == 0) == (bits & 768u32 == 0 && bits & 2048u32 == 0),
{
    assert((bits & 3840u32 != 0) == (bits & 256u32 != 0 || bits & 512u32 != 0 || bits & 1024u32 != 0
        || bits & 2048u32 != 0)) by (bit_vector);
    assert((bits & 768u32 == 0) == (bits & 256u32 == 0 && bits & 512u32 == 0)) by (bit_vector);
    assert((bits & 2816u32 == 0) == (bits & 768u32 == 0 && bits & 2048u32 == 0)) by (bit_vector);
}

/// The unstaged list holds exactly the entries whose tracked file changed
/// in the working tree, in entry order, each with the kind that its first
/// set working-tree flag names; the untracked list holds exactly the paths
/// of the entries flagged `WT_NEW`, in entry order.
pub proof fn law_unstaged_and_untracked_lists(entries: Seq<(Seq<char>, u32)>, n: int)
    requires
        0 <= n <= entries.len(),
    ensures
        ({
            let un = classify(entries, n).1;
            let ch = entries.take(n).filter(|e: (Seq<char>, u32)| worktree_changed(e));
            &&& un.len() == ch.len()
            &&& forall|j: int|
                0 <= j < un.len() ==> (#[trigger] un[j]).0 == ch[j].0 && worktree_change_is(ch[j].1, un[j].1)
        }),
        classify(entries, n).2 == entries.take(n).filter(|e: (Seq<char>, u32)| is_untracked(e)).map_values(
            |e: (Seq<char>, u32)| e.0,
        ),
    decreases n,
{
    reveal(Seq::filter);
    if n > 0 {
        law_unstaged_and_untracked_lists(entries, n - 1);
        let pred = |e: (Seq<char>, u32)| worktree_changed(e);
        let upred = |e: (Seq<char>, u32)| is_untracked(e);
        let t = entries.take(n);
        assert(t.drop_last() == entries.take(n - 1));
        assert(t.last() == entries[n - 1]);
        let bits = entries[n - 1].1;
        lemma_worktree_flags(bits);
        let un = classify(entries, n).1;
        let up = classify(entries, n - 1).1;
        let ch = t.filter(pred);
        let cp = entries.take(n - 1).filter(pred);
        assert(ch == if pred(t.last()) {
            cp.push(t.last())
        } else {
            cp
        });
        if worktree_changed(entries[n - 1]) {
            assert(unstaged_kind(bits) is Some);
            assert(un == up.push((entries[n - 1].0, unstaged_kind(bits)->0)));
            assert forall|j: int| 0 <= j < un.len() implies (#[trigger] un[j]).0 == ch[j].0
                && worktree_change_is(ch[j].1, un[j].1) by {
                if j < up.len() {
                    assert(un[j] == up[j]);
                    assert(ch[j] == cp[j]);
                }
            }
        } else {
            assert(unstaged_kind(bits) is None);
            assert(un == up);
        }
        let uc = t.filter(upred);
        let ucp = entries.take(n - 1).filter(upred);
        assert(uc == if upred(t.last()) {
            ucp.push(t.last())
        } else {
            ucp
        });
        if is_untracked(entries[n - 1]) {
            assert(uc.map_values(|e: (Seq<char>, u32)| e.0) =~= ucp.map_values(|e: (Seq<char>, u32)| e.0).push(
                entries[n - 1].0,
            ));
        } else {
            assert(uc == ucp);
        }
    }
}

/// A status entry stops a checkout exactly when one of its flags says that
/// the index holds a new, modified or deleted file, or that the working tree
/// holds a modified or deleted tracked file; untracked files (`WT_NEW`)
/// alone do not. So `has_uncommitted_changes` is true exactly when some
/// entry has one of these five flags.
pub proof fn law_checkout_blockers(statuses: Seq<u32>)
    ensures
        (exists|k: int| 0 <= k < statuses.len() && blocks_checkout(#[trigger] statuses[k])) <==> (exists|k: int|
            0 <= k < statuses.len() && (#[trigger] statuses[k] & INDEX_NEW != 0 || statuses[k] & INDEX_MODIFIED
                != 0 || statuses[k] & INDEX_DELETED != 0 || statuses[k] & WT_MODIFIED != 0 || statuses[k]
                & WT_DELETED != 0)),
        forall|bits: u32|
            #![trigger blocks_checkout(bits)]
            blocks_checkout(bits) <==> (bits & 1u32 != 0 || bits & 2u32 != 0 || bits & 4u32 != 0 || bits
                & 256u32 != 0 || bits & 512u32 != 0),
{
    assert(1u32 | 2u32 | 4u32 | 256u32 | 512u32 == 775u32) by (bit_vector);
    assert forall|bits: u32| #![trigger blocks_checkout(bits)] blocks_checkout(bits) <==> (bits & 1u32 != 0
        || bits & 2u32 != 0 || bits & 4u32 != 0 || bits & 256u32 != 0 || bits & 512u32 != 0) by {
        assert((bits & 775u32 != 0) == (bits & 1u32 != 0 || bits & 2u32 != 0 || bits & 4u32 != 0 || bits
            & 256u32 != 0 || bits & 512u32 != 0)) by (bit_vector);
    }
}

/// Whether a repository has any change: staged, unstaged or untracked.
pub open spec fn dirty(s: RepoStatus) -> bool {
    s.staged@.len() > 0 || s.unstaged@.len() > 0 || s.untracked@.len() > 0
}

pub fn is_dirty(status: &RepoStatus) -> (r: bool)
    ensures
        r == dirty(*status),
{
    !status.unstaged.is_empty() || !status.untracked.is_empty() || !status.staged.is_empty()
}

// ---------------------------------------------------------------------------
// Ref names and messages
// ---------------------------------------------------------------------------

fn concat3(a: &str, b: &str, c: &str) -> (r: String)
    ensures
        r@ == a@ + b@ + c@,
{
    let mut out: Vec<char> = Vec::new();
    push_all(&mut out, &chars_of(a));
    push_all(&mut out, &chars_of(b));
    push_all(&mut out, &chars_of(c));
    string_of(&out)
}

fn concat2(a: &str, b: &str) -> (r: String)
    ensures
        r@ == a@ + b@,
{
    let mut out: Vec<char> = Vec::new();
    push_all(&mut out, &chars_of(a));
    push_all(&mut out, &chars_of(b));
    string_of(&out)
}

/// The remote-tracking ref that `branch` is compared with for ahead/behind
/// counts: `refs/remotes/origin/<branch>`.
pub fn upstream_ref_name(branch: &str) -> (r: String)
    ensures
        r@ == "refs/remotes/origin/"@ + branch@,
{
    concat2("refs/remotes/origin/", branch)
}

/// The ref of a remote-tracking branch such as `origin/feature`.
pub fn remote_ref_name(remote_name: &str) -> (r: String)
    ensures
        r@ == "refs/remotes/"@ + remote_name@,
{
    concat2("refs/remotes/", remote_name)
}

/// The ref of a local branch.
pub fn local_ref_name(name: &str) -> (r: String)
    ensures
        r@ == "refs/heads/"@ + name@,
{
    concat2("refs/heads/", name)
}

/// The index of the first `/` in `s`.
pub open spec fn first_slash(s: Seq<char>, i: int) -> Option<int>
    decreases s.len() - i,
{
    if i < 0 || i >= s.len() {
        None
    } else if s[i] == '/' {
        Some(i)
    } else {
        first_slash(s, i + 1)
    }
}

/// The local name for a remote-tracking branch: what follows the first `/`
/// (`origin/feature` gives `feature`), or the whole name when there is none.
pub open spec fn local_name_of(remote_name: Seq<char>) -> Seq<char> {
    match first_slash(remote_name, 0) {
        Some(k) => remote_name.subrange(k + 1, remote_name.len() as int),
        None => remote_name,
    }
}

pub fn local_branch_name(remote_name: &str) -> (r: String)
    ensures
        r@ == local_name_of(remote_name@),
{
    let v = chars_of(remote_name);
    let mut k: usize = 0;
    while k < v.len() && v[k] != '/'
        invariant
            k <= v.len(),
            v@ == remote_name@,
            first_slash(v@, 0) == first_slash(v@, k as int),
        decreases v.len() - k,
    {
        k = k + 1;
    }
    if k < v.len() {
        let mut out: Vec<char> = Vec::new();
        crate::text::push_range(&mut out, &v, k + 1, v.len());
        string_of(&out)
    } else {
        remote_name.to_owned()
    }
}

/// The first seven characters of a commit id (all of it when shorter).
pub open spec fn short_of(id: Seq<char>) -> Seq<char> {
    if id.len() <= 7 {
        id
    } else {
        id.subrange(0, 7)
    }
}

/// The short form of a commit id. Ids are hexadecimal, so the first seven
/// characters are also the first seven bytes.
pub fn short_id(id: &str) -> (r: String)
    ensures
        r@ == short_of(id@),
{
    let v = chars_of(id);
    if v.len() <= 7 {
        return id.to_owned();
    }
    let mut out: Vec<char> = Vec::new();
    crate::text::push_range(&mut out, &v, 0, 7);
    string_of(&out)
}

/// The report after creating a branch at the commit `commit_id`.
pub fn created_branch_message(name: &str, commit_id: &str) -> (r: String)
    ensures
        r@ == "Created branch '"@ + name@ + "' at "@ + short_of(commit_id@),
{
    let mut out: Vec<char> = Vec::new();
    push_all(&mut out, &chars_of("Created branch '"));
    push_all(&mut out, &chars_of(name));
    push_all(&mut out, &chars_of("' at "));
    let s = short_id(commit_id);
    push_all(&mut out, &chars_of(s.as_str()));
    string_of(&out)
}

/// Why a branch may not be deleted: it is the one checked out.
pub fn deletes_current_branch(head_is_branch: bool, head_name: Option<&str>, name: &str) -> (r: bool)
    ensures
        r == (head_is_branch && head_name is Some && head_name->0@ == name@),
{
    if head_is_branch {
        match head_name {
            Some(h) => str_eq(h, name),
            None => false,
        }
    } else {
        false
    }
}

/// Whether two texts are equal.
pub fn str_eq(a: &str, b: &str) -> (r: bool)
    ensures
        r == (a@ == b@),
{
    let x = chars_of(a);
    let y = chars_of(b);
    if x.len() != y.len() {
        return false;
    }
    let mut k: usize = 0;
    while k < x.len()
        invariant
            x.len() == y.len(),
            k <= x.len(),
            x@ == a@,
            y@ == b@,
            forall|t: int| 0 <= t < k ==> x@[t] == y@[t],
        decreases x.len() - k,
    {
        if x[k] != y[k] {
            return false;
        }
        k = k + 1;
    }
    assert(x@ == y@);
    true
}

/// Whether a branch may be deleted: always when forced, otherwise only when
/// it is merged (its tip is HEAD or an ancestor of HEAD). Deleting an
/// unmerged branch takes `force`.
pub fn should_delete_branch(force: bool, merged: bool) -> (r: bool)
    ensures
        r == (force || merged),
{
    force || merged
}

// ---------------------------------------------------------------------------
// .gitignore
// ---------------------------------------------------------------------------

/// `content` with `pattern` appended on a line of its own.
pub open spec fn with_pattern(content: Seq<char>, pattern: Seq<char>) -> Seq<char> {
    let base = if content.len() > 0 && content.last() != '\n' {
        content.push('\n')
    } else {
        content
    };
    base + pattern + seq!['\n']
}

/// Appends a pattern to the text of a `.gitignore`, on a new line of its own
/// and with a trailing newline.
pub fn append_ignore_pattern(content: &str, pattern: &str) -> (r: String)
    ensures
        r@ == with_pattern(content@, pattern@),
{
    let mut out = chars_of(content);
    if out.len() > 0 && out[out.len() - 1] != '\n' {
        out.push('\n');
    }
    push_all(&mut out, &chars_of(pattern));
    out.push('\n');
    string_of(&out)
}

/// Appending a pattern keeps everything that was there, and the result ends
/// with the pattern on its own line.
pub proof fn law_append_keeps_content(content: Seq<char>, pattern: Seq<char>)
    ensures
        with_pattern(content, pattern).subrange(0, content.len() as int) == content,
        with_pattern(content, pattern).subrange(
            with_pattern(content, pattern).len() - pattern.len() - 1,
            with_pattern(content, pattern).len() as int,
        ) == pattern.push('\n'),
        with_pattern(content, pattern).len() - pattern.len() - 1 == 0 || with_pattern(
            content,
            pattern,
        )[with_pattern(content, pattern).len() - pattern.len() - 2] == '\n',
{
    let r = with_pattern(content, pattern);
    let base = if content.len() > 0 && content.last() != '\n' {
        content.push('\n')
    } else {
        content
    };
    assert(r == base + pattern + seq!['\n']);
    assert(r.subrange(0, content.len() as int) == content);
    assert(r.subrange(r.len() - pattern.len() - 1, r.len() as int) == pattern.push('\n'));
    if base.len() > 0 {
        assert(r[base.len() - 1] == base.last());
    }
}

// ---------------------------------------------------------------------------
// Interactive rebase
// ---------------------------------------------------------------------------

/// What to do with a commit in an interactive rebase.
#[derive(Debug, Clone, Copy, PartialEq, Eq, Structural)]
pub enum RebaseAction {
    Pick,
    Squash,
    Fixup,
    Reword,
    Edit,
    Drop,
}

/// One line of an interactive-rebase todo list.
#[derive(Debug, Clone)]
pub struct RebaseEntry {
    pub commit_id: String,
    pub short_id: String,
    pub message: String,
    pub action: RebaseAction,
}

/// The word git uses for an action.
pub open spec fn action_word(a: RebaseAction) -> Seq<char> {
    match a {
        RebaseAction::Pick => "pick"@,
        RebaseAction::Squash => "squash"@,
        RebaseAction::Fixup => "fixup"@,
        RebaseAction::Reword => "reword"@,
        RebaseAction::Edit => "edit"@,
        RebaseAction::Drop => "drop"@,
    }
}

fn action_text(a: RebaseAction) -> (r: &'static str)
    ensures
        r@ == action_word(a),
{
    match a {
        RebaseAction::Pick => "pick",
        RebaseAction::Squash => "squash",
        RebaseAction::Fixup => "fixup",
        RebaseAction::Reword => "reword",
        RebaseAction::Edit => "edit",
        RebaseAction::Drop => "drop",
    }
}

/// One todo line: `<action> <short id> <message>`.
pub open spec fn todo_line(e: RebaseEntry) -> Seq<char> {
    action_word(e.action) + seq![' '] + e.short_id@ + seq![' '] + e.message@
}

/// The todo lines of the first `n` entries joined by `\n` (no trailing one).
pub open spec fn todo_text(es: Seq<RebaseEntry>, n: int) -> Seq<char>
    decreases n,
{
    if n <= 0 {
        Seq::empty()
    } else if n == 1 {
        todo_line(es[0])
    } else {
        todo_text(es, n - 1) + seq!['\n'] + todo_line(es[n - 1])
    }
}

/// The todo list that drives `git rebase -i`.
pub fn rebase_todo(entries: &[RebaseEntry]) -> (r: String)
    ensures
        r@ == todo_text(entries@, entries@.len() as int),
{
    let mut out: Vec<char> = Vec::new();
    let mut i: usize = 0;
    while i < entries.len()
        invariant
            i <= entries.len(),
            out@ == todo_text(entries@, i as int),
        decreases entries.len() - i,
    {
        if i > 0 {
            out.push('\n');
        }
        let e = &entries[i];
        push_all(&mut out, &chars_of(action_text(e.action)));
        out.push(' ');
        push_all(&mut out, &chars_of(e.short_id.as_str()));
        out.push(' ');
        push_all(&mut out, &chars_of(e.message.as_str()));
        i = i + 1;
    }
    string_of(&out)
}

/// The todo entries for commits listed newest first: oldest first, each
/// picked, with its summary as message.
pub open spec fn entries_for(cs: Seq<CommitInfo>) -> Seq<(Seq<char>, Seq<char>, Seq<char>, RebaseAction)> {
    Seq::new(
        cs.len(),
        |k: int|
            {
                let c = cs[cs.len() - 1 - k];
                (c.id@, c.short_id@, c.summary@, RebaseAction::Pick)
            },
    )
}

pub open spec fn rebase_view(es: Seq<RebaseEntry>) -> Seq<(Seq<char>, Seq<char>, Seq<char>, RebaseAction)> {
    es.map_values(|e: RebaseEntry| (e.commit_id@, e.short_id@, e.message@, e.action))
}

/// The entries of a rebase over `commits` (newest first, as the log lists
/// them): in todo order, oldest first, all picked.
pub fn rebase_entries(commits: &[CommitInfo]) -> (r: Vec<RebaseEntry>)
    ensures
        rebase_view(r@) == entries_for(commits@),
{
    let mut out: Vec<RebaseEntry> = Vec::new();
    let mut k = commits.len();
    while k > 0
        invariant
            k <= commits.len(),
            out@.len() == commits.len() - k,
            forall|t: int|
                0 <= t < out@.len() ==> #[trigger] rebase_view(out@)[t] == entries_for(commits@)[t],
        decreases k,
    {
        k = k - 1;
        let c = &commits[k];
        let ghost before = out@;
        out.push(
            RebaseEntry {
                commit_id: c.id.clone(),
                short_id: c.short_id.clone(),
                message: c.summary.clone(),
                action: RebaseAction::Pick,
            },
        );
        proof {
            assert forall|t: int| 0 <= t < out@.len() implies #[trigger] rebase_view(out@)[t]
                == entries_for(commits@)[t] by {
                if t < before.len() {
                    assert(out@[t] == before[t]);
                    assert(rebase_view(before)[t] == entries_for(commits@)[t]);
                }
            }
        }
    }
    assert(rebase_view(out@) == entries_for(commits@));
    out
}

// ---------------------------------------------------------------------------
// git command results
// ---------------------------------------------------------------------------

/// How long a `git` command may run before it is given up, in milliseconds.
pub const GIT_TIMEOUT_MS: u64 = 30000;

/// What to do next while a `git` command runs.
#[derive(Debug, Clone, Copy, PartialEq, Eq, Structural)]
pub enum GitWait {
    /// It has exited: take its result.
    Finished,
    /// Check again a little later.
    KeepWaiting,
    /// It has run for 30 seconds: stop it and report a timeout.
    GiveUp,
}

/// The decision at each check on a running `git` command that has run for
/// `elapsed_ms` milliseconds: its result once it has exited; given up once
/// it has run for `GIT_TIMEOUT_MS`; otherwise wait.
pub fn git_wait(exited: bool, elapsed_ms: u64) -> (r: GitWait)
    ensures
        r == if exited {
            GitWait::Finished
        } else if elapsed_ms >= GIT_TIMEOUT_MS {
            GitWait::GiveUp
        } else {
            GitWait::KeepWaiting
        },
{
    if exited {
        GitWait::Finished
    } else if elapsed_ms >= GIT_TIMEOUT_MS {
        GitWait::GiveUp
    } else {
        GitWait::KeepWaiting
    }
}

/// The text a failed `git` command reports: its trimmed standard error, or
/// its trimmed standard output when standard error is blank.
pub open spec fn failure_text(stdout: Seq<char>, stderr: Seq<char>) -> Seq<char> {
    if trim(stderr).len() == 0 {
        trim(stdout)
    } else {
        trim(stderr)
    }
}

pub(crate) fn trimmed(s: &str) -> (r: String)
    ensures
        r@ == trim(s@),
{
    let v = chars_of(s);
    let (a, b) = trim_bounds(&v, 0, v.len());
    assert(v@.subrange(0, v.len() as int) == v@);
    let mut out: Vec<char> = Vec::new();
    crate::text::push_range(&mut out, &v, a, b);
    string_of(&out)
}

/// The error text of a failed `git` command (rebase, worktree, remote
/// operations).
pub fn failure_message(stdout: &str, stderr: &str) -> (r: String)
    ensures
        r@ == failure_text(stdout@, stderr@),
{
    let e = trimmed(stderr);
    if e.as_str().is_empty() {
        trimmed(stdout)
    } else {
        e
    }
}

/// The result of an interactive rebase run by `git rebase -i`: `Rebase
/// completed` when git succeeded, else the text it reported (see
/// `failure_text`).
pub fn rebase_outcome(success: bool, stdout: &str, stderr: &str) -> (r: Result<String, String>)
    ensures
        match r {
            Ok(s) => success && s@ == "Rebase completed"@,
            Err(e) => !success && e@ == failure_text(stdout@, stderr@),
        },
{
    if success {
        Ok("Rebase completed".to_owned())
    } else {
        Err(failure_message(stdout, stderr))
    }
}

/// The editor that an interactive rebase runs on its todo list: a shell
/// script that copies the prepared list at `todo_path` over the one git
/// hands it.
pub fn rebase_editor_script(todo_path: &str) -> (r: String)
    ensures
        r@ == "#!/bin/sh\ncp '"@ + todo_path@ + "' \"$1\"\n"@,
{
    let mut out = chars_of("#!/bin/sh\ncp '");
    push_all(&mut out, &chars_of(todo_path));
    push_all(&mut out, &chars_of("' \"$1\"\n"));
    string_of(&out)
}

/// The result of a `git` command that reports `ok` on success and its
/// trimmed standard error on failure (merge and rebase continue/abort).
pub fn command_outcome(success: bool, stderr: &str, ok: &str) -> (r: Result<String, String>)
    ensures
        match r {
            Ok(s) => success && s@ == ok@,
            Err(e) => !success && e@ == trim(stderr@),
        },
{
    if success {
        Ok(ok.to_owned())
    } else {
        Err(trimmed(stderr))
    }
}

// ---------------------------------------------------------------------------
// Cloning
// ---------------------------------------------------------------------------

/// `s` without its trailing `/` characters.
pub open spec fn trim_trailing_slashes(s: Seq<char>) -> Seq<char>
    decreases s.len(),
{
    if s.len() > 0 && s.last() == '/' {
        trim_trailing_slashes(s.drop_last())
    } else {
        s
    }
}

/// `s` without the `.git` suffixes it ends with, however many.
pub open spec fn strip_git_suffixes(s: Seq<char>) -> Seq<char>
    decreases s.len(),
{
    if s.len() >= 4 && s.subrange(s.len() - 4, s.len() as int) == ".git"@ {
        strip_git_suffixes(s.subrange(0, s.len() - 4))
    } else {
        s
    }
}

/// The folder that `git clone <url>` creates: the last path segment of the
/// URL, without trailing slashes and without its `.git` suffix.
pub open spec fn clone_name(url: Seq<char>) -> Seq<char> {
    strip_git_suffixes(after_last(trim_trailing_slashes(url), '/'))
}

/// Whether `v@[lo..hi]` ends with `.git`.
fn ends_with_git(v: &Vec<char>, lo: usize, hi: usize) -> (r: bool)
    requires
        lo <= hi <= v.len(),
    ensures
        r == (hi - lo >= 4 && v@.subrange(lo as int, hi as int).subrange(hi - lo - 4, hi - lo) == ".git"@),
{
    proof {
        reveal_strlit(".git");
    }
    if hi - lo < 4 {
        return false;
    }
    let r = v[hi - 4] == '.' && v[hi - 3] == 'g' && v[hi - 2] == 'i' && v[hi - 1] == 't';
    proof {
        let t = v@.subrange(lo as int, hi as int).subrange(hi - lo - 4, hi - lo);
        assert(t == v@.subrange(hi - 4, hi as int));
        if r {
            assert(t =~= ".git"@);
        } else if t == ".git"@ {
            assert(t[0] == '.' && t[1] == 'g' && t[2] == 'i' && t[3] == 't');
        }
    }
    r
}

/// The folder name that cloning `url` gives (see `clone_name`).
pub fn clone_target_name(url: &str) -> (r: String)
    ensures
        r@ == clone_name(url@),
{
    let v = chars_of(url);
    let mut hi = v.len();
    assert(v@.subrange(0, hi as int) == v@);
    while hi > 0 && v[hi - 1] == '/'
        invariant
            hi <= v.len(),
            trim_trailing_slashes(v@) == trim_trailing_slashes(v@.subrange(0, hi as int)),
        decreases hi,
    {
        assert(v@.subrange(0, hi as int).drop_last() == v@.subrange(0, hi - 1));
        hi = hi - 1;
    }
    proof {
        let p = v@.subrange(0, hi as int);
        if hi > 0 {
            assert(p.last() == v@[hi - 1]);
        }
    }
    let mut head: Vec<char> = Vec::new();
    push_range(&mut head, &v, 0, hi);
    let start = after_last_start(&head, '/');
    let mut end = head.len();
    assert(head@.subrange(start as int, end as int) == after_last(head@, '/'));
    while ends_with_git(&head, start, end)
        invariant
            start <= end <= head.len(),
            strip_git_suffixes(after_last(head@, '/')) == strip_git_suffixes(
                head@.subrange(start as int, end as int),
            ),
        decreases end,
    {
        assert(head@.subrange(start as int, end as int).subrange(0, end - start - 4) == head@.subrange(
            start as int,
            end - 4,
        ));
        end = end - 4;
    }
    let mut out: Vec<char> = Vec::new();
    push_range(&mut out, &head, start, end);
    string_of(&out)
}

// ---------------------------------------------------------------------------
// Worktrees
// ---------------------------------------------------------------------------

/// A worktree of the repository.
#[derive(Debug, Clone)]
pub struct WorktreeInfo {
    pub name: String,
    pub path: String,
    pub is_current: bool,
}

pub open spec fn worktrees_view(v: Seq<WorktreeInfo>) -> Seq<(Seq<char>, Seq<char>, bool)> {
    v.map_values(|w: WorktreeInfo| (w.name@, w.path@, w.is_current))
}

/// The worktree list: the main worktree (current, named `main`) first, then
/// each linked worktree `(name, path)` found.
pub fn worktree_list(current_path: &str, linked: &[(String, String)]) -> (r: Vec<WorktreeInfo>)
    ensures
        worktrees_view(r@) == seq![("main"@, current_path@, true)] + linked@.map_values(
            |l: (String, String)| (l.0@, l.1@, false),
        ),
{
    let mut out: Vec<WorktreeInfo> = Vec::new();
    out.push(
        WorktreeInfo {
            name: string_of(&chars_of("main")),
            path: current_path.to_owned(),
            is_current: true,
        },
    );
    let ghost tail = linked@.map_values(|l: (String, String)| (l.0@, l.1@, false));
    let mut i: usize = 0;
    while i < linked.len()
        invariant
            i <= linked.len(),
            tail == linked@.map_values(|l: (String, String)| (l.0@, l.1@, false)),
            worktrees_view(out@) == seq![("main"@, current_path@, true)] + tail.take(i as int),
        decreases linked.len() - i,
    {
        let (name, path) = &linked[i];
        let ghost before = worktrees_view(out@);
        out.push(WorktreeInfo { name: name.clone(), path: path.clone(), is_current: false });
        assert(worktrees_view(out@) == before.push((name@, path@, false)));
        assert(tail.take(i + 1) == tail.take(i as int).push(tail[i as int]));
        i = i + 1;
    }
    assert(tail.take(linked.len() as int) == tail);
    out
}

/// The arguments of `git worktree add`: `-b <branch>` when a new branch is
/// wanted, then the path.
pub fn worktree_add_args(path: &str, branch: Option<&str>) -> (r: Vec<String>)
    ensures
        r@.map_values(|s: String| s@) == match branch {
            Some(b) => seq!["worktree"@, "add"@, "-b"@, b@, path@],
            None => seq!["worktree"@, "add"@, path@],
        },
{
    let mut args: Vec<String> = Vec::new();
    args.push(string_of(&chars_of("worktree")));
    args.push(string_of(&chars_of("add")));
    match branch {
        Some(b) => {
            args.push(string_of(&chars_of("-b")));
            args.push(b.to_owned());
        },
        None => {},
    }
    args.push(path.to_owned());
    proof {
        let v = args@.map_values(|s: String| s@);
        match branch {
            Some(b) => {
                assert(v == seq!["worktree"@, "add"@, "-b"@, b@, path@]);
            },
            None => {
                assert(v == seq!["worktree"@, "add"@, path@]);
            },
        }
    }
    args
}

/// The report after adding a worktree.
pub fn added_worktree_message(path: &str) -> (r: String)
    ensures
        r@ == "Added worktree at '"@ + path@ + "'"@,
{
    concat3("Added worktree at '", path, "'")
}

/// The report after removing a worktree.
pub fn removed_worktree_message(name: &str) -> (r: String)
    ensures
        r@ == "Removed worktree '"@ + name@ + "'"@,
{
    concat3("Removed worktree '", name, "'")
}

// ---------------------------------------------------------------------------
// Commits and branches
// ---------------------------------------------------------------------------

/// A commit of the log from what git reports of it. A summary or message
/// that is not valid text reads as empty; signatures are looked up later.
pub fn commit_info(
    id: String,
    summary: Option<String>,
    message: Option<String>,
    author: Signature,
    committer: Signature,
    time: i64,
    parent_ids: Vec<String>,
) -> (r: CommitInfo)
    ensures
        r.id@ == id@,
        r.short_id@ == short_of(id@),
        r.summary@ == match summary {
            Some(s) => s@,
            None => Seq::<char>::empty(),
        },
        r.message@ == match message {
            Some(s) => s@,
            None => Seq::<char>::empty(),
        },
        r.author == author,
        r.committer == committer,
        r.time == time,
        r.parent_ids == parent_ids,
        !r.is_signed,
{
    let short = short_id(id.as_str());
    let summary = match summary {
        Some(s) => s,
        None => String::new(),
    };
    let message = match message {
        Some(s) => s,
        None => String::new(),
    };
    CommitInfo { id, short_id: short, summary, message, author, committer, time, parent_ids, is_signed: false }
}

/// A branch of the repository.
#[derive(Debug, Clone)]
pub struct BranchInfo {
    pub name: String,
    pub is_head: bool,
    pub is_remote: bool,
    pub upstream: Option<String>,
    pub ahead: usize,
    pub behind: usize,
}

/// A branch from what git reports of it: its name, whether it is a
/// remote-tracking branch, the commit it points to and the one HEAD points
/// to (as ids), its upstream's name, and its ahead/behind counts against the
/// upstream when they could be computed. Only local branches have an
/// upstream and counts; a branch is the head when it points where HEAD does.
pub fn branch_info(
    name: String,
    is_remote: bool,
    target: Option<&str>,
    head_target: Option<&str>,
    upstream: Option<String>,
    ahead_behind: Option<(usize, usize)>,
) -> (r: BranchInfo)
    ensures
        r.name@ == name@,
        r.is_remote == is_remote,
        r.is_head == (target is Some && head_target is Some && target->0@ == head_target->0@),
        r.upstream == (if is_remote {
            None
        } else {
            upstream
        }),
        (r.ahead, r.behind) == (if is_remote {
            (0usize, 0usize)
        } else {
            match ahead_behind {
                Some(ab) => ab,
                None => (0usize, 0usize),
            }
        }),
{
    let is_head = match (target, head_target) {
        (Some(t), Some(h)) => str_eq(t, h),
        _ => false,
    };
    let (ahead, behind) = if is_remote {
        (0, 0)
    } else {
        match ahead_behind {
            Some(ab) => ab,
            None => (0, 0),
        }
    };
    let upstream = if is_remote {
        None
    } else {
        upstream
    };
    BranchInfo { name, is_head, is_remote, upstream, ahead, behind }
}

} // verus!
