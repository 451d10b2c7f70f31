//! The rows of the commit list: a commit as the list shows it, with its
//! tags, files and display flags, and the "load more" row at the end of a
//! page.
use vstd::prelude::*;

use crate::config::{format_relative_time, relative_time, DateFormat};
use crate::models::{CommitInfo, DiffFile, Signature};
use crate::repo::str_eq;
use crate::text::{chars_of, decimal, push_all, push_decimal, string_of};

verus! {

broadcast use vstd::string::group_string_axioms;

/// One row of the commit list.
#[derive(Debug)]
pub struct CommitObject {
    id: String,
    short_id: String,
    summary: String,
    message: String,
    author: Signature,
    time_unix: i64,
    parent_ids: Vec<String>,
    tags: Vec<String>,
    files: Vec<DiffFile>,
    is_signed: bool,
    is_head: bool,
    is_unpushed: bool,
    expanded: bool,
    files_loaded: bool,
    is_load_more_sentinel: bool,
}

/// A row of the commit list as plain values.
pub struct CommitObjectView {
    pub id: Seq<char>,
    pub short_id: Seq<char>,
    pub summary: Seq<char>,
    pub message: Seq<char>,
    pub author: (Seq<char>, Seq<char>),
    pub time_unix: i64,
    pub parent_ids: Seq<Seq<char>>,
    pub tags: Seq<Seq<char>>,
    pub files: Seq<DiffFile>,
    pub is_signed: bool,
    pub is_head: bool,
    pub is_unpushed: bool,
    pub expanded: bool,
    pub files_loaded: bool,
    pub is_load_more_sentinel: bool,
}

pub open spec fn texts_view(v: Seq<String>) -> Seq<Seq<char>> {
    v.map_values(|s: String| s@)
}

impl View for CommitObject {
    type V = CommitObjectView;

    closed spec fn view(&self) -> CommitObjectView {
        CommitObjectView {
            id: self.id@,
            short_id: self.short_id@,
            summary: self.summary@,
            message: self.message@,
            author: (self.author.name@, self.author.email@),
            time_unix: self.time_unix,
            parent_ids: texts_view(self.parent_ids@),
            tags: texts_view(self.tags@),
            files: self.files@,
            is_signed: self.is_signed,
            is_head: self.is_head,
            is_unpushed: self.is_unpushed,
            expanded: self.expanded,
            files_loaded: self.files_loaded,
            is_load_more_sentinel: self.is_load_more_sentinel,
        }
    }
}

fn copy_texts(v: &Vec<String>) -> (r: Vec<String>)
    ensures
        texts_view(r@) == texts_view(v@),
{
    let mut r: Vec<String> = Vec::new();
    let mut i: usize = 0;
    while i < v.len()
        invariant
            i <= v.len(),
            r@.len() == i,
            texts_view(r@) == texts_view(v@).take(i as int),
        decreases v.len() - i,
    {
        let t = v[i].clone();
        assert(t@ == v@[i as int]@);
        let ghost before = r@;
        r.push(t);
        assert(r@ == before.push(t));
        assert forall|k: int| 0 <= k <= i implies #[trigger] texts_view(r@)[k] == texts_view(v@)[k] by {
            if k < i {
                assert(texts_view(before)[k] == texts_view(v@).take(i as int)[k]);
                assert(r@[k] == before[k]);
            }
        }
        assert(texts_view(r@) =~= texts_view(v@).take(i + 1));
        i = i + 1;
    }
    assert(texts_view(v@).take(v.len() as int) =~= texts_view(v@));
    r
}

fn copy_signature(s: &Signature) -> (r: Signature)
    ensures
        r.name@ == s.name@,
        r.email@ == s.email@,
{
    Signature { name: s.name.clone(), email: s.email.clone() }
}

impl CommitObject {
    /// The row of a commit: its fields and tags, whether it is the head
    /// commit, and whether it is not pushed yet. It starts collapsed, with
    /// its files not loaded.
    pub fn from_info(info: &CommitInfo, tags: Vec<String>, is_head: bool, is_unpushed: bool) -> (r: Self)
        ensures
            r@ == (CommitObjectView {
                id: info.id@,
                short_id: info.short_id@,
                summary: info.summary@,
                message: info.message@,
                author: (info.author.name@, info.author.email@),
                time_unix: info.time,
                parent_ids: texts_view(info.parent_ids@),
                tags: texts_view(tags@),
                files: Seq::empty(),
                is_signed: info.is_signed,
                is_head,
                is_unpushed,
                expanded: false,
                files_loaded: false,
                is_load_more_sentinel: false,
            }),
    {
        CommitObject {
            id: info.id.clone(),
            short_id: info.short_id.clone(),
            summary: info.summary.clone(),
            message: info.message.clone(),
            author: copy_signature(&info.author),
            time_unix: info.time,
            parent_ids: copy_texts(&info.parent_ids),
            tags,
            files: Vec::new(),
            is_signed: info.is_signed,
            is_head,
            is_unpushed,
            expanded: false,
            files_loaded: false,
            is_load_more_sentinel: false,
        }
    }

    /// The "load more" row at the end of a page of commits: empty, with only
    /// its own flag set.
    pub fn load_more_sentinel() -> (r: Self)
        ensures
            r@ == (CommitObjectView {
                id: Seq::empty(),
                short_id: Seq::empty(),
                summary: Seq::empty(),
                message: Seq::empty(),
                author: (Seq::empty(), Seq::empty()),
                time_unix: 0,
                parent_ids: Seq::empty(),
                tags: Seq::empty(),
                files: Seq::empty(),
                is_signed: false,
                is_head: false,
                is_unpushed: false,
                expanded: false,
                files_loaded: false,
                is_load_more_sentinel: true,
            }),
    {
        let r = CommitObject {
            id: String::new(),
            short_id: String::new(),
            summary: String::new(),
            message: String::new(),
            author: Signature { name: String::new(), email: String::new() },
            time_unix: 0,
            parent_ids: Vec::new(),
            tags: Vec::new(),
            files: Vec::new(),
            is_signed: false,
            is_head: false,
            is_unpushed: false,
            expanded: false,
            files_loaded: false,
            is_load_more_sentinel: true,
        };
        assert(texts_view(r.parent_ids@) =~= Seq::<Seq<char>>::empty());
        assert(texts_view(r.tags@) =~= Seq::<Seq<char>>::empty());
        r
    }

    pub fn id(&self) -> (r: String)
        ensures
            r@ == self@.id,
    {
        self.id.clone()
    }

    pub fn short_id(&self) -> (r: String)
        ensures
            r@ == self@.short_id,
    {
        self.short_id.clone()
    }

    pub fn summary(&self) -> (r: String)
        ensures
            r@ == self@.summary,
    {
        self.summary.clone()
    }

    pub fn message(&self) -> (r: String)
        ensures
            r@ == self@.message,
    {
        self.message.clone()
    }

    pub fn author(&self) -> (r: Signature)
        ensures
            (r.name@, r.email@) == self@.author,
    {
        copy_signature(&self.author)
    }

    pub fn time_unix(&self) -> (r: i64)
        ensures
            r == self@.time_unix,
    {
        self.time_unix
    }

    pub fn parent_ids(&self) -> (r: Vec<String>)
        ensures
            texts_view(r@) == self@.parent_ids,
    {
        copy_texts(&self.parent_ids)
    }

    pub fn tags(&self) -> (r: Vec<String>)
        ensures
            texts_view(r@) == self@.tags,
    {
        copy_texts(&self.tags)
    }

    /// The files of the commit, once loaded.
    pub fn files(&self) -> (r: &[DiffFile])
        ensures
            r@ == self@.files,
    {
        self.files.as_slice()
    }

    pub fn set_files(&mut self, files: Vec<DiffFile>)
        ensures
            final(self)@ == (CommitObjectView { files: files@, ..old(self)@ }),
    {
        self.files = files;
    }

    pub fn is_signed(&self) -> (r: bool)
        ensures
            r == self@.is_signed,
    {
        self.is_signed
    }

    pub fn set_is_signed(&mut self, v: bool)
        ensures
            final(self)@ == (CommitObjectView { is_signed: v, ..old(self)@ }),
    {
        self.is_signed = v;
    }

    pub fn is_head(&self) -> (r: bool)
        ensures
            r == self@.is_head,
    {
        self.is_head
    }

    pub fn is_unpushed(&self) -> (r: bool)
        ensures
            r == self@.is_unpushed,
    {
        self.is_unpushed
    }

    pub fn expanded(&self) -> (r: bool)
        ensures
            r == self@.expanded,
    {
        self.expanded
    }

    pub fn set_expanded(&mut self, v: bool)
        ensures
            final(self)@ == (CommitObjectView { expanded: v, ..old(self)@ }),
    {
        self.expanded = v;
    }

    pub fn files_loaded(&self) -> (r: bool)
        ensures
            r == self@.files_loaded,
    {
        self.files_loaded
    }

    pub fn set_files_loaded(&mut self, v: bool)
        ensures
            final(self)@ == (CommitObjectView { files_loaded: v, ..old(self)@ }),
    {
        self.files_loaded = v;
    }

    pub fn is_load_more_sentinel(&self) -> (r: bool)
        ensures
            r == self@.is_load_more_sentinel,
    {
        self.is_load_more_sentinel
    }
}


pub open spec fn objects_view(v: Seq<CommitObject>) -> Seq<CommitObjectView> {
    v.map_values(|o: CommitObject| o@)
}

// ---------------------------------------------------------------------------
// Pages of commits
// ---------------------------------------------------------------------------

/// The tags that `tags` (pairs of commit id and tag names) lists for the
/// commit `id`, from the first pair that names it; none when no pair does.
pub open spec fn tags_of(tags: Seq<(String, Vec<String>)>, id: Seq<char>, i: int) -> Seq<Seq<char>>
    decreases tags.len() - i,
{
    if i < 0 || i >= tags.len() {
        Seq::empty()
    } else if tags[i].0@ == id {
        texts_view(tags[i].1@)
    } else {
        tags_of(tags, id, i + 1)
    }
}

/// The rows of a page of commits that starts at position `offset` of the
/// history: the first commit of the history is the head, the first `ahead`
/// ones are not pushed yet; a "load more" row follows when `has_more`.
pub open spec fn page_rows(
    commits: Seq<CommitInfo>,
    tags: Seq<(String, Vec<String>)>,
    ahead: usize,
    offset: usize,
    has_more: bool,
) -> Seq<CommitObjectView> {
    let rows = Seq::new(
        commits.len(),
        |k: int|
            {
                let c = commits[k];
                CommitObjectView {
                    id: c.id@,
                    short_id: c.short_id@,
                    summary: c.summary@,
                    message: c.message@,
                    author: (c.author.name@, c.author.email@),
                    time_unix: c.time,
                    parent_ids: texts_view(c.parent_ids@),
                    tags: tags_of(tags, c.id@, 0),
                    files: Seq::empty(),
                    is_signed: c.is_signed,
                    is_head: offset + k == 0,
                    is_unpushed: offset + k < ahead,
                    expanded: false,
                    files_loaded: false,
                    is_load_more_sentinel: false,
                }
            },
    );
    if has_more {
        rows.push(sentinel_view())
    } else {
        rows
    }
}

/// The "load more" row.
pub open spec fn sentinel_view() -> CommitObjectView {
    CommitObjectView {
        id: Seq::empty(),
        short_id: Seq::empty(),
        summary: Seq::empty(),
        message: Seq::empty(),
        author: (Seq::empty(), Seq::empty()),
        time_unix: 0,
        parent_ids: Seq::empty(),
        tags: Seq::empty(),
        files: Seq::empty(),
        is_signed: false,
        is_head: false,
        is_unpushed: false,
        expanded: false,
        files_loaded: false,
        is_load_more_sentinel: true,
    }
}

fn find_tags(tags: &[(String, Vec<String>)], id: &str) -> (r: Vec<String>)
    ensures
        texts_view(r@) == tags_of(tags@, id@, 0),
{
    let mut i: usize = 0;
    while i < tags.len()
        invariant
            i <= tags.len(),
            tags_of(tags@, id@, 0) == tags_of(tags@, id@, i as int),
        decreases tags.len() - i,
    {
        if str_eq(tags[i].0.as_str(), id) {
            return copy_texts(&tags[i].1);
        }
        i = i + 1;
    }
    Vec::new()
}

/// The rows for a page of commits (see `page_rows`). The first page starts
/// at offset 0; a later page is appended after taking away the "load more"
/// row of the one before.
#[verifier::spinoff_prover]
pub fn commit_objects(
    commits: &[CommitInfo],
    tags: &[(String, Vec<String>)],
    ahead: usize,
    offset: usize,
    has_more: bool,
) -> (r: Vec<CommitObject>)
    requires
        offset + commits@.len() <= usize::MAX,
    ensures
        objects_view(r@) == page_rows(commits@, tags@, ahead, offset, has_more),
{
    let ghost want = page_rows(commits@, tags@, ahead, offset, false);
    let mut items: Vec<CommitObject> = Vec::new();
    let mut i: usize = 0;
    while i < commits.len()
        invariant
            i <= commits.len(),
            offset + commits@.len() <= usize::MAX,
            want == page_rows(commits@, tags@, ahead, offset, false),
            items@.len() == i,
            objects_view(items@) == want.take(i as int),
        decreases commits.len() - i,
    {
        let c = &commits[i];
        let global = offset + i;
        let obj = CommitObject::from_info(c, find_tags(tags, c.id.as_str()), global == 0, global < ahead);
        let ghost before = items@;
        items.push(obj);
        assert(objects_view(items@) =~= want.take(i + 1)) by {
            assert(items@ == before.push(obj));
            assert(want[i as int] == obj@);
            assert forall|k: int| 0 <= k <= i implies #[trigger] objects_view(items@)[k] == want[k] by {
                if k < i {
                    assert(objects_view(before)[k] == want.take(i as int)[k]);
                    assert(items@[k] == before[k]);
                }
            }
        }
        i = i + 1;
    }
    assert(want.take(commits.len() as int) =~= want);
    if has_more {
        let s = CommitObject::load_more_sentinel();
        let ghost before = items@;
        items.push(s);
        assert(objects_view(items@) =~= objects_view(before).push(sentinel_view()));
    }
    items
}

// ---------------------------------------------------------------------------
// Signature lookups
// ---------------------------------------------------------------------------

/// Whether the lookup results `flags` (`(commit id, signed)`) report the
/// commit `id` as signed.
pub open spec fn flagged_signed(flags: Seq<(String, bool)>, id: Seq<char>) -> bool {
    exists|k: int| 0 <= k < flags.len() && (#[trigger] flags[k]).1 && flags[k].0@ == id
}

/// Whether a lookup marks a row as signed: a commit row not signed yet that
/// the results report as signed.
pub open spec fn gets_signed(o: CommitObjectView, flags: Seq<(String, bool)>) -> bool {
    !o.is_load_more_sentinel && !o.is_signed && flagged_signed(flags, o.id)
}

/// The ids of the first `n` rows that a lookup marks as signed.
pub open spec fn newly_signed_ids(rows: Seq<CommitObjectView>, flags: Seq<(String, bool)>, n: int) -> Seq<
    Seq<char>,
>
    decreases n,
{
    if n <= 0 {
        Seq::empty()
    } else {
        let prev = newly_signed_ids(rows, flags, n - 1);
        if gets_signed(rows[n - 1], flags) {
            prev.push(rows[n - 1].id)
        } else {
            prev
        }
    }
}

fn is_flagged(flags: &[(String, bool)], id: &str) -> (r: bool)
    ensures
        r == flagged_signed(flags@, id@),
{
    let mut k: usize = 0;
    while k < flags.len()
        invariant
            k <= flags.len(),
            forall|t: int| 0 <= t < k ==> !((#[trigger] flags@[t]).1 && flags@[t].0@ == id@),
        decreases flags.len() - k,
    {
        if flags[k].1 && str_eq(flags[k].0.as_str(), id) {
            assert(flags@[k as int].1 && flags@[k as int].0@ == id@);
            return true;
        }
        k = k + 1;
    }
    false
}

/// Marks the rows that a signature lookup reports as signed, and gives the
/// ids of the rows whose flag changed, in row order, so that only those are
/// drawn again. Rows the results do not name stay as they are.
#[verifier::spinoff_prover]
pub fn apply_signature_flags(store: &mut Vec<CommitObject>, flags: &[(String, bool)]) -> (r: Vec<String>)
    ensures
        final(store)@.len() == old(store)@.len(),
        forall|k: int|
            0 <= k < old(store)@.len() ==> (#[trigger] final(store)@[k])@ == if gets_signed(
                old(store)@[k]@,
                flags@,
            ) {
                CommitObjectView { is_signed: true, ..old(store)@[k]@ }
            } else {
                old(store)@[k]@
            },
        texts_view(r@) == newly_signed_ids(objects_view(old(store)@), flags@, old(store)@.len() as int),
{
    let ghost orig = store@;
    let mut changed: Vec<String> = Vec::new();
    let mut i: usize = 0;
    while i < store.len()
        invariant
            i <= store.len(),
            store@.len() == orig.len(),
            forall|k: int|
                0 <= k < orig.len() ==> (#[trigger] store@[k])@ == if k < i && gets_signed(orig[k]@, flags@) {
                    CommitObjectView { is_signed: true, ..orig[k]@ }
                } else {
                    orig[k]@
                },
            texts_view(changed@) == newly_signed_ids(objects_view(orig), flags@, i as int),
        decreases store.len() - i,
    {
        let ghost ov = objects_view(orig);
        assert(ov[i as int] == orig[i as int]@);
        if !store[i].is_load_more_sentinel() && !store[i].is_signed() {
            let id = store[i].id();
            if is_flagged(flags, id.as_str()) {
                let ghost s0 = store@;
                let mut obj = store.remove(i);
                obj.set_is_signed(true);
                store.insert(i, obj);
                assert forall|k: int| 0 <= k < orig.len() implies (#[trigger] store@[k])@ == if k < i + 1
                    && gets_signed(orig[k]@, flags@) {
                    CommitObjectView { is_signed: true, ..orig[k]@ }
                } else {
                    orig[k]@
                } by {
                    if k != i {
                        assert(store@[k] == s0[k]);
                    }
                }
                let ghost c0 = changed@;
                changed.push(id);
                assert(texts_view(changed@) =~= texts_view(c0).push(id@));
            }
        }
        i = i + 1;
    }
    changed
}


// ---------------------------------------------------------------------------
// What a row shows
// ---------------------------------------------------------------------------

/// What the detail pane of an expanded row lists.
#[derive(Debug, Clone, Copy, PartialEq, Eq, Structural)]
pub enum FileList {
    /// The files are still being read.
    Loading,
    /// The commit changes no file.
    NoChanges,
    /// The first `shown` files, and a note on the `hidden` others when
    /// there are any.
    Files { shown: usize, hidden: usize },
}

/// The detail pane's list for a commit whose files are `files`, showing at
/// most `limit` of them (at least one).
pub open spec fn file_list_of(loaded: bool, files: nat, limit: u32) -> FileList {
    let cap: nat = if limit == 0 {
        1
    } else {
        limit as nat
    };
    if !loaded {
        FileList::Loading
    } else if files == 0 {
        FileList::NoChanges
    } else {
        let shown = if files < cap {
            files
        } else {
            cap
        };
        FileList::Files { shown: shown as usize, hidden: (files - shown) as usize }
    }
}

/// The note under a capped file list.
pub fn more_files_note(hidden: usize) -> (r: String)
    ensures
        r@ == "… and "@ + decimal(hidden as nat) + " more files"@,
{
    let mut v = chars_of("… and ");
    push_decimal(&mut v, hidden as u64);
    push_all(&mut v, &chars_of(" more files"));
    string_of(&v)
}

/// What a commit row shows.
#[derive(Debug, Clone)]
pub struct CommitRowDisplay {
    /// The short id.
    pub hash: String,
    /// The summary.
    pub message: String,
    /// The author's name and when the commit was made.
    pub meta: String,
    pub signed_icon: bool,
    /// The button that edits the message, shown for the head commit only.
    pub edit_button: bool,
    pub tags: Vec<String>,
    pub reveal_detail: bool,
    /// The detail pane's list, when the row is expanded.
    pub files: Option<FileList>,
}

/// What a row of the commit list shows.
#[derive(Debug, Clone)]
pub enum RowDisplay {
    LoadMore,
    Commit(CommitRowDisplay),
}

/// What a row shows for `obj` at the time `now_unix`, with dates written in
/// `date_format` and at most `files_limit` files listed.
pub fn row_display(obj: &CommitObject, date_format: DateFormat, now_unix: i64, files_limit: u32) -> (r: RowDisplay)
    ensures
        obj@.is_load_more_sentinel <==> r is LoadMore,
        r matches RowDisplay::Commit(d) ==> {
            &&& d.hash@ == obj@.short_id
            &&& d.message@ == obj@.summary
            &&& d.meta@ == obj@.author.0 + " "@ + relative_time(obj@.time_unix, now_unix, date_format)
            &&& d.signed_icon == obj@.is_signed
            &&& d.edit_button == obj@.is_head
            &&& texts_view(d.tags@) == obj@.tags
            &&& d.reveal_detail == obj@.expanded
            &&& d.files == if obj@.expanded {
                Some(file_list_of(obj@.files_loaded, obj@.files.len(), files_limit))
            } else {
                None
            }
        },
{
    if obj.is_load_more_sentinel() {
        return RowDisplay::LoadMore;
    }
    let mut meta = chars_of(obj.author().name.as_str());
    push_all(&mut meta, &chars_of(" "));
    let when = format_relative_time(obj.time_unix(), now_unix, date_format);
    push_all(&mut meta, &chars_of(when.as_str()));
    let files = if obj.expanded() {
        let n = obj.files().len();
        let cap: usize = if files_limit == 0 {
            1
        } else {
            files_limit as usize
        };
        let list = if !obj.files_loaded() {
            FileList::Loading
        } else if n == 0 {
            FileList::NoChanges
        } else {
            let shown = if n < cap {
                n
            } else {
                cap
            };
            FileList::Files { shown, hidden: n - shown }
        };
        Some(list)
    } else {
        None
    };
    RowDisplay::Commit(
        CommitRowDisplay {
            hash: obj.short_id(),
            message: obj.summary(),
            meta: string_of(&meta),
            signed_icon: obj.is_signed(),
            edit_button: obj.is_head(),
            tags: obj.tags(),
            reveal_detail: obj.expanded(),
            files,
        },
    )
}

} // verus!
