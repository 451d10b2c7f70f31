//! Lane layout of the branch graph: which lane each commit sits in, which
//! lanes are open, and where merges come from.
use vstd::prelude::*;

use crate::models::CommitInfo;

verus! {

broadcast use vstd::string::group_string_axioms;

/// How many lane colours the graph cycles through.
pub const PALETTE_LEN: usize = 8;

/// One row of the branch graph.
#[derive(Debug, Clone)]
pub struct GraphRow {
    pub commit_lane: usize,
    pub color_idx: usize,
    /// `Some(true)` for an open lane, `None` for a free one.
    pub lanes: Vec<Option<bool>>,
    pub lane_colors: Vec<usize>,
    /// `(lane, color_idx)` of each merged-in parent.
    pub merge_sources: Vec<(usize, usize)>,
    pub num_active_lanes: usize,
    pub summary: String,
    pub short_id: String,
}

/// A graph row as plain values.
pub struct GraphRowView {
    pub commit_lane: int,
    pub color_idx: int,
    pub lanes: Seq<Option<bool>>,
    pub lane_colors: Seq<usize>,
    pub merge_sources: Seq<(int, int)>,
    pub num_active_lanes: int,
    pub summary: Seq<char>,
    pub short_id: Seq<char>,
}

pub open spec fn source_pairs(v: Seq<(usize, usize)>) -> Seq<(int, int)> {
    v.map_values(|p: (usize, usize)| (p.0 as int, p.1 as int))
}

impl View for GraphRow {
    type V = GraphRowView;

    open spec fn view(&self) -> GraphRowView {
        GraphRowView {
            commit_lane: self.commit_lane as int,
            color_idx: self.color_idx as int,
            lanes: self.lanes@,
            lane_colors: self.lane_colors@,
            merge_sources: source_pairs(self.merge_sources@),
            num_active_lanes: self.num_active_lanes as int,
            summary: self.summary@,
            short_id: self.short_id@,
        }
    }
}

/// The lanes while the graph is laid out: the commit each lane waits for
/// (or `None` for a free lane), the colour of each lane, and the colour the
/// next new lane gets.
pub struct LaneState {
    pub lanes: Seq<Option<Seq<char>>>,
    pub colors: Seq<usize>,
    pub next: usize,
}

pub open spec fn lanes_view(v: Seq<Option<String>>) -> Seq<Option<Seq<char>>> {
    v.map_values(
        |o: Option<String>|
            match o {
                Some(s) => Some(s@),
                None => None,
            },
    )
}

/// The first lane at or after `i` holding `x`.
pub open spec fn find_lane_from(lanes: Seq<Option<Seq<char>>>, x: Option<Seq<char>>, i: int) -> Option<
    int,
>
    decreases lanes.len() - i,
{
    if i < 0 || i >= lanes.len() {
        None
    } else if lanes[i] == x {
        Some(i)
    } else {
        find_lane_from(lanes, x, i + 1)
    }
}

/// Whether some commit of the list has the id `id`.
pub open spec fn is_known(cs: Seq<CommitInfo>, id: Seq<char>) -> bool {
    exists|k: int| 0 <= k < cs.len() && #[trigger] cs[k].id@ == id
}

/// A new lane for `id`: the first free lane, or one more lane at the right.
/// Returns the new state, the lane and its colour.
pub open spec fn new_lane(st: LaneState, id: Seq<char>) -> (LaneState, int, usize) {
    let color = st.next;
    let next = if st.next + 1 >= PALETTE_LEN {
        0usize
    } else {
        (st.next + 1) as usize
    };
    match find_lane_from(st.lanes, None, 0) {
        Some(f) => (
            LaneState { lanes: st.lanes.update(f, Some(id)), colors: st.colors.update(f, color), next },
            f,
            color,
        ),
        None => (
            LaneState { lanes: st.lanes.push(Some(id)), colors: st.colors.push(color), next },
            st.lanes.len() as int,
            color,
        ),
    }
}

/// Handles the second and later parents of a commit, from the `k`-th on:
/// a parent outside the list is skipped; one that a lane already waits for
/// is a merge from that lane; otherwise it gets a new lane.
pub open spec fn merges(
    st: LaneState,
    srcs: Seq<(int, int)>,
    cs: Seq<CommitInfo>,
    parents: Seq<String>,
    k: int,
) -> (LaneState, Seq<(int, int)>)
    decreases parents.len() - k,
{
    if k < 1 || k >= parents.len() {
        (st, srcs)
    } else {
        let p = parents[k]@;
        if !is_known(cs, p) {
            merges(st, srcs, cs, parents, k + 1)
        } else {
            match find_lane_from(st.lanes, Some(p), 0) {
                Some(pl) => merges(st, srcs.push((pl, st.colors[pl] as int)), cs, parents, k + 1),
                None => {
                    let a = new_lane(st, p);
                    merges(a.0, srcs.push((a.1, a.2 as int)), cs, parents, k + 1)
                },
            }
        }
    }
}

/// How a lane shows in a row: `Some(true)` when open.
pub open spec fn mark(l: Option<Seq<char>>) -> Option<bool> {
    if l is Some {
        Some(true)
    } else {
        None
    }
}

/// The number of open lanes.
pub open spec fn count_open(lanes: Seq<Option<Seq<char>>>) -> nat
    decreases lanes.len(),
{
    if lanes.len() == 0 {
        0
    } else {
        count_open(lanes.drop_last()) + if lanes.last() is Some {
            1nat
        } else {
            0nat
        }
    }
}

/// Lays out one commit: it takes the lane that waits for it (or a new one),
/// that lane then waits for its first parent when that parent is in the
/// list (else it is freed), and its other parents become merge sources.
pub open spec fn step(st: LaneState, cs: Seq<CommitInfo>, c: CommitInfo) -> (LaneState, GraphRowView) {
    let (st1, lane) = match find_lane_from(st.lanes, Some(c.id@), 0) {
        Some(l) => (st, l),
        None => {
            let a = new_lane(st, c.id@);
            (a.0, a.1)
        },
    };
    let my_color = st1.colors[lane];
    let ps = c.parent_ids@;
    let first = if ps.len() > 0 && is_known(cs, ps[0]@) {
        Some(ps[0]@)
    } else {
        None
    };
    let st2 = LaneState { lanes: st1.lanes.update(lane, first), ..st1 };
    let (st3, srcs) = merges(st2, Seq::empty(), cs, ps, 1);
    (
        st3,
        GraphRowView {
            commit_lane: lane,
            color_idx: my_color as int,
            lanes: st3.lanes.map_values(|l: Option<Seq<char>>| mark(l)),
            lane_colors: st3.colors,
            merge_sources: srcs,
            num_active_lanes: count_open(st3.lanes) as int,
            summary: c.summary@,
            short_id: c.short_id@,
        },
    )
}

/// The layout after the first `n` commits, and their rows.
pub open spec fn layout(cs: Seq<CommitInfo>, n: int) -> (LaneState, Seq<GraphRowView>)
    decreases n,
{
    if n <= 0 {
        (LaneState { lanes: Seq::empty(), colors: Seq::empty(), next: 0 }, Seq::empty())
    } else {
        let prev = layout(cs, n - 1);
        let s = step(prev.0, cs, cs[n - 1]);
        (s.0, prev.1.push(s.1))
    }
}

/// The lane state is consistent: one colour per lane, every colour and the
/// next colour within the palette.
pub open spec fn lanes_ok(st: LaneState) -> bool {
    &&& st.lanes.len() == st.colors.len()
    &&& st.next < PALETTE_LEN
    &&& forall|k: int| #![trigger st.colors[k]] 0 <= k < st.colors.len() ==> st.colors[k] < PALETTE_LEN
}

fn find_id(lanes: &Vec<Option<String>>, id: &String) -> (r: Option<usize>)
    ensures
        match r {
            Some(k) => find_lane_from(lanes_view(lanes@), Some(id@), 0) == Some(k as int) && k
                < lanes@.len(),
            None => find_lane_from(lanes_view(lanes@), Some(id@), 0) is None,
        },
{
    let ghost lv = lanes_view(lanes@);
    let mut k: usize = 0;
    while k < lanes.len()
        invariant
            k <= lanes.len(),
            lv == lanes_view(lanes@),
            find_lane_from(lv, Some(id@), 0) == find_lane_from(lv, Some(id@), k as int),
        decreases lanes.len() - k,
    {
        let hit = match &lanes[k] {
            Some(s) => s.eq(id),
            None => false,
        };
        proof {
            assert(lv[k as int] == match lanes@[k as int] {
                Some(s) => Some(s@),
                None => None::<Seq<char>>,
            });
        }
        if hit {
            return Some(k);
        }
        k = k + 1;
    }
    None
}

fn find_free(lanes: &Vec<Option<String>>) -> (r: Option<usize>)
    ensures
        match r {
            Some(k) => find_lane_from(lanes_view(lanes@), None, 0) == Some(k as int) && k
                < lanes@.len(),
            None => find_lane_from(lanes_view(lanes@), None, 0) is None,
        },
{
    let ghost lv = lanes_view(lanes@);
    let mut k: usize = 0;
    while k < lanes.len()
        invariant
            k <= lanes.len(),
            lv == lanes_view(lanes@),
            find_lane_from(lv, None, 0) == find_lane_from(lv, None, k as int),
        decreases lanes.len() - k,
    {
        let free = lanes[k].is_none();
        proof {
            assert(lv[k as int] == match lanes@[k as int] {
                Some(s) => Some(s@),
                None => None::<Seq<char>>,
            });
        }
        if free {
            return Some(k);
        }
        k = k + 1;
    }
    None
}

fn known_id(commits: &[CommitInfo], id: &String) -> (r: bool)
    ensures
        r == is_known(commits@, id@),
{
    let mut k: usize = 0;
    while k < commits.len()
        invariant
            k <= commits.len(),
            forall|t: int| 0 <= t < k ==> commits@[t].id@ != id@,
        decreases commits.len() - k,
    {
        if commits[k].id == *id {
            assert(commits@[k as int].id@ == id@);
            return true;
        }
        k = k + 1;
    }
    false
}

/// Opens a lane for `id`, as `new_lane` describes.
fn alloc_lane(lanes: &mut Vec<Option<String>>, colors: &mut Vec<usize>, next: &mut usize, id: &String) -> (r: (
    usize,
    usize,
))
    requires
        lanes_ok(LaneState { lanes: lanes_view(old(lanes)@), colors: old(colors)@, next: *old(next) }),
    ensures
        ({
            let a = new_lane(
                LaneState { lanes: lanes_view(old(lanes)@), colors: old(colors)@, next: *old(next) },
                id@,
            );
            &&& a.0 == LaneState { lanes: lanes_view(final(lanes)@), colors: final(colors)@, next: *final(next) }
            &&& a.1 == r.0 as int
            &&& a.2 == r.1
        }),
        lanes_ok(LaneState { lanes: lanes_view(final(lanes)@), colors: final(colors)@, next: *final(next) }),
        r.0 < final(lanes)@.len(),
{
    let color = *next;
    *next = if *next + 1 >= PALETTE_LEN {
        0
    } else {
        *next + 1
    };
    let ghost lv = lanes_view(lanes@);
    match find_free(lanes) {
        Some(f) => {
            lanes.set(f, Some(id.clone()));
            colors.set(f, color);
            proof {
                assert(lanes_view(lanes@) == lv.update(f as int, Some(id@)));
            }
            (f, color)
        },
        None => {
            lanes.push(Some(id.clone()));
            colors.push(color);
            proof {
                assert(lanes_view(lanes@) == lv.push(Some(id@)));
            }
            (lanes.len() - 1, color)
        },
    }
}

fn copy_colors(v: &Vec<usize>) -> (r: Vec<usize>)
    ensures
        r@ == v@,
{
    let mut r: Vec<usize> = Vec::new();
    let mut i: usize = 0;
    while i < v.len()
        invariant
            i <= v.len(),
            r@ == v@.take(i as int),
        decreases v.len() - i,
    {
        r.push(v[i]);
        assert(v@.take(i + 1) == v@.take(i as int).push(v@[i as int]));
        i = i + 1;
    }
    assert(v@.take(v.len() as int) == v@);
    r
}

/// The open/free pattern of the lanes, and how many are open.
fn lane_marks(lanes: &Vec<Option<String>>) -> (r: (Vec<Option<bool>>, usize))
    ensures
        r.0@ == lanes_view(lanes@).map_values(|l: Option<Seq<char>>| mark(l)),
        r.1 as nat == count_open(lanes_view(lanes@)),
{
    let ghost lv = lanes_view(lanes@);
    let mut marks: Vec<Option<bool>> = Vec::new();
    let mut count: usize = 0;
    let mut i: usize = 0;
    while i < lanes.len()
        invariant
            i <= lanes.len(),
            lv == lanes_view(lanes@),
            marks@ == lv.take(i as int).map_values(|l: Option<Seq<char>>| mark(l)),
            count as nat == count_open(lv.take(i as int)),
            count <= i,
        decreases lanes.len() - i,
    {
        let open = lanes[i].is_some();
        proof {
            assert(lv.take(i + 1).drop_last() == lv.take(i as int));
            assert(lv[i as int] is Some == open);
            assert(lv.take(i + 1).map_values(|l: Option<Seq<char>>| mark(l)) == lv.take(
                i as int,
            ).map_values(|l: Option<Seq<char>>| mark(l)).push(mark(lv[i as int])));
        }
        if open {
            marks.push(Some(true));
            count = count + 1;
        } else {
            marks.push(None);
        }
        i = i + 1;
    }
    assert(lv.take(lanes.len() as int) == lv);
    (marks, count)
}

/// Computes the branch-graph layout of `commits` (newest first).
#[verifier::spinoff_prover]
pub fn compute_graph(commits: &[CommitInfo]) -> (rows: Vec<GraphRow>)
    ensures
        rows@.len() == commits@.len(),
        forall|k: int| 0 <= k < rows@.len() ==> #[trigger] rows@[k]@ == layout(commits@, commits@.len() as int).1[k],
{
    let mut rows: Vec<GraphRow> = Vec::new();
    if commits.len() == 0 {
        return rows;
    }
    let mut lanes: Vec<Option<String>> = Vec::new();
    let mut lane_colors: Vec<usize> = Vec::new();
    let mut next_color: usize = 0;
    let mut i: usize = 0;
    assert(lanes_view(lanes@) == Seq::<Option<Seq<char>>>::empty());
    while i < commits.len()
        invariant
            i <= commits.len(),
            layout(commits@, i as int).0 == (LaneState {
                lanes: lanes_view(lanes@),
                colors: lane_colors@,
                next: next_color,
            }),
            lanes_ok(LaneState { lanes: lanes_view(lanes@), colors: lane_colors@, next: next_color }),
            rows@.len() == i,
            forall|k: int| 0 <= k < i ==> #[trigger] rows@[k]@ == layout(commits@, i as int).1[k],
        decreases commits.len() - i,
    {
        let commit = &commits[i];
        let ghost st0 = LaneState { lanes: lanes_view(lanes@), colors: lane_colors@, next: next_color };
        let commit_lane = match find_id(&lanes, &commit.id) {
            Some(l) => l,
            None => {
                let (l, _) = alloc_lane(&mut lanes, &mut lane_colors, &mut next_color, &commit.id);
                l
            },
        };
        proof {
            assert(commit_lane < lanes@.len()) by {
                if find_lane_from(st0.lanes, Some(commit.id@), 0) is Some {
                    lemma_find_lane_bound(st0.lanes, Some(commit.id@), 0);
                }
            }
        }
        let my_color = lane_colors[commit_lane];
        let ghost st1 = LaneState { lanes: lanes_view(lanes@), colors: lane_colors@, next: next_color };
        let np = commit.parent_ids.len();
        let first_known = np > 0 && known_id(commits, &commit.parent_ids[0]);
        if first_known {
            lanes.set(commit_lane, Some(commit.parent_ids[0].clone()));
        } else {
            lanes.set(commit_lane, None);
        }
        let ghost first = if np > 0 && is_known(commits@, commit.parent_ids@[0]@) {
            Some(commit.parent_ids@[0]@)
        } else {
            None
        };
        proof {
            assert(lanes_view(lanes@) == st1.lanes.update(commit_lane as int, first));
        }
        let ghost st2 = LaneState { lanes: lanes_view(lanes@), colors: lane_colors@, next: next_color };
        let mut merge_sources: Vec<(usize, usize)> = Vec::new();
        let mut k: usize = 1;
        assert(source_pairs(merge_sources@) == Seq::<(int, int)>::empty());
        while k < np
            invariant
                1 <= k,
                np == commit.parent_ids@.len(),
                lanes_ok(LaneState { lanes: lanes_view(lanes@), colors: lane_colors@, next: next_color }),
                merges(st2, Seq::empty(), commits@, commit.parent_ids@, 1) == merges(
                    LaneState { lanes: lanes_view(lanes@), colors: lane_colors@, next: next_color },
                    source_pairs(merge_sources@),
                    commits@,
                    commit.parent_ids@,
                    k as int,
                ),
            decreases np - k,
        {
            let parent_id = &commit.parent_ids[k];
            if known_id(commits, parent_id) {
                let ghost before = source_pairs(merge_sources@);
                match find_id(&lanes, parent_id) {
                    Some(pl) => {
                        proof {
                            lemma_find_lane_bound(lanes_view(lanes@), Some(parent_id@), 0);
                        }
                        merge_sources.push((pl, lane_colors[pl]));
                        proof {
                            assert(source_pairs(merge_sources@) == before.push(
                                (pl as int, lane_colors@[pl as int] as int),
                            ));
                        }
                    },
                    None => {
                        let (l, color) = alloc_lane(
                            &mut lanes,
                            &mut lane_colors,
                            &mut next_color,
                            parent_id,
                        );
                        merge_sources.push((l, color));
                        proof {
                            assert(source_pairs(merge_sources@) == before.push(
                                (l as int, color as int),
                            ));
                        }
                    },
                }
            }
            k = k + 1;
        }
        let (row_lanes, num_active) = lane_marks(&lanes);
        let row = GraphRow {
            commit_lane,
            color_idx: my_color,
            lanes: row_lanes,
            lane_colors: copy_colors(&lane_colors),
            merge_sources,
            num_active_lanes: num_active,
            summary: commit.summary.clone(),
            short_id: commit.short_id.clone(),
        };
        proof {
            let s = step(st0, commits@, commits@[i as int]);
            assert(s.1 == row@);
            assert(layout(commits@, i + 1).1 == layout(commits@, i as int).1.push(row@));
        }
        let ghost old_rows = rows@;
        proof {
            lemma_layout_len(commits@, i as int);
        }
        let ghost rv = row@;
        rows.push(row);
        proof {
            assert forall|k: int| 0 <= k < i + 1 implies #[trigger] rows@[k]@ == layout(
                commits@,
                i + 1,
            ).1[k] by {
                if k < i {
                    assert(rows@[k] == old_rows[k]);
                } else {
                    assert(rows@[k]@ == rv);
                }
            }
        }
        i = i + 1;
    }
    rows
}

proof fn lemma_layout_len(cs: Seq<CommitInfo>, n: int)
    requires
        0 <= n,
    ensures
        layout(cs, n).1.len() == n,
    decreases n,
{
    if n > 0 {
        lemma_layout_len(cs, n - 1);
    }
}

proof fn lemma_find_lane_bound(lanes: Seq<Option<Seq<char>>>, x: Option<Seq<char>>, i: int)
    requires
        0 <= i,
        find_lane_from(lanes, x, i) is Some,
    ensures
        i <= find_lane_from(lanes, x, i)->0 < lanes.len(),
        lanes[find_lane_from(lanes, x, i)->0] == x,
    decreases lanes.len() - i,
{
    if i < lanes.len() && lanes[i] != x {
        lemma_find_lane_bound(lanes, x, i + 1);
    }
}

/// A row that the drawing code can use as it is: the commit's lane and
/// every merge source name an existing lane, one colour per lane, every
/// colour within the palette, and the open-lane count within the lanes.
pub open spec fn row_ok(r: GraphRowView) -> bool {
    &&& 0 <= r.commit_lane < r.lanes.len()
    &&& r.lanes.len() == r.lane_colors.len()
    &&& 0 <= r.color_idx < PALETTE_LEN
    &&& forall|k: int| #![trigger r.lane_colors[k]] 0 <= k < r.lane_colors.len() ==> r.lane_colors[k] < PALETTE_LEN
    &&& forall|k: int|
        #![trigger r.merge_sources[k]]
        0 <= k < r.merge_sources.len() ==> 0 <= r.merge_sources[k].0 < r.lanes.len() && 0
            <= r.merge_sources[k].1 < PALETTE_LEN
    &&& 0 <= r.num_active_lanes <= r.lanes.len()
}

proof fn lemma_new_lane(st: LaneState, id: Seq<char>)
    requires
        lanes_ok(st),
    ensures
        lanes_ok(new_lane(st, id).0),
        0 <= new_lane(st, id).1 < new_lane(st, id).0.lanes.len(),
        new_lane(st, id).0.lanes.len() >= st.lanes.len(),
        new_lane(st, id).0.colors[new_lane(st, id).1] == new_lane(st, id).2,
        new_lane(st, id).2 < PALETTE_LEN,
{
    match find_lane_from(st.lanes, None, 0) {
        Some(f) => {
            lemma_find_lane_bound(st.lanes, None, 0);
        },
        None => {},
    }
}

proof fn lemma_merges(st: LaneState, srcs: Seq<(int, int)>, cs: Seq<CommitInfo>, ps: Seq<String>, k: int)
    requires
        lanes_ok(st),
        forall|t: int|
            #![trigger srcs[t]]
            0 <= t < srcs.len() ==> 0 <= srcs[t].0 < st.lanes.len() && 0 <= srcs[t].1 < PALETTE_LEN,
    ensures
        ({
            let r = merges(st, srcs, cs, ps, k);
            &&& lanes_ok(r.0)
            &&& r.0.lanes.len() >= st.lanes.len()
            &&& forall|t: int|
                #![trigger r.1[t]]
                0 <= t < r.1.len() ==> 0 <= r.1[t].0 < r.0.lanes.len() && 0 <= r.1[t].1 < PALETTE_LEN
        }),
    decreases ps.len() - k,
{
    if 1 <= k < ps.len() {
        let p = ps[k]@;
        if !is_known(cs, p) {
            lemma_merges(st, srcs, cs, ps, k + 1);
        } else {
            match find_lane_from(st.lanes, Some(p), 0) {
                Some(pl) => {
                    lemma_find_lane_bound(st.lanes, Some(p), 0);
                    let s2 = srcs.push((pl, st.colors[pl] as int));
                    assert forall|t: int| #![trigger s2[t]] 0 <= t < s2.len() implies 0 <= s2[t].0
                        < st.lanes.len() && 0 <= s2[t].1 < PALETTE_LEN by {
                        if t < srcs.len() {
                            assert(s2[t] == srcs[t]);
                        }
                    }
                    lemma_merges(st, s2, cs, ps, k + 1);
                },
                None => {
                    let a = new_lane(st, p);
                    lemma_new_lane(st, p);
                    let s2 = srcs.push((a.1, a.2 as int));
                    assert forall|t: int| #![trigger s2[t]] 0 <= t < s2.len() implies 0 <= s2[t].0
                        < a.0.lanes.len() && 0 <= s2[t].1 < PALETTE_LEN by {
                        if t < srcs.len() {
                            assert(s2[t] == srcs[t]);
                        }
                    }
                    lemma_merges(a.0, s2, cs, ps, k + 1);
                },
            }
        }
    }
}

proof fn lemma_count_open_bound(l: Seq<Option<Seq<char>>>)
    ensures
        count_open(l) <= l.len(),
    decreases l.len(),
{
    if l.len() > 0 {
        lemma_count_open_bound(l.drop_last());
    }
}

proof fn lemma_step(st: LaneState, cs: Seq<CommitInfo>, c: CommitInfo)
    requires
        lanes_ok(st),
    ensures
        lanes_ok(step(st, cs, c).0),
        row_ok(step(st, cs, c).1),
        step(st, cs, c).0.lanes.len() >= st.lanes.len(),
        step(st, cs, c).1.lanes.len() == step(st, cs, c).0.lanes.len(),
{
    let (st1, lane) = match find_lane_from(st.lanes, Some(c.id@), 0) {
        Some(l) => (st, l),
        None => {
            let a = new_lane(st, c.id@);
            (a.0, a.1)
        },
    };
    match find_lane_from(st.lanes, Some(c.id@), 0) {
        Some(l) => {
            lemma_find_lane_bound(st.lanes, Some(c.id@), 0);
        },
        None => {
            lemma_new_lane(st, c.id@);
        },
    }
    let ps = c.parent_ids@;
    let first = if ps.len() > 0 && is_known(cs, ps[0]@) {
        Some(ps[0]@)
    } else {
        None
    };
    let st2 = LaneState { lanes: st1.lanes.update(lane, first), ..st1 };
    assert(lanes_ok(st2));
    lemma_merges(st2, Seq::empty(), cs, ps, 1);
    let st3 = merges(st2, Seq::empty(), cs, ps, 1).0;
    lemma_count_open_bound(st3.lanes);
}

/// Every row of the layout is well formed, and the number of lanes never
/// shrinks from one row to the next.
pub proof fn law_layout_rows(cs: Seq<CommitInfo>, n: int)
    requires
        0 <= n,
    ensures
        lanes_ok(layout(cs, n).0),
        layout(cs, n).1.len() == n,
        forall|k: int| 0 <= k < n ==> row_ok(#[trigger] layout(cs, n).1[k]),
        forall|k: int|
            0 <= k < n - 1 ==> (#[trigger] layout(cs, n).1[k]).lanes.len() <= layout(cs, n).1[k
                + 1].lanes.len(),
        n > 0 ==> layout(cs, n).1[n - 1].lanes.len() == layout(cs, n).0.lanes.len(),
    decreases n,
{
    if n > 0 {
        law_layout_rows(cs, n - 1);
        let prev = layout(cs, n - 1);
        lemma_step(prev.0, cs, cs[n - 1]);
        let rows = layout(cs, n).1;
        assert(rows == prev.1.push(step(prev.0, cs, cs[n - 1]).1));
        assert forall|k: int| 0 <= k < n implies row_ok(#[trigger] rows[k]) by {
            if k < n - 1 {
                assert(rows[k] == prev.1[k]);
            }
        }
        assert forall|k: int| 0 <= k < n - 1 implies (#[trigger] rows[k]).lanes.len() <= rows[k
            + 1].lanes.len() by {
            assert(rows[k] == prev.1[k]);
            if k + 1 < n - 1 {
                assert(rows[k + 1] == prev.1[k + 1]);
            }
        }
    }
}

/// The number of lanes marked open in a row.
pub open spec fn count_marked(lanes: Seq<Option<bool>>) -> nat
    decreases lanes.len(),
{
    if lanes.len() == 0 {
        0
    } else {
        count_marked(lanes.drop_last()) + if lanes.last() is Some {
            1nat
        } else {
            0nat
        }
    }
}

/// What a row says of its lanes agrees with itself: each lane is open
/// (`Some(true)`) or free (`None`), the active count is the number of open
/// lanes, and each merge source names an open lane that has the source's
/// colour.
pub open spec fn row_consistent(r: GraphRowView) -> bool {
    &&& forall|k: int| 0 <= k < r.lanes.len() ==> (#[trigger] r.lanes[k] is None || r.lanes[k] == Some(true))
    &&& r.num_active_lanes == count_marked(r.lanes)
    &&& forall|t: int|
        #![trigger r.merge_sources[t]]
        0 <= t < r.merge_sources.len() ==> {
            let (l, c) = r.merge_sources[t];
            &&& 0 <= l < r.lanes.len()
            &&& r.lanes[l] is Some
            &&& r.lane_colors[l] == c
        }
}

proof fn lemma_count_marked(l: Seq<Option<Seq<char>>>)
    ensures
        count_marked(l.map_values(|x: Option<Seq<char>>| mark(x))) == count_open(l),
    decreases l.len(),
{
    if l.len() > 0 {
        lemma_count_marked(l.drop_last());
        assert(l.map_values(|x: Option<Seq<char>>| mark(x)).drop_last() =~= l.drop_last().map_values(
            |x: Option<Seq<char>>| mark(x),
        ));
    }
}

/// Sources that name open lanes of their colour.
pub open spec fn sources_open(st: LaneState, srcs: Seq<(int, int)>) -> bool {
    forall|t: int|
        #![trigger srcs[t]]
        0 <= t < srcs.len() ==> 0 <= srcs[t].0 < st.lanes.len() && st.lanes[srcs[t].0] is Some
            && st.colors[srcs[t].0] == srcs[t].1
}

proof fn lemma_new_lane_keeps_open(st: LaneState, id: Seq<char>)
    requires
        lanes_ok(st),
    ensures
        forall|l: int|
            #![trigger new_lane(st, id).0.lanes[l]]
            0 <= l < st.lanes.len() && st.lanes[l] is Some ==> new_lane(st, id).0.lanes[l] == st.lanes[l]
                && new_lane(st, id).0.colors[l] == st.colors[l],
        new_lane(st, id).0.lanes[new_lane(st, id).1] is Some,
{
    lemma_new_lane(st, id);
    match find_lane_from(st.lanes, None, 0) {
        Some(f) => {
            lemma_find_lane_bound(st.lanes, None, 0);
        },
        None => {},
    }
}

proof fn lemma_merges_open(st: LaneState, srcs: Seq<(int, int)>, cs: Seq<CommitInfo>, ps: Seq<String>, k: int)
    requires
        lanes_ok(st),
        sources_open(st, srcs),
    ensures
        sources_open(merges(st, srcs, cs, ps, k).0, merges(st, srcs, cs, ps, k).1),
    decreases ps.len() - k,
{
    if 1 <= k < ps.len() {
        let p = ps[k]@;
        if !is_known(cs, p) {
            lemma_merges_open(st, srcs, cs, ps, k + 1);
        } else {
            match find_lane_from(st.lanes, Some(p), 0) {
                Some(pl) => {
                    lemma_find_lane_bound(st.lanes, Some(p), 0);
                    let s2 = srcs.push((pl, st.colors[pl] as int));
                    assert(sources_open(st, s2)) by {
                        assert forall|t: int| #![trigger s2[t]] 0 <= t < s2.len() implies 0 <= s2[t].0
                            < st.lanes.len() && st.lanes[s2[t].0] is Some && st.colors[s2[t].0]
                            == s2[t].1 by {
                            if t < srcs.len() {
                                assert(s2[t] == srcs[t]);
                            }
                        }
                    }
                    lemma_merges_open(st, s2, cs, ps, k + 1);
                },
                None => {
                    let a = new_lane(st, p);
                    lemma_new_lane(st, p);
                    lemma_new_lane_keeps_open(st, p);
                    let s2 = srcs.push((a.1, a.2 as int));
                    assert(sources_open(a.0, s2)) by {
                        assert forall|t: int| #![trigger s2[t]] 0 <= t < s2.len() implies 0 <= s2[t].0
                            < a.0.lanes.len() && a.0.lanes[s2[t].0] is Some && a.0.colors[s2[t].0]
                            == s2[t].1 by {
                            if t < srcs.len() {
                                assert(s2[t] == srcs[t]);
                                assert(a.0.lanes[srcs[t].0] == st.lanes[srcs[t].0]);
                            }
                        }
                    }
                    lemma_merges_open(a.0, s2, cs, ps, k + 1);
                },
            }
        }
    }
}

proof fn lemma_step_consistent(st: LaneState, cs: Seq<CommitInfo>, c: CommitInfo)
    requires
        lanes_ok(st),
    ensures
        row_consistent(step(st, cs, c).1),
{
    let (st1, lane) = match find_lane_from(st.lanes, Some(c.id@), 0) {
        Some(l) => (st, l),
        None => {
            let a = new_lane(st, c.id@);
            (a.0, a.1)
        },
    };
    match find_lane_from(st.lanes, Some(c.id@), 0) {
        Some(l) => {
            lemma_find_lane_bound(st.lanes, Some(c.id@), 0);
        },
        None => {
            lemma_new_lane(st, c.id@);
        },
    }
    let ps = c.parent_ids@;
    let first = if ps.len() > 0 && is_known(cs, ps[0]@) {
        Some(ps[0]@)
    } else {
        None
    };
    let st2 = LaneState { lanes: st1.lanes.update(lane, first), ..st1 };
    assert(lanes_ok(st2));
    lemma_merges_open(st2, Seq::empty(), cs, ps, 1);
    let st3 = merges(st2, Seq::empty(), cs, ps, 1).0;
    lemma_count_marked(st3.lanes);
    let r = step(st, cs, c).1;
    assert forall|k: int| 0 <= k < r.lanes.len() implies (#[trigger] r.lanes[k] is None || r.lanes[k] == Some(
        true,
    )) by {
        assert(r.lanes[k] == mark(st3.lanes[k]));
    }
}

/// Every row of the layout agrees with itself: its lanes are open or free,
/// its active count is the number of its open lanes, and each merge source
/// names an open lane of the source's colour.
pub proof fn law_layout_rows_consistent(cs: Seq<CommitInfo>, n: int)
    requires
        0 <= n,
    ensures
        forall|k: int| 0 <= k < n ==> row_consistent(#[trigger] layout(cs, n).1[k]),
    decreases n,
{
    if n > 0 {
        law_layout_rows_consistent(cs, n - 1);
        law_layout_rows(cs, n - 1);
        let prev = layout(cs, n - 1);
        lemma_step_consistent(prev.0, cs, cs[n - 1]);
        let rows = layout(cs, n).1;
        assert(rows == prev.1.push(step(prev.0, cs, cs[n - 1]).1));
        assert forall|k: int| 0 <= k < n implies row_consistent(#[trigger] rows[k]) by {
            if k < n - 1 {
                assert(rows[k] == prev.1[k]);
            }
        }
    }
}

} // verus!
