//! Lane identity: one integer per row, assigned by a depth-first walk that
//! follows parents in the order in which each commit lists them.
//!
//! The walk keeps an explicit stack. When a row comes to the top of the stack
//! for the first time it takes the current lane number; when at that moment
//! none of its parents is still unassigned, the lane ends there and the lane
//! number goes up by one.

use vstd::prelude::*;
use crate::rows::rows_view;

verus! {

/// The parents of every row, each either the row of the parent or `None`
/// where the parent is not among the rows.
pub type ParentRows = Seq<Seq<Option<usize>>>;

/// Every parent that is given lies among the rows.
pub open spec fn graph_wf(g: ParentRows) -> bool {
    forall|i: int, k: int|
        0 <= i < g.len() && 0 <= k < g[i].len() ==> (#[trigger] g[i][k] matches Some(p) ==> p
            < g.len())
}

/// The first parent at or after position `from` that has no lane yet.
pub open spec fn next_parent(ps: Seq<Option<usize>>, lanes: Seq<i32>, from: int) -> Option<usize>
    decreases ps.len() - from,
{
    if from < 0 || from >= ps.len() {
        None
    } else if ps[from] matches Some(p) && p < lanes.len() && lanes[p as int] == 0 {
        ps[from]
    } else {
        next_parent(ps, lanes, from + 1)
    }
}

/// The state of a walk: the rows being descended, the lanes given so far
/// (0 where none is given yet), and the current lane number.
pub struct Walk {
    pub stack: Seq<usize>,
    pub lanes: Seq<i32>,
    pub next: int,
}

/// How many rows have no lane yet.
pub open spec fn unassigned(lanes: Seq<i32>) -> nat
    decreases lanes.len(),
{
    if lanes.len() == 0 {
        0
    } else {
        unassigned(lanes.drop_last()) + if lanes.last() == 0 {
            1nat
        } else {
            0nat
        }
    }
}

/// A walk in good order: only the top of the stack may still lack a lane,
/// and the lane number has room to grow.
pub open spec fn walk_wf(g: ParentRows, w: Walk) -> bool {
    &&& graph_wf(g)
    &&& g.len() < i32::MAX
    &&& w.lanes.len() == g.len()
    &&& 1 <= w.next
    &&& w.next + unassigned(w.lanes) <= g.len() + 1
    &&& forall|j: int| 0 <= j < w.stack.len() ==> (#[trigger] w.stack[j]) < g.len()
    &&& forall|j: int| 0 <= j < w.stack.len() - 1 ==> w.lanes[(#[trigger] w.stack[j]) as int] != 0
    &&& forall|i: int|
        0 <= i < w.lanes.len() ==> 0 <= #[trigger] w.lanes[i] <= w.next && w.lanes[i] <= g.len()
}

/// Whether the row on top of the stack is there for the first time.
pub open spec fn top_is_new(w: Walk) -> bool {
    w.stack.len() > 0 && w.lanes[w.stack.last() as int] == 0
}

/// What is left to do: falls with every step of the walk.
pub open spec fn walk_measure(w: Walk) -> int {
    2 * (unassigned(w.lanes) - if top_is_new(w) {
        1int
    } else {
        0int
    }) + w.stack.len()
}

/// One step of the walk on a non-empty stack.
pub open spec fn walk_step(g: ParentRows, w: Walk) -> Walk {
    let cur = w.stack.last() as int;
    let first_visit = w.lanes[cur] == 0;
    let lanes = if first_visit {
        w.lanes.update(cur, w.next as i32)
    } else {
        w.lanes
    };
    match next_parent(g[cur], lanes, 0) {
        Some(p) => Walk { stack: w.stack.push(p), lanes, next: w.next },
        None => Walk {
            stack: w.stack.drop_last(),
            lanes,
            next: if first_visit {
                w.next + 1
            } else {
                w.next
            },
        },
    }
}

/// Giving a lane to a row that had none leaves one row fewer without.
pub proof fn lemma_assign_one(lanes: Seq<i32>, i: int, v: i32)
    requires
        0 <= i < lanes.len(),
        lanes[i] == 0,
        v != 0,
    ensures
        unassigned(lanes.update(i, v)) == unassigned(lanes) - 1,
    decreases lanes.len(),
{
    let after = lanes.update(i, v);
    if i == lanes.len() - 1 {
        assert(after.drop_last() == lanes.drop_last());
    } else {
        assert(after.drop_last() == lanes.drop_last().update(i, v));
        lemma_assign_one(lanes.drop_last(), i, v);
    }
}

/// A row without a lane is counted.
pub proof fn lemma_unassigned_positive(lanes: Seq<i32>, i: int)
    requires
        0 <= i < lanes.len(),
        lanes[i] == 0,
    ensures
        unassigned(lanes) >= 1,
    decreases lanes.len(),
{
    if i < lanes.len() - 1 {
        lemma_unassigned_positive(lanes.drop_last(), i);
    }
}

/// What `next_parent` finds is a listed parent without a lane.
pub proof fn lemma_next_parent(ps: Seq<Option<usize>>, lanes: Seq<i32>, from: int)
    requires
        0 <= from,
    ensures
        match next_parent(ps, lanes, from) {
            Some(p) => p < lanes.len() && lanes[p as int] == 0 && exists|k: int|
                from <= k < ps.len() && ps[k] == Some(p),
            None => forall|k: int|
                from <= k < ps.len() ==> !(#[trigger] ps[k] matches Some(p) && p < lanes.len()
                    && lanes[p as int] == 0),
        },
    decreases ps.len() - from,
{
    if from < ps.len() {
        if ps[from] matches Some(p) && p < lanes.len() && lanes[p as int] == 0 {
            assert(ps[from] == Some(ps[from]->0));
        } else {
            lemma_next_parent(ps, lanes, from + 1);
            match next_parent(ps, lanes, from + 1) {
                Some(p) => {
                    let k = choose|k: int| from + 1 <= k < ps.len() && ps[k] == Some(p);
                    assert(from <= k < ps.len() && ps[k] == Some(p));
                },
                None => {},
            }
        }
    }
}

/// A step keeps the walk in good order, brings it nearer its end, and
/// changes no lane that was already given.
pub proof fn lemma_walk_step(g: ParentRows, w: Walk)
    requires
        walk_wf(g, w),
        w.stack.len() > 0,
    ensures
        walk_wf(g, walk_step(g, w)),
        walk_measure(walk_step(g, w)) < walk_measure(w),
        walk_measure(w) >= 0,
        forall|i: int|
            0 <= i < g.len() && w.lanes[i] != 0 ==> #[trigger] walk_step(g, w).lanes[i]
                == w.lanes[i],
        w.lanes[w.stack.last() as int] == 0 ==> walk_step(g, w).lanes[w.stack.last() as int]
            == w.next,
        walk_step(g, w).lanes[w.stack.last() as int] != 0,
        w.next <= walk_step(g, w).next,
{
    let cur = w.stack.last() as int;
    assert(w.stack[w.stack.len() - 1] < g.len());
    let first_visit = w.lanes[cur] == 0;
    let lanes = if first_visit {
        w.lanes.update(cur, w.next as i32)
    } else {
        w.lanes
    };
    if first_visit {
        lemma_unassigned_positive(w.lanes, cur);
        lemma_assign_one(w.lanes, cur, w.next as i32);
    }
    lemma_next_parent(g[cur], lanes, 0);
    let s = walk_step(g, w);
    match next_parent(g[cur], lanes, 0) {
        Some(p) => {
            lemma_unassigned_positive(lanes, p as int);
            assert forall|j: int| 0 <= j < s.stack.len() - 1 implies s.lanes[(
            #[trigger] s.stack[j]) as int] != 0 by {
                if j < w.stack.len() - 1 {
                    assert(s.stack[j] == w.stack[j]);
                    assert(w.lanes[w.stack[j] as int] != 0);
                } else {
                    assert(s.stack[j] == cur);
                }
            }
            assert forall|j: int| 0 <= j < s.stack.len() implies (#[trigger] s.stack[j])
                < g.len() by {
                if j < w.stack.len() {
                    assert(s.stack[j] == w.stack[j]);
                }
            }
            assert(top_is_new(s));
        },
        None => {
            assert forall|j: int| 0 <= j < s.stack.len() - 1 implies s.lanes[(
            #[trigger] s.stack[j]) as int] != 0 by {
                assert(s.stack[j] == w.stack[j]);
                assert(w.lanes[w.stack[j] as int] != 0);
            }
            assert forall|j: int| 0 <= j < s.stack.len() implies (#[trigger] s.stack[j])
                < g.len() by {
                assert(s.stack[j] == w.stack[j]);
            }
            if s.stack.len() > 0 {
                assert(s.stack.last() == w.stack[w.stack.len() - 2]);
                assert(w.lanes[w.stack[w.stack.len() - 2] as int] != 0);
                assert(!top_is_new(s));
            }
        },
    }
}

/// The walk, run until its stack is empty.
pub open spec fn walk_run(g: ParentRows, w: Walk) -> Walk
    decreases walk_measure(w),
    when walk_wf(g, w)
{
    if w.stack.len() == 0 {
        w
    } else {
        proof {
            lemma_walk_step(g, w);
        }
        walk_run(g, walk_step(g, w))
    }
}

/// A finished walk is in good order, has kept every lane that was given
/// before it began, and has left no row of its stack without a lane.
pub proof fn lemma_walk_run(g: ParentRows, w: Walk)
    requires
        walk_wf(g, w),
    ensures
        walk_wf(g, walk_run(g, w)),
        walk_run(g, w).stack.len() == 0,
        w.next <= walk_run(g, w).next,
        forall|i: int|
            0 <= i < g.len() && w.lanes[i] != 0 ==> #[trigger] walk_run(g, w).lanes[i]
                == w.lanes[i],
        forall|j: int|
            0 <= j < w.stack.len() ==> walk_run(g, w).lanes[(#[trigger] w.stack[j]) as int] != 0,
    decreases walk_measure(w),
{
    if w.stack.len() > 0 {
        lemma_walk_step(g, w);
        let s = walk_step(g, w);
        lemma_walk_run(g, s);
        let r = walk_run(g, w);
        assert(r == walk_run(g, s));
        assert forall|j: int| 0 <= j < w.stack.len() implies r.lanes[(#[trigger] w.stack[j]) as int]
            != 0 by {
            let row = w.stack[j] as int;
            if j < w.stack.len() - 1 {
                assert(w.lanes[row] != 0);
                assert(s.lanes[row] == w.lanes[row]);
            } else {
                assert(s.lanes[row] != 0);
            }
            assert(r.lanes[row] == s.lanes[row]);
        }
        assert forall|i: int| 0 <= i < g.len() && w.lanes[i] != 0 implies #[trigger] r.lanes[i]
            == w.lanes[i] by {
            assert(s.lanes[i] == w.lanes[i]);
        }
    }
}

/// Lanes and lane number after a walk that starts at `root`; nothing
/// changes where `root` has a lane already.
pub open spec fn walk_from(g: ParentRows, root: int, lanes: Seq<i32>, next: int) -> (Seq<i32>, int) {
    if lanes[root] != 0 {
        (lanes, next)
    } else {
        let w = walk_run(g, Walk { stack: seq![root as usize], lanes, next });
        (w.lanes, w.next)
    }
}

/// Whether some other row lists `row` as a parent. A row that no other
/// row lists is a head.
pub open spec fn is_referenced(g: ParentRows, row: int) -> bool {
    exists|i: int, k: int|
        0 <= i < g.len() && i != row && 0 <= k < g[i].len() && #[trigger] g[i][k] == Some(
            row as usize,
        )
}

/// Lanes and lane number after walks from the rows below `upto`, in
/// ascending order: from the heads alone, or from every row.
pub open spec fn walks_upto(
    g: ParentRows,
    lanes: Seq<i32>,
    next: int,
    upto: int,
    heads_only: bool,
) -> (Seq<i32>, int)
    decreases upto,
{
    if upto <= 0 {
        (lanes, next)
    } else {
        let (l, n) = walks_upto(g, lanes, next, upto - 1, heads_only);
        if heads_only && is_referenced(g, upto - 1) {
            (l, n)
        } else {
            walk_from(g, upto - 1, l, n)
        }
    }
}

/// The lane of every row: walks from the heads first, then from whatever
/// row is still without a lane.
pub open spec fn layout_indices(g: ParentRows) -> Seq<i32> {
    let zeros = Seq::new(g.len(), |i: int| 0i32);
    let (l, n) = walks_upto(g, zeros, 1, g.len() as int, true);
    walks_upto(g, l, n, g.len() as int, false).0
}

/// Lanes in good order between two walks.
pub open spec fn lanes_wf(g: ParentRows, lanes: Seq<i32>, next: int) -> bool {
    walk_wf(g, Walk { stack: Seq::empty(), lanes, next })
}

/// A walk from a row gives that row a lane and keeps the others.
pub proof fn lemma_walk_from(g: ParentRows, root: int, lanes: Seq<i32>, next: int)
    requires
        lanes_wf(g, lanes, next),
        0 <= root < g.len(),
    ensures
        lanes_wf(g, walk_from(g, root, lanes, next).0, walk_from(g, root, lanes, next).1),
        walk_from(g, root, lanes, next).0[root] != 0,
        next <= walk_from(g, root, lanes, next).1,
        forall|i: int|
            0 <= i < g.len() && lanes[i] != 0 ==> #[trigger] walk_from(g, root, lanes, next).0[i]
                == lanes[i],
{
    if lanes[root] == 0 {
        let w = Walk { stack: seq![root as usize], lanes, next };
        assert(walk_wf(g, w));
        lemma_walk_run(g, w);
        assert(w.stack[0] == root);
        let r = walk_run(g, w);
        assert(r.stack =~= Seq::empty());
    }
}

/// After the walks from the rows below `upto` the lanes are in good order
/// and, where every row was a starting point, each of those rows has one.
pub proof fn lemma_walks_upto(g: ParentRows, lanes: Seq<i32>, next: int, upto: int, heads_only: bool)
    requires
        lanes_wf(g, lanes, next),
        0 <= upto <= g.len(),
    ensures
        lanes_wf(
            g,
            walks_upto(g, lanes, next, upto, heads_only).0,
            walks_upto(g, lanes, next, upto, heads_only).1,
        ),
        forall|i: int|
            0 <= i < g.len() && lanes[i] != 0 ==> #[trigger] walks_upto(
                g,
                lanes,
                next,
                upto,
                heads_only,
            ).0[i] == lanes[i],
        !heads_only ==> forall|i: int|
            0 <= i < upto ==> #[trigger] walks_upto(g, lanes, next, upto, heads_only).0[i] != 0,
    decreases upto,
{
    if upto > 0 {
        lemma_walks_upto(g, lanes, next, upto - 1, heads_only);
        let (l, n) = walks_upto(g, lanes, next, upto - 1, heads_only);
        if !(heads_only && is_referenced(g, upto - 1)) {
            lemma_walk_from(g, upto - 1, l, n);
            let r = walk_from(g, upto - 1, l, n).0;
            assert forall|i: int| 0 <= i < g.len() && lanes[i] != 0 implies #[trigger] r[i]
                == lanes[i] by {
                assert(l[i] == lanes[i]);
            }
            if !heads_only {
                assert forall|i: int| 0 <= i < upto implies #[trigger] r[i] != 0 by {
                    if i < upto - 1 {
                        assert(l[i] != 0);
                    }
                }
            }
        }
    }
}

/// No row of an all-zero sequence has a lane.
pub proof fn lemma_unassigned_zeros(n: nat)
    ensures
        unassigned(Seq::new(n, |i: int| 0i32)) == n,
    decreases n,
{
    if n > 0 {
        assert(Seq::new(n, |i: int| 0i32).drop_last() == Seq::new((n - 1) as nat, |i: int| 0i32));
        lemma_unassigned_zeros((n - 1) as nat);
    }
}

/// Every row gets a lane, and lanes are numbered from 1 up to the number of
/// rows at most.
pub proof fn lemma_layout_indices_total(g: ParentRows)
    requires
        graph_wf(g),
        g.len() < i32::MAX,
    ensures
        layout_indices(g).len() == g.len(),
        forall|i: int| 0 <= i < g.len() ==> 1 <= #[trigger] layout_indices(g)[i] <= g.len(),
{
    let zeros = Seq::new(g.len(), |i: int| 0i32);
    lemma_unassigned_zeros(g.len());
    assert(lanes_wf(g, zeros, 1));
    lemma_walks_upto(g, zeros, 1, g.len() as int, true);
    let (l, n) = walks_upto(g, zeros, 1, g.len() as int, true);
    lemma_walks_upto(g, l, n, g.len() as int, false);
    let (l2, n2) = walks_upto(g, l, n, g.len() as int, false);
    assert(l2 == walks_upto(g, l, n, g.len() as int, false).0);
    assert forall|i: int| 0 <= i < l2.len() implies #[trigger] l2[i] != 0 by {
        assert(walks_upto(g, l, n, g.len() as int, false).0[i] != 0);
    }
    lemma_all_assigned(l2);
    assert forall|i: int| 0 <= i < g.len() implies 1 <= #[trigger] l2[i] <= g.len() by {
        assert(l2[i] != 0);
    }
}

/// Where every row has a lane, none is counted as lacking one.
pub proof fn lemma_all_assigned(lanes: Seq<i32>)
    requires
        forall|i: int| 0 <= i < lanes.len() ==> #[trigger] lanes[i] != 0,
    ensures
        unassigned(lanes) == 0,
    decreases lanes.len(),
{
    if lanes.len() > 0 {
        assert(lanes.last() == lanes[lanes.len() - 1]);
        assert forall|i: int| 0 <= i < lanes.drop_last().len() implies #[trigger] lanes.drop_last()[i]
            != 0 by {
            assert(lanes.drop_last()[i] == lanes[i]);
        }
        lemma_all_assigned(lanes.drop_last());
    }
}

/// Whether a parent entry of another row before position `(r, k)`, rows
/// first, names `row`.
pub open spec fn referenced_before(g: ParentRows, row: int, r: int, k: int) -> bool {
    exists|i: int, j: int|
        0 <= i < g.len() && i != row && 0 <= j < g[i].len() && (i < r || (i == r && j < k))
            && #[trigger] g[i][j] == Some(row as usize)
}

proof fn lemma_referenced_step(g: ParentRows, row: int, r: int, k: int)
    requires
        0 <= r < g.len(),
        0 <= k < g[r].len(),
    ensures
        referenced_before(g, row, r, k + 1) == (referenced_before(g, row, r, k) || (r != row
            && g[r][k] == Some(row as usize))),
{
    if referenced_before(g, row, r, k + 1) {
        let (i, j) = choose|i: int, j: int|
            0 <= i < g.len() && i != row && 0 <= j < g[i].len() && (i < r || (i == r && j < k + 1))
                && #[trigger] g[i][j] == Some(row as usize);
        if !(i == r && j == k) {
            assert(0 <= i < g.len() && i != row && 0 <= j < g[i].len() && (i < r || (i == r && j
                < k)) && g[i][j] == Some(row as usize));
        }
    }
    if referenced_before(g, row, r, k) {
        let (i, j) = choose|i: int, j: int|
            0 <= i < g.len() && i != row && 0 <= j < g[i].len() && (i < r || (i == r && j < k))
                && #[trigger] g[i][j] == Some(row as usize);
        assert(0 <= i < g.len() && i != row && 0 <= j < g[i].len() && (i < r || (i == r && j < k
            + 1)) && g[i][j] == Some(row as usize));
    }
    if r != row && g[r][k] == Some(row as usize) {
        assert(0 <= r < g.len() && r != row && 0 <= k < g[r].len() && (r < r || (r == r && k < k
            + 1)) && g[r][k] == Some(row as usize));
    }
}

proof fn lemma_referenced_row_end(g: ParentRows, row: int, r: int)
    requires
        0 <= r < g.len(),
    ensures
        referenced_before(g, row, r + 1, 0) == referenced_before(g, row, r, g[r].len() as int),
{
    if referenced_before(g, row, r + 1, 0) {
        let (i, j) = choose|i: int, j: int|
            0 <= i < g.len() && i != row && 0 <= j < g[i].len() && (i < r + 1 || (i == r + 1 && j
                < 0)) && #[trigger] g[i][j] == Some(row as usize);
        assert(0 <= i < g.len() && i != row && 0 <= j < g[i].len() && (i < r || (i == r && j
            < g[r].len())) && g[i][j] == Some(row as usize));
    }
    if referenced_before(g, row, r, g[r].len() as int) {
        let (i, j) = choose|i: int, j: int|
            0 <= i < g.len() && i != row && 0 <= j < g[i].len() && (i < r || (i == r && j
                < g[r].len())) && #[trigger] g[i][j] == Some(row as usize);
        assert(0 <= i < g.len() && i != row && 0 <= j < g[i].len() && (i < r + 1 || (i == r + 1
            && j < 0)) && g[i][j] == Some(row as usize));
    }
}

proof fn lemma_referenced_all(g: ParentRows, row: int)
    ensures
        referenced_before(g, row, g.len() as int, 0) == is_referenced(g, row),
{
    if referenced_before(g, row, g.len() as int, 0) {
        let (i, j) = choose|i: int, j: int|
            0 <= i < g.len() && i != row && 0 <= j < g[i].len() && (i < g.len() || (i == g.len()
                && j < 0)) && #[trigger] g[i][j] == Some(row as usize);
        assert(0 <= i < g.len() && i != row && 0 <= j < g[i].len() && g[i][j] == Some(
            row as usize,
        ));
    }
    if is_referenced(g, row) {
        let (i, j) = choose|i: int, j: int|
            0 <= i < g.len() && i != row && 0 <= j < g[i].len() && #[trigger] g[i][j] == Some(
                row as usize,
            );
        assert(0 <= i < g.len() && i != row && 0 <= j < g[i].len() && (i < g.len() || (i
            == g.len() && j < 0)) && g[i][j] == Some(row as usize));
    }
}

/// Marks the rows that some other row lists as a parent.
fn referenced_rows(parent_rows: &Vec<Vec<Option<usize>>>) -> (marks: Vec<bool>)
    requires
        graph_wf(rows_view(parent_rows@)),
    ensures
        marks@.len() == parent_rows@.len(),
        forall|row: int|
            0 <= row < marks@.len() ==> #[trigger] marks@[row] == is_referenced(rows_view(parent_rows@), row),
{
    let n: usize = parent_rows.len();
    let ghost g = rows_view(parent_rows@);
    let mut marks: Vec<bool> = Vec::new();
    let mut i: usize = 0;
    while i < n
        invariant
            i <= n,
            marks@.len() == i,
            forall|row: int| 0 <= row < i ==> !(#[trigger] marks@[row]),
        decreases n - i,
    {
        marks.push(false);
        i += 1;
    }
    assert forall|row: int| 0 <= row < n implies #[trigger] marks@[row] == referenced_before(
        g,
        row,
        0,
        0,
    ) by {}
    let mut r: usize = 0;
    while r < n
        invariant
            r <= n,
            n == g.len(),
            g == rows_view(parent_rows@),
            graph_wf(g),
            marks@.len() == n,
            forall|row: int|
                0 <= row < n ==> #[trigger] marks@[row] == referenced_before(g, row, r as int, 0),
        decreases n - r,
    {
        let ps = &parent_rows[r];
        let mut k: usize = 0;
        while k < ps.len()
            invariant
                r < n,
                n == g.len(),
                g == rows_view(parent_rows@),
                graph_wf(g),
                ps@ == g[r as int],
                k <= ps@.len(),
                marks@.len() == n,
                forall|row: int|
                    0 <= row < n ==> #[trigger] marks@[row] == referenced_before(
                        g,
                        row,
                        r as int,
                        k as int,
                    ),
            decreases ps@.len() - k,
        {
            let ghost before = marks@;
            match ps[k] {
                Some(p) => {
                    assert(g[r as int][k as int] == Some(p));
                    if p != r {
                        marks.set(p, true);
                    }
                },
                None => {},
            }
            assert forall|row: int| 0 <= row < n implies #[trigger] marks@[row]
                == referenced_before(g, row, r as int, k + 1) by {
                lemma_referenced_step(g, row, r as int, k as int);
                assert(before[row] == referenced_before(g, row, r as int, k as int));
            }
            k += 1;
        }
        assert forall|row: int| 0 <= row < n implies #[trigger] marks@[row] == referenced_before(
            g,
            row,
            r + 1,
            0,
        ) by {
            lemma_referenced_row_end(g, row, r as int);
        }
        r += 1;
    }
    assert forall|row: int| 0 <= row < marks@.len() implies #[trigger] marks@[row]
        == is_referenced(g, row) by {
        lemma_referenced_all(g, row);
    }
    marks
}

/// Finds the first parent in `ps` that has no lane yet.
fn find_next_parent(ps: &Vec<Option<usize>>, lanes: &Vec<i32>) -> (found: Option<usize>)
    ensures
        found == next_parent(ps@, lanes@, 0),
{
    let mut k: usize = 0;
    while k < ps.len()
        invariant
            k <= ps@.len(),
            next_parent(ps@, lanes@, 0) == next_parent(ps@, lanes@, k as int),
        decreases ps@.len() - k,
    {
        match ps[k] {
            Some(p) => {
                if p < lanes.len() && lanes[p] == 0 {
                    return Some(p);
                }
            },
            None => {},
        }
        k += 1;
    }
    None
}

/// Walks from `root` and returns the lanes and the lane number that result.
fn walk(parent_rows: &Vec<Vec<Option<usize>>>, root: usize, lanes: Vec<i32>, current: i32) -> (out: (
    Vec<i32>,
    i32,
))
    requires
        lanes_wf(rows_view(parent_rows@), lanes@, current as int),
        root < parent_rows@.len(),
    ensures
        (out.0@, out.1 as int) == walk_from(rows_view(parent_rows@), root as int, lanes@, current as int),
        lanes_wf(rows_view(parent_rows@), out.0@, out.1 as int),
{
    let ghost g = rows_view(parent_rows@);
    if lanes[root] != 0 {
        return (lanes, current);
    }
    let ghost start = Walk { stack: seq![root], lanes: lanes@, next: current as int };
    let mut lanes = lanes;
    let mut current = current;
    let mut stack: Vec<usize> = Vec::new();
    stack.push(root);
    assert(stack@ == seq![root]);
    assert(walk_wf(g, start));
    while stack.len() > 0
        invariant
            g == rows_view(parent_rows@),
            walk_wf(g, Walk { stack: stack@, lanes: lanes@, next: current as int }),
            walk_run(g, Walk { stack: stack@, lanes: lanes@, next: current as int }) == walk_run(
                g,
                start,
            ),
        decreases walk_measure(Walk { stack: stack@, lanes: lanes@, next: current as int }),
    {
        let ghost w = Walk { stack: stack@, lanes: lanes@, next: current as int };
        proof {
            lemma_walk_step(g, w);
        }
        let cur: usize = stack[stack.len() - 1];
        assert(w.stack[w.stack.len() - 1] < g.len());
        let first_visit = lanes[cur] == 0;
        if first_visit {
            proof {
                lemma_unassigned_positive(lanes@, cur as int);
            }
            lanes.set(cur, current);
        }
        match find_next_parent(&parent_rows[cur], &lanes) {
            Some(p) => {
                stack.push(p);
            },
            None => {
                stack.pop();
                if first_visit {
                    current = current + 1;
                }
            },
        }
        assert(Walk { stack: stack@, lanes: lanes@, next: current as int } == walk_step(g, w));
    }
    proof {
        let w = Walk { stack: stack@, lanes: lanes@, next: current as int };
        assert(walk_run(g, w) == w);
        assert(stack@ =~= Seq::empty());
    }
    (lanes, current)
}

/// Assigns every row its lane.
///
/// `parent_rows[i]` lists the parents of row `i` in the order in which the
/// commit names them, each as the row where that parent stands, or `None`
/// where it stands in no row. Walks start from the heads (rows that no other
/// row names as a parent) in ascending order and then from any row still left
/// without a lane. Every row ends up with a lane between 1 and `n`.
pub fn assign_layout_indices(n: usize, parent_rows: &Vec<Vec<Option<usize>>>) -> (lanes: Vec<i32>)
    requires
        n == parent_rows@.len(),
        n < i32::MAX,
        graph_wf(rows_view(parent_rows@)),
    ensures
        lanes@ == layout_indices(rows_view(parent_rows@)),
        lanes@.len() == n,
        forall|i: int| 0 <= i < n ==> 1 <= #[trigger] lanes@[i] <= n,
{
    let ghost g = rows_view(parent_rows@);
    let marks = referenced_rows(parent_rows);
    let mut lanes: Vec<i32> = Vec::new();
    let mut i: usize = 0;
    while i < n
        invariant
            i <= n,
            lanes@ == Seq::new(i as nat, |j: int| 0i32),
        decreases n - i,
    {
        lanes.push(0);
        assert(lanes@ =~= Seq::new((i + 1) as nat, |j: int| 0i32));
        i += 1;
    }
    let ghost zeros = lanes@;
    proof {
        lemma_unassigned_zeros(n as nat);
        lemma_layout_indices_total(g);
    }
    let mut current: i32 = 1;
    let mut row: usize = 0;
    while row < n
        invariant
            row <= n,
            n == g.len(),
            g == rows_view(parent_rows@),
            lanes_wf(g, zeros, 1),
            marks@.len() == n,
            forall|r: int| 0 <= r < n ==> #[trigger] marks@[r] == is_referenced(g, r),
            (lanes@, current as int) == walks_upto(g, zeros, 1, row as int, true),
            lanes_wf(g, lanes@, current as int),
        decreases n - row,
    {
        if !marks[row] {
            let out = walk(parent_rows, row, lanes, current);
            lanes = out.0;
            current = out.1;
        }
        row += 1;
    }
    let ghost heads_lanes = lanes@;
    let ghost heads_next = current as int;
    row = 0;
    while row < n
        invariant
            row <= n,
            n == g.len(),
            g == rows_view(parent_rows@),
            lanes_wf(g, heads_lanes, heads_next),
            (lanes@, current as int) == walks_upto(g, heads_lanes, heads_next, row as int, false),
            lanes_wf(g, lanes@, current as int),
        decreases n - row,
    {
        let out = walk(parent_rows, row, lanes, current);
        lanes = out.0;
        current = out.1;
        row += 1;
    }
    lanes
}

} // verus!
