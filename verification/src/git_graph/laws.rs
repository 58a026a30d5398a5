//! What holds of every layout: lanes never fall along an edge whose parent
//! has one child only, and the node of a row has a column to itself.

use vstd::prelude::*;
use crate::git_graph::edges::EdgeInfo;
use crate::git_graph::edges::all_edges;
use crate::git_graph::edges::edge_for;
use crate::git_graph::edges::edges_upto;
use crate::git_graph::edges::row_edges;
use crate::git_graph::lanes::ParentRows;
use crate::git_graph::lanes::Walk;
use crate::git_graph::lanes::graph_wf;
use crate::git_graph::lanes::is_referenced;
use crate::git_graph::lanes::lanes_wf;
use crate::git_graph::lanes::layout_indices;
use crate::git_graph::lanes::lemma_next_parent;
use crate::git_graph::lanes::lemma_unassigned_zeros;
use crate::git_graph::lanes::lemma_walk_step;
use crate::git_graph::lanes::lemma_walks_upto;
use crate::git_graph::lanes::next_parent;
use crate::git_graph::lanes::top_is_new;
use crate::git_graph::lanes::walk_from;
use crate::git_graph::lanes::walk_measure;
use crate::git_graph::lanes::walk_run;
use crate::git_graph::lanes::walk_step;
use crate::git_graph::lanes::walk_wf;
use crate::git_graph::lanes::walks_upto;
use crate::git_graph::sweep::EdgeLimits;
use crate::git_graph::sweep::RowElement;
use crate::git_graph::sweep::active_at;
use crate::git_graph::sweep::kept_after;
use crate::git_graph::sweep::starting_at;
use crate::git_graph::sweep::edge_position;
use crate::git_graph::sweep::element_order;
use crate::git_graph::sweep::insert_point;
use crate::git_graph::sweep::lemma_insert_point;
use crate::git_graph::sweep::node_element;
use crate::git_graph::sweep::node_position;
use crate::git_graph::sweep::row_elements;
use crate::git_graph::sweep::row_order;
use crate::git_graph::sweep::shown_edges;
use crate::git_graph::sweep::sort_elements;

verus! {

/// Whether row `child` lists row `parent` among its parents.
pub open spec fn names(g: ParentRows, child: int, parent: int) -> bool {
    exists|k: int| 0 <= k < g[child].len() && #[trigger] g[child][k] == Some(parent as usize)
}

/// Whether at most one row lists `parent` among its parents.
pub open spec fn has_one_child(g: ParentRows, parent: int) -> bool {
    forall|c1: int, c2: int|
        0 <= c1 < g.len() && 0 <= c2 < g.len() && #[trigger] names(g, c1, parent) && #[trigger] names(
            g,
            c2,
            parent,
        ) ==> c1 == c2
}

/// Lanes do not fall from a row to a parent below it that has a lane and
/// no other child.
pub open spec fn lanes_ordered(g: ParentRows, lanes: Seq<i32>) -> bool {
    forall|c: int, p: int|
        0 <= c < p < g.len() && #[trigger] names(g, c, p) && has_one_child(g, p) && lanes[p] != 0
            ==> lanes[c] != 0 && lanes[c] <= lanes[p]
}

/// Every row above `row` that lists it has a lane.
pub open spec fn children_done(g: ParentRows, lanes: Seq<i32>, row: int) -> bool {
    forall|c: int| 0 <= c < row && #[trigger] names(g, c, row) ==> lanes[c] != 0
}

/// A walk whose stack descends from parent to parent and whose lanes are
/// ordered.
pub open spec fn walk_tidy(g: ParentRows, w: Walk) -> bool {
    &&& walk_wf(g, w)
    &&& lanes_ordered(g, w.lanes)
    &&& forall|j: int| 1 <= j < w.stack.len() ==> names(g, w.stack[j - 1] as int, #[trigger] w.stack[j] as int)
    &&& w.stack.len() > 0 && w.lanes[w.stack[0] as int] == 0 ==> children_done(
        g,
        w.lanes,
        w.stack[0] as int,
    )
}

proof fn lemma_step_tidy(g: ParentRows, w: Walk)
    requires
        walk_tidy(g, w),
        w.stack.len() > 0,
    ensures
        walk_tidy(g, walk_step(g, w)),
{
    lemma_walk_step(g, w);
    let s = walk_step(g, w);
    let top = w.stack.len() - 1;
    let cur = w.stack[top] as int;
    assert(w.stack[top] < g.len());
    let first_visit = w.lanes[cur] == 0;
    let lanes = if first_visit {
        w.lanes.update(cur, w.next as i32)
    } else {
        w.lanes
    };
    assert(s.lanes == lanes);
    lemma_next_parent(g[cur], lanes, 0);
    assert forall|c: int, p: int|
        0 <= c < p < g.len() && #[trigger] names(g, c, p) && has_one_child(g, p) && lanes[p]
            != 0 implies lanes[c] != 0 && lanes[c] <= lanes[p] by {
        if w.lanes[p] != 0 {
            assert(w.lanes[c] != 0 && w.lanes[c] <= w.lanes[p]);
            assert(s.lanes[c] == w.lanes[c]);
            assert(s.lanes[p] == w.lanes[p]);
        } else {
            assert(p == cur);
            if top >= 1 {
                let q = w.stack[top - 1] as int;
                assert(w.stack[top - 1] < g.len());
                assert(names(g, q, w.stack[top] as int));
                assert(c == q);
                assert(w.lanes[w.stack[top - 1] as int] != 0);
            } else {
                assert(w.stack[0] == cur);
                assert(children_done(g, w.lanes, cur));
            }
            assert(w.lanes[c] != 0);
            assert(lanes[c] == w.lanes[c]);
        }
    }
    match next_parent(g[cur], lanes, 0) {
        Some(p) => {
            let k = choose|k: int| 0 <= k < g[cur].len() && g[cur][k] == Some(p);
            assert(names(g, cur, p as int));
            assert forall|j: int| 1 <= j < s.stack.len() implies names(
                g,
                s.stack[j - 1] as int,
                #[trigger] s.stack[j] as int,
            ) by {
                if j < w.stack.len() {
                    assert(s.stack[j] == w.stack[j]);
                    assert(s.stack[j - 1] == w.stack[j - 1]);
                    assert(names(g, w.stack[j - 1] as int, w.stack[j] as int));
                }
            }
            assert(s.stack[0] == w.stack[0]);
            if s.lanes[s.stack[0] as int] == 0 {
                assert(w.lanes[w.stack[0] as int] == 0);
                assert(top == 0);
            }
        },
        None => {
            assert forall|j: int| 1 <= j < s.stack.len() implies names(
                g,
                s.stack[j - 1] as int,
                #[trigger] s.stack[j] as int,
            ) by {
                assert(s.stack[j] == w.stack[j]);
                assert(s.stack[j - 1] == w.stack[j - 1]);
                assert(names(g, w.stack[j - 1] as int, w.stack[j] as int));
            }
            if s.stack.len() > 0 {
                assert(s.stack[0] == w.stack[0]);
                assert(w.lanes[w.stack[0] as int] != 0);
                assert(s.lanes[w.stack[0] as int] == w.lanes[w.stack[0] as int]);
            }
        },
    }
}

proof fn lemma_run_tidy(g: ParentRows, w: Walk)
    requires
        walk_tidy(g, w),
    ensures
        lanes_ordered(g, walk_run(g, w).lanes),
    decreases walk_measure(w),
{
    if w.stack.len() > 0 {
        lemma_walk_step(g, w);
        lemma_step_tidy(g, w);
        lemma_run_tidy(g, walk_step(g, w));
    }
}

proof fn lemma_from_tidy(g: ParentRows, root: int, lanes: Seq<i32>, next: int)
    requires
        lanes_wf(g, lanes, next),
        lanes_ordered(g, lanes),
        0 <= root < g.len(),
        children_done(g, lanes, root),
    ensures
        lanes_ordered(g, walk_from(g, root, lanes, next).0),
{
    if lanes[root] == 0 {
        let w = Walk { stack: seq![root as usize], lanes, next };
        assert(walk_wf(g, w));
        assert(w.stack[0] == root);
        lemma_run_tidy(g, w);
    }
}

proof fn lemma_walks_tidy(g: ParentRows, lanes: Seq<i32>, next: int, upto: int, heads_only: bool)
    requires
        lanes_wf(g, lanes, next),
        lanes_ordered(g, lanes),
        0 <= upto <= g.len(),
    ensures
        lanes_ordered(g, walks_upto(g, lanes, next, upto, heads_only).0),
    decreases upto,
{
    if upto > 0 {
        lemma_walks_tidy(g, lanes, next, upto - 1, heads_only);
        lemma_walks_upto(g, lanes, next, upto - 1, heads_only);
        let (l, n) = walks_upto(g, lanes, next, upto - 1, heads_only);
        let root = upto - 1;
        if !(heads_only && is_referenced(g, root)) {
            assert forall|c: int| 0 <= c < root && #[trigger] names(g, c, root) implies l[c]
                != 0 by {
                if heads_only {
                    let k = choose|k: int|
                        0 <= k < g[c].len() && #[trigger] g[c][k] == Some(root as usize);
                    assert(0 <= c < g.len() && c != root && 0 <= k < g[c].len() && g[c][k]
                        == Some(root as usize));
                    assert(is_referenced(g, root));
                } else {
                    assert(walks_upto(g, lanes, next, upto - 1, heads_only).0[c] != 0);
                }
            }
            lemma_from_tidy(g, root, l, n);
        }
    }
}

/// In the lanes of a layout, no row that lists a parent below it has a
/// greater lane than that parent, provided the parent has no other child.
pub proof fn lemma_layout_lanes_ordered(g: ParentRows)
    requires
        graph_wf(g),
        g.len() < i32::MAX,
    ensures
        lanes_ordered(g, layout_indices(g)),
        forall|i: int| 0 <= i < g.len() ==> #[trigger] layout_indices(g)[i] != 0,
{
    let zeros = Seq::new(g.len(), |i: int| 0i32);
    lemma_unassigned_zeros(g.len());
    assert(lanes_wf(g, zeros, 1));
    assert(lanes_ordered(g, zeros));
    lemma_walks_tidy(g, zeros, 1, g.len() as int, true);
    lemma_walks_upto(g, zeros, 1, g.len() as int, true);
    let (l, n) = walks_upto(g, zeros, 1, g.len() as int, true);
    lemma_walks_tidy(g, l, n, g.len() as int, false);
    lemma_walks_upto(g, l, n, g.len() as int, false);
    let l2 = walks_upto(g, l, n, g.len() as int, false).0;
    assert forall|i: int| 0 <= i < g.len() implies #[trigger] layout_indices(g)[i] != 0 by {
        assert(walks_upto(g, l, n, g.len() as int, false).0[i] != 0);
    }
}

proof fn lemma_row_edges_named(g: ParentRows, lanes: Seq<i32>, colors: Seq<i32>, child: int, upto: int)
    requires
        graph_wf(g),
        0 <= child < g.len(),
        0 <= upto <= g[child].len(),
    ensures
        forall|e: int|
            0 <= e < row_edges(g, lanes, colors, child, upto).len() ==> {
                let edge = #[trigger] row_edges(g, lanes, colors, child, upto)[e];
                &&& edge.child_row == child
                &&& edge.child_row < edge.parent_row < g.len()
                &&& names(g, child, edge.parent_row as int)
                &&& edge.up_li == lanes[child]
                &&& edge.down_li == lanes[edge.parent_row as int]
            },
    decreases upto,
{
    if upto > 0 {
        lemma_row_edges_named(g, lanes, colors, child, upto - 1);
        let before = row_edges(g, lanes, colors, child, upto - 1);
        match edge_for(g, lanes, colors, child, upto - 1) {
            Some(edge) => {
                let p = g[child][upto - 1];
                assert(p matches Some(q) ==> q < g.len());
                assert(g[child][upto - 1] == Some(edge.parent_row));
                assert(names(g, child, edge.parent_row as int));
                assert forall|e: int| 0 <= e < before.push(edge).len() implies {
                    let x = #[trigger] before.push(edge)[e];
                    &&& x.child_row == child
                    &&& x.child_row < x.parent_row < g.len()
                    &&& names(g, child, x.parent_row as int)
                    &&& x.up_li == lanes[child]
                    &&& x.down_li == lanes[x.parent_row as int]
                } by {
                    if e < before.len() {
                        assert(before.push(edge)[e] == before[e]);
                    }
                }
            },
            None => {},
        }
    }
}

proof fn lemma_edges_named(g: ParentRows, lanes: Seq<i32>, colors: Seq<i32>, upto: int)
    requires
        graph_wf(g),
        0 <= upto <= g.len(),
    ensures
        forall|e: int|
            0 <= e < edges_upto(g, lanes, colors, upto).len() ==> {
                let edge = #[trigger] edges_upto(g, lanes, colors, upto)[e];
                &&& edge.child_row < edge.parent_row < g.len()
                &&& names(g, edge.child_row as int, edge.parent_row as int)
                &&& edge.up_li == lanes[edge.child_row as int]
                &&& edge.down_li == lanes[edge.parent_row as int]
            },
    decreases upto,
{
    if upto > 0 {
        lemma_edges_named(g, lanes, colors, upto - 1);
        lemma_row_edges_named(g, lanes, colors, upto - 1, g[upto - 1].len() as int);
        let a = edges_upto(g, lanes, colors, upto - 1);
        let b = row_edges(g, lanes, colors, upto - 1, g[upto - 1].len() as int);
        assert forall|e: int| 0 <= e < (a + b).len() implies {
            let edge = #[trigger] (a + b)[e];
            &&& edge.child_row < edge.parent_row < g.len()
            &&& names(g, edge.child_row as int, edge.parent_row as int)
            &&& edge.up_li == lanes[edge.child_row as int]
            &&& edge.down_li == lanes[edge.parent_row as int]
        } by {
            if e < a.len() {
                assert((a + b)[e] == a[e]);
            } else {
                assert((a + b)[e] == b[e - a.len()]);
            }
        }
    }
}

/// Along every edge of a layout whose parent has no other child, the lane
/// of the upper end is at most the lane of the lower end.
pub proof fn lemma_edge_lanes_ordered(g: ParentRows, main: Seq<bool>, e: int)
    requires
        graph_wf(g),
        g.len() < i32::MAX,
        0 <= e < all_edges(
            g,
            layout_indices(g),
            crate::git_graph::edges::node_colors(layout_indices(g), main),
        ).len(),
        has_one_child(
            g,
            all_edges(
                g,
                layout_indices(g),
                crate::git_graph::edges::node_colors(layout_indices(g), main),
            )[e].parent_row as int,
        ),
    ensures
        all_edges(
            g,
            layout_indices(g),
            crate::git_graph::edges::node_colors(layout_indices(g), main),
        )[e].up_li <= all_edges(
            g,
            layout_indices(g),
            crate::git_graph::edges::node_colors(layout_indices(g), main),
        )[e].down_li,
{
    let lanes = layout_indices(g);
    let colors = crate::git_graph::edges::node_colors(lanes, main);
    lemma_layout_lanes_ordered(g);
    lemma_edges_named(g, lanes, colors, g.len() as int);
    let edge = all_edges(g, lanes, colors)[e];
    assert(edge == edges_upto(g, lanes, colors, g.len() as int)[e]);
    assert(names(g, edge.child_row as int, edge.parent_row as int));
    assert(lanes[edge.parent_row as int] != 0);
}

/// How many of the elements are nodes.
pub open spec fn count_nodes(s: Seq<RowElement>) -> nat
    decreases s.len(),
{
    if s.len() == 0 {
        0
    } else {
        count_nodes(s.drop_last()) + if s.last().is_node {
            1nat
        } else {
            0nat
        }
    }
}

proof fn lemma_count_insert(s: Seq<RowElement>, at: int, x: RowElement)
    requires
        0 <= at <= s.len(),
    ensures
        count_nodes(s.insert(at, x)) == count_nodes(s) + if x.is_node {
            1nat
        } else {
            0nat
        },
    decreases s.len(),
{
    let t = s.insert(at, x);
    if at == s.len() {
        assert(t.drop_last() =~= s);
        assert(t.last() == x);
    } else {
        assert(t.drop_last() =~= s.drop_last().insert(at, x));
        assert(t.last() == s.last());
        lemma_count_insert(s.drop_last(), at, x);
    }
}

proof fn lemma_count_sorted(s: Seq<RowElement>)
    ensures
        count_nodes(sort_elements(s)) == count_nodes(s),
        sort_elements(s).len() == s.len(),
    decreases s.len(),
{
    if s.len() > 0 {
        lemma_count_sorted(s.drop_last());
        let placed = sort_elements(s.drop_last());
        lemma_insert_point(placed, s.last());
        lemma_count_insert(placed, insert_point(placed, s.last()), s.last());
    }
}

proof fn lemma_count_shown(
    edges: Seq<EdgeInfo>,
    lanes: Seq<i32>,
    active: Seq<usize>,
    row: int,
    limits: EdgeLimits,
    upto: int,
)
    requires
        0 <= upto <= active.len(),
    ensures
        count_nodes(
            seq![node_element(lanes, row)] + shown_edges(edges, active, row, limits, upto),
        ) == 1,
    decreases upto,
{
    let node = node_element(lanes, row);
    let shown = shown_edges(edges, active, row, limits, upto);
    let all = seq![node] + shown;
    if upto == 0 {
        assert(all =~= seq![node]);
        assert(all.drop_last() =~= Seq::<RowElement>::empty());
        assert(all.last() == node);
        assert(count_nodes(all.drop_last()) == 0);
    } else {
        lemma_count_shown(edges, lanes, active, row, limits, upto - 1);
        let before = shown_edges(edges, active, row, limits, upto - 1);
        if shown.len() > before.len() {
            assert(shown == before.push(crate::git_graph::sweep::edge_element(edges, active[upto - 1])));
            assert(all.drop_last() =~= seq![node] + before);
            assert(all.last() == shown.last());
            assert(!all.last().is_node);
        } else {
            assert(shown == before);
        }
    }
}

proof fn lemma_one_node(s: Seq<RowElement>)
    requires
        count_nodes(s) == 1,
    ensures
        0 <= node_position(s) < s.len(),
        s[node_position(s)].is_node,
        forall|j: int| 0 <= j < s.len() && j != node_position(s) ==> !(#[trigger] s[j]).is_node,
    decreases s.len(),
{
    if s.len() > 0 {
        if s.last().is_node {
            lemma_no_node(s.drop_last());
            assert forall|j: int| 0 <= j < s.len() && j != node_position(s) implies !(
            #[trigger] s[j]).is_node by {
                assert(s[j] == s.drop_last()[j]);
            }
        } else {
            lemma_one_node(s.drop_last());
            assert forall|j: int| 0 <= j < s.len() && j != node_position(s) implies !(
            #[trigger] s[j]).is_node by {
                if j < s.len() - 1 {
                    assert(s[j] == s.drop_last()[j]);
                }
            }
            assert(s[node_position(s)] == s.drop_last()[node_position(s)]);
        }
    }
}

proof fn lemma_no_node(s: Seq<RowElement>)
    requires
        count_nodes(s) == 0,
    ensures
        forall|j: int| 0 <= j < s.len() ==> !(#[trigger] s[j]).is_node,
    decreases s.len(),
{
    if s.len() > 0 {
        lemma_no_node(s.drop_last());
        assert forall|j: int| 0 <= j < s.len() implies !(#[trigger] s[j]).is_node by {
            if j < s.len() - 1 {
                assert(s[j] == s.drop_last()[j]);
            }
        }
    }
}

proof fn lemma_edge_position(s: Seq<RowElement>, edge_index: usize)
    ensures
        edge_position(s, edge_index) matches Some(c) ==> 0 <= c < s.len() && !s[c].is_node,
    decreases s.len(),
{
    if s.len() > 0 {
        lemma_edge_position(s.drop_last(), edge_index);
    }
}

/// In every row of a layout the node stands in one column, its own: no
/// other element of the row is a node, and no edge that passes through
/// the row has the node's column.
pub proof fn lemma_node_column_unique(
    edges: Seq<EdgeInfo>,
    lanes: Seq<i32>,
    row: int,
    limits: EdgeLimits,
    edge_index: usize,
)
    ensures
        ({
            let order = row_order(edges, lanes, row, limits);
            &&& 0 <= node_position(order) < order.len()
            &&& order[node_position(order)].is_node
            &&& forall|j: int|
                0 <= j < order.len() && j != node_position(order) ==> !(#[trigger] order[j]).is_node
            &&& edge_position(order, edge_index) != Some(node_position(order))
        }),
{
    let active = active_at(edges, row);
    lemma_count_shown(edges, lanes, active, row, limits, active.len() as int);
    lemma_count_sorted(row_elements(edges, lanes, row, limits));
    let order = row_order(edges, lanes, row, limits);
    lemma_one_node(order);
    lemma_edge_position(order, edge_index);
}

/// Putting a row in order neither loses nor adds an element: the row in
/// order holds the same elements, each as often, so that every element has
/// one column.
pub proof fn lemma_sort_is_permutation(s: Seq<RowElement>)
    ensures
        sort_elements(s).to_multiset() == s.to_multiset(),
    decreases s.len(),
{
    if s.len() > 0 {
        lemma_sort_is_permutation(s.drop_last());
        let placed = sort_elements(s.drop_last());
        lemma_insert_point(placed, s.last());
        vstd::seq_lib::to_multiset_insert(placed, insert_point(placed, s.last()), s.last());
        vstd::seq_lib::to_multiset_build(s.drop_last(), s.last());
        assert(s.drop_last().push(s.last()) =~= s);
    } else {
        assert(sort_elements(s) =~= s);
    }
}

proof fn lemma_starting_members(edges: Seq<EdgeInfo>, row: int, upto: int, i: usize)
    requires
        0 <= upto <= edges.len(),
        edges.len() <= usize::MAX,
    ensures
        starting_at(edges, row, upto).contains(i) <==> (i < upto && edges[i as int].child_row + 1
            == row && edges[i as int].child_row + 2 <= edges[i as int].parent_row),
    decreases upto,
{
    if upto > 0 {
        lemma_starting_members(edges, row, upto - 1, i);
        let before = starting_at(edges, row, upto - 1);
        let now = starting_at(edges, row, upto);
        if now.len() > before.len() {
            assert(now == before.push((upto - 1) as usize));
            if before.contains(i) {
                let k = choose|k: int| 0 <= k < before.len() && before[k] == i;
                assert(now[k] == i);
            }
            if i == upto - 1 {
                assert(now[before.len() as int] == i);
            }
            if now.contains(i) {
                let k = choose|k: int| 0 <= k < now.len() && now[k] == i;
                if k < before.len() {
                    assert(before[k] == i);
                }
            }
        }
    }
}

proof fn lemma_kept_members(edges: Seq<EdgeInfo>, active: Seq<usize>, row: int, upto: int, i: usize)
    requires
        0 <= upto <= active.len(),
    ensures
        kept_after(edges, active, row, upto).contains(i) <==> (active.take(upto).contains(i) && row
            < edges[i as int].parent_row - 1),
    decreases upto,
{
    if upto > 0 {
        lemma_kept_members(edges, active, row, upto - 1, i);
        let before = kept_after(edges, active, row, upto - 1);
        let now = kept_after(edges, active, row, upto);
        let seen = active.take(upto - 1);
        let all = active.take(upto);
        assert(all =~= seen.push(active[upto - 1]));
        if seen.contains(i) {
            let k = choose|k: int| 0 <= k < seen.len() && seen[k] == i;
            assert(all[k] == i);
        }
        if active[upto - 1] == i {
            assert(all[upto - 1] == i);
        }
        if all.contains(i) {
            let k = choose|k: int| 0 <= k < all.len() && all[k] == i;
            if k < upto - 1 {
                assert(seen[k] == i);
            }
        }
        if now.len() > before.len() {
            assert(now == before.push(active[upto - 1]));
            if before.contains(i) {
                let k = choose|k: int| 0 <= k < before.len() && before[k] == i;
                assert(now[k] == i);
            }
            if i == active[upto - 1] {
                assert(now[before.len() as int] == i);
            }
            if now.contains(i) {
                let k = choose|k: int| 0 <= k < now.len() && now[k] == i;
                if k < before.len() {
                    assert(before[k] == i);
                }
            }
        }
    } else {
        assert(active.take(0) =~= Seq::<usize>::empty());
    }
}

/// An edge passes through exactly the rows that lie between its two
/// ends: it is among the active edges of a row if and only if the row
/// comes after the row of the commit and before the row of the parent.
pub proof fn lemma_active_between_ends(edges: Seq<EdgeInfo>, row: int, i: usize)
    requires
        0 <= row,
        edges.len() <= usize::MAX,
    ensures
        active_at(edges, row).contains(i) <==> (i < edges.len() && edges[i as int].child_row < row
            < edges[i as int].parent_row),
    decreases row,
{
    let begun = starting_at(edges, row, edges.len() as int);
    lemma_starting_members(edges, row, edges.len() as int, i);
    if row > 0 {
        let above = active_at(edges, row - 1);
        lemma_active_between_ends(edges, row - 1, i);
        lemma_kept_members(edges, above, row - 1, above.len() as int, i);
        assert(above.take(above.len() as int) =~= above);
        let kept = kept_after(edges, above, row - 1, above.len() as int);
        let now = kept + begun;
        if kept.contains(i) {
            let k = choose|k: int| 0 <= k < kept.len() && kept[k] == i;
            assert(now[k] == i);
        }
        if begun.contains(i) {
            let k = choose|k: int| 0 <= k < begun.len() && begun[k] == i;
            assert(now[kept.len() + k] == i);
        }
        if now.contains(i) {
            let k = choose|k: int| 0 <= k < now.len() && now[k] == i;
            if k < kept.len() {
                assert(kept[k] == i);
            } else {
                assert(begun[k - kept.len()] == i);
            }
        }
    }
}

/// Whether the order of elements is an order on the elements of `s`:
/// of two elements never each goes to the right of the other, and an
/// element that does not go to the right of a second, which does not go to
/// the right of a third, does not go to the right of the third.
pub open spec fn order_consistent(s: Seq<RowElement>) -> bool {
    &&& forall|x: RowElement, y: RowElement|
        s.contains(x) && s.contains(y) && #[trigger] element_order(x, y) > 0 ==> element_order(y, x)
            <= 0
    &&& forall|x: RowElement, y: RowElement, z: RowElement|
        s.contains(x) && s.contains(y) && s.contains(z) && #[trigger] element_order(x, y) <= 0
            && #[trigger] element_order(y, z) <= 0 ==> element_order(x, z) <= 0
}

/// Whether no element of the row goes to the right of one that follows it.
pub open spec fn row_sorted(row: Seq<RowElement>) -> bool {
    forall|a: int, b: int|
        0 <= a < b < row.len() ==> element_order(#[trigger] row[a], #[trigger] row[b]) <= 0
}

proof fn lemma_insert_point_splits(s: Seq<RowElement>, x: RowElement)
    ensures
        insert_point(s, x) > 0 ==> element_order(s[insert_point(s, x) - 1], x) <= 0,
        forall|k: int| insert_point(s, x) <= k < s.len() ==> element_order(#[trigger] s[k], x) > 0,
    decreases s.len(),
{
    lemma_insert_point(s, x);
    if !(s.len() == 0 || element_order(s.last(), x) <= 0) {
        lemma_insert_point_splits(s.drop_last(), x);
        lemma_insert_point(s.drop_last(), x);
        let at = insert_point(s, x);
        assert forall|k: int| at <= k < s.len() implies element_order(#[trigger] s[k], x) > 0 by {
            if k < s.len() - 1 {
                assert(s.drop_last()[k] == s[k]);
            }
        }
        if at > 0 {
            assert(s.drop_last()[at - 1] == s[at - 1]);
        }
    }
}

proof fn lemma_sorted_members(s: Seq<RowElement>, x: RowElement)
    ensures
        sort_elements(s).contains(x) <==> s.contains(x),
{
    lemma_sort_is_permutation(s);
    vstd::seq_lib::to_multiset_contains(s, x);
    vstd::seq_lib::to_multiset_contains(sort_elements(s), x);
}

/// Where the order of elements is an order on the elements of a row,
/// the row put in order is sorted by it: no element goes to the right of
/// one that follows it.
pub proof fn lemma_sort_sorted(s: Seq<RowElement>)
    requires
        order_consistent(s),
    ensures
        row_sorted(sort_elements(s)),
    decreases s.len(),
{
    if s.len() > 0 {
        let init = s.drop_last();
        let x = s.last();
        assert forall|e: RowElement| init.contains(e) implies s.contains(e) by {
            let k = choose|k: int| 0 <= k < init.len() && init[k] == e;
            assert(s[k] == e);
        }
        assert(s[s.len() - 1] == x);
        assert(s.contains(x));
        assert(order_consistent(init));
        lemma_sort_sorted(init);
        let placed = sort_elements(init);
        lemma_insert_point(placed, x);
        lemma_insert_point_splits(placed, x);
        let at = insert_point(placed, x);
        let now = placed.insert(at, x);
        assert forall|k: int| 0 <= k < placed.len() implies s.contains(#[trigger] placed[k]) by {
            lemma_sorted_members(init, placed[k]);
            assert(placed.contains(placed[k]));
        }
        assert forall|a: int, b: int| 0 <= a < b < now.len() implies element_order(
            #[trigger] now[a],
            #[trigger] now[b],
        ) <= 0 by {
            if b < at {
                assert(now[a] == placed[a] && now[b] == placed[b]);
            } else if a > at {
                assert(now[a] == placed[a - 1] && now[b] == placed[b - 1]);
            } else if a < at && b > at {
                assert(now[a] == placed[a] && now[b] == placed[b - 1]);
            } else if b == at {
                assert(now[a] == placed[a]);
                assert(now[b] == x);
                if a < at - 1 {
                    assert(element_order(placed[a], placed[at - 1]) <= 0);
                    assert(element_order(placed[at - 1], x) <= 0);
                    assert(s.contains(placed[a]) && s.contains(placed[at - 1]));
                }
            } else {
                assert(a == at);
                assert(now[a] == x);
                assert(now[b] == placed[b - 1]);
                assert(element_order(placed[b - 1], x) > 0);
                assert(s.contains(placed[b - 1]));
            }
        }
    }
}

/// The order in which rows have taken their lanes, after one more step of
/// a walk: a row that is on top of the stack for the first time takes its
/// lane in that step.
pub open spec fn order_after(w: Walk, order: Seq<usize>) -> Seq<usize> {
    if top_is_new(w) {
        order.push(w.stack.last())
    } else {
        order
    }
}

/// The order in which rows have taken their lanes when a walk has run
/// until its stack is empty.
pub open spec fn order_run(g: ParentRows, w: Walk, order: Seq<usize>) -> Seq<usize>
    decreases walk_measure(w),
    when walk_wf(g, w)
{
    if w.stack.len() == 0 {
        order
    } else {
        proof {
            lemma_walk_step(g, w);
        }
        order_run(g, walk_step(g, w), order_after(w, order))
    }
}

/// The order after a walk that starts at `root`.
pub open spec fn order_from(
    g: ParentRows,
    root: int,
    lanes: Seq<i32>,
    next: int,
    order: Seq<usize>,
) -> Seq<usize> {
    if lanes[root] != 0 {
        order
    } else {
        order_run(g, Walk { stack: seq![root as usize], lanes, next }, order)
    }
}

/// The order after the walks from the rows below `upto`.
pub open spec fn orders_upto(
    g: ParentRows,
    lanes: Seq<i32>,
    next: int,
    order: Seq<usize>,
    upto: int,
    heads_only: bool,
) -> Seq<usize>
    decreases upto,
{
    if upto <= 0 {
        order
    } else {
        let before = walks_upto(g, lanes, next, upto - 1, heads_only);
        let so_far = orders_upto(g, lanes, next, order, upto - 1, heads_only);
        if heads_only && is_referenced(g, upto - 1) {
            so_far
        } else {
            order_from(g, upto - 1, before.0, before.1, so_far)
        }
    }
}

/// The rows in the order in which they take their lanes when the graph is
/// laid out.
pub open spec fn lane_order(g: ParentRows) -> Seq<usize> {
    let zeros = Seq::new(g.len(), |i: int| 0i32);
    let heads = walks_upto(g, zeros, 1, g.len() as int, true);
    let first = orders_upto(g, zeros, 1, Seq::empty(), g.len() as int, true);
    orders_upto(g, heads.0, heads.1, first, g.len() as int, false)
}

/// The order lists exactly the rows that have a lane, each once, and no
/// row in it has a greater lane than one that comes after it; no lane is
/// above the current lane number.
pub open spec fn rising(lanes: Seq<i32>, next: int, order: Seq<usize>) -> bool {
    &&& forall|k: int|
        0 <= k < order.len() ==> (#[trigger] order[k]) < lanes.len() && lanes[order[k] as int]
            != 0 && lanes[order[k] as int] <= next
    &&& forall|i: int, j: int|
        0 <= i < j < order.len() ==> lanes[(#[trigger] order[i]) as int] <= lanes[(
        #[trigger] order[j]) as int]
    &&& forall|r: int| 0 <= r < lanes.len() && #[trigger] lanes[r] != 0 ==> order.contains(r as usize)
    &&& order.no_duplicates()
}

proof fn lemma_step_rising(g: ParentRows, w: Walk, order: Seq<usize>)
    requires
        walk_wf(g, w),
        w.stack.len() > 0,
        rising(w.lanes, w.next, order),
    ensures
        rising(walk_step(g, w).lanes, walk_step(g, w).next, order_after(w, order)),
{
    lemma_walk_step(g, w);
    let s = walk_step(g, w);
    let top = w.stack[w.stack.len() - 1];
    assert(top < g.len());
    let after = order_after(w, order);
    let fresh = top_is_new(w);
    assert forall|r: int| 0 <= r < g.len() && r != top implies s.lanes[r] == w.lanes[r] by {}
    assert forall|k: int| 0 <= k < after.len() implies (#[trigger] after[k]) < s.lanes.len()
        && s.lanes[after[k] as int] != 0 && s.lanes[after[k] as int] <= s.next by {
        if k < order.len() {
            assert(after[k] == order[k]);
            assert(w.lanes[order[k] as int] != 0);
            assert(s.lanes[order[k] as int] == w.lanes[order[k] as int]);
        } else {
            assert(after[k] == top);
        }
    }
    assert forall|i: int, j: int| 0 <= i < j < after.len() implies s.lanes[(
    #[trigger] after[i]) as int] <= s.lanes[(#[trigger] after[j]) as int] by {
        assert(after[i] == order[i]);
        assert(w.lanes[order[i] as int] != 0);
        assert(s.lanes[order[i] as int] == w.lanes[order[i] as int]);
        if j < order.len() {
            assert(after[j] == order[j]);
            assert(w.lanes[order[j] as int] != 0);
            assert(s.lanes[order[j] as int] == w.lanes[order[j] as int]);
        } else {
            assert(after[j] == top);
        }
    }
    assert forall|r: int| 0 <= r < s.lanes.len() && #[trigger] s.lanes[r] != 0 implies after.contains(
        r as usize,
    ) by {
        if w.lanes[r] != 0 {
            assert(order.contains(r as usize));
            let k = choose|k: int| 0 <= k < order.len() && order[k] == r as usize;
            assert(after[k] == r as usize);
        } else {
            assert(r == top);
            assert(fresh);
            assert(after[order.len() as int] == top);
        }
    }
    if fresh {
        assert forall|i: int, j: int|
            0 <= i < after.len() && 0 <= j < after.len() && i != j implies after[i] != after[j] by {
            if i < order.len() && j < order.len() {
                assert(order[i] != order[j]);
            } else if i < order.len() {
                assert(w.lanes[order[i] as int] != 0);
            } else {
                assert(w.lanes[order[j] as int] != 0);
            }
        }
    }
}

proof fn lemma_run_rising(g: ParentRows, w: Walk, order: Seq<usize>)
    requires
        walk_wf(g, w),
        rising(w.lanes, w.next, order),
    ensures
        rising(walk_run(g, w).lanes, walk_run(g, w).next, order_run(g, w, order)),
    decreases walk_measure(w),
{
    if w.stack.len() > 0 {
        lemma_walk_step(g, w);
        lemma_step_rising(g, w, order);
        lemma_run_rising(g, walk_step(g, w), order_after(w, order));
    }
}

proof fn lemma_from_rising(g: ParentRows, root: int, lanes: Seq<i32>, next: int, order: Seq<usize>)
    requires
        lanes_wf(g, lanes, next),
        rising(lanes, next, order),
        0 <= root < g.len(),
    ensures
        rising(
            walk_from(g, root, lanes, next).0,
            walk_from(g, root, lanes, next).1,
            order_from(g, root, lanes, next, order),
        ),
{
    if lanes[root] == 0 {
        let w = Walk { stack: seq![root as usize], lanes, next };
        assert(walk_wf(g, w));
        lemma_run_rising(g, w, order);
    }
}

proof fn lemma_upto_rising(
    g: ParentRows,
    lanes: Seq<i32>,
    next: int,
    order: Seq<usize>,
    upto: int,
    heads_only: bool,
)
    requires
        lanes_wf(g, lanes, next),
        rising(lanes, next, order),
        0 <= upto <= g.len(),
    ensures
        rising(
            walks_upto(g, lanes, next, upto, heads_only).0,
            walks_upto(g, lanes, next, upto, heads_only).1,
            orders_upto(g, lanes, next, order, upto, heads_only),
        ),
    decreases upto,
{
    if upto > 0 {
        lemma_upto_rising(g, lanes, next, order, upto - 1, heads_only);
        lemma_walks_upto(g, lanes, next, upto - 1, heads_only);
        let before = walks_upto(g, lanes, next, upto - 1, heads_only);
        let so_far = orders_upto(g, lanes, next, order, upto - 1, heads_only);
        if !(heads_only && is_referenced(g, upto - 1)) {
            lemma_from_rising(g, upto - 1, before.0, before.1, so_far);
        }
    }
}

/// Whether row `a` stands before row `b` in the order.
pub open spec fn stands_before(order: Seq<usize>, a: int, b: int) -> bool {
    exists|i: int, j: int|
        0 <= i < j < order.len() && #[trigger] order[i] == a && #[trigger] order[j] == b
}

/// Lanes are handed out in rising order: every row takes its lane once,
/// and a row that takes its lane before another has no greater lane than
/// the other.
pub proof fn lemma_lanes_rise_in_order(g: ParentRows)
    requires
        graph_wf(g),
        g.len() < i32::MAX,
    ensures
        lane_order(g).no_duplicates(),
        forall|r: int| 0 <= r < g.len() ==> #[trigger] lane_order(g).contains(r as usize),
        forall|a: int, b: int|
            0 <= a < g.len() && 0 <= b < g.len() && #[trigger] stands_before(lane_order(g), a, b)
                ==> layout_indices(g)[a] <= layout_indices(g)[b],
{
    let zeros = Seq::new(g.len(), |i: int| 0i32);
    lemma_unassigned_zeros(g.len());
    assert(lanes_wf(g, zeros, 1));
    let none = Seq::<usize>::empty();
    assert(rising(zeros, 1, none));
    lemma_upto_rising(g, zeros, 1, none, g.len() as int, true);
    lemma_walks_upto(g, zeros, 1, g.len() as int, true);
    let heads = walks_upto(g, zeros, 1, g.len() as int, true);
    let first = orders_upto(g, zeros, 1, none, g.len() as int, true);
    lemma_upto_rising(g, heads.0, heads.1, first, g.len() as int, false);
    lemma_walks_upto(g, heads.0, heads.1, g.len() as int, false);
    let all = walks_upto(g, heads.0, heads.1, g.len() as int, false);
    let order = lane_order(g);
    let lanes = layout_indices(g);
    assert(lanes == all.0);
    assert(rising(lanes, all.1, order));
    assert forall|r: int| 0 <= r < g.len() implies #[trigger] order.contains(r as usize) by {
        assert(walks_upto(g, heads.0, heads.1, g.len() as int, false).0[r] != 0);
        assert(lanes[r] != 0);
    }
    assert forall|a: int, b: int|
        0 <= a < g.len() && 0 <= b < g.len() && #[trigger] stands_before(order, a, b) implies lanes[a]
        <= lanes[b] by {
        let (i, j) = choose|i: int, j: int|
            0 <= i < j < order.len() && #[trigger] order[i] == a && #[trigger] order[j] == b;
        assert(lanes[order[i] as int] <= lanes[order[j] as int]);
    }
}

/// Along every edge of a layout whose upper end takes its lane before the
/// lower end takes its own, the lane of the upper end is at most the lane
/// of the lower end.
pub proof fn lemma_edge_lanes_rise(g: ParentRows, main: Seq<bool>, e: int)
    requires
        graph_wf(g),
        g.len() < i32::MAX,
        0 <= e < all_edges(
            g,
            layout_indices(g),
            crate::git_graph::edges::node_colors(layout_indices(g), main),
        ).len(),
        stands_before(
            lane_order(g),
            all_edges(
                g,
                layout_indices(g),
                crate::git_graph::edges::node_colors(layout_indices(g), main),
            )[e].child_row as int,
            all_edges(
                g,
                layout_indices(g),
                crate::git_graph::edges::node_colors(layout_indices(g), main),
            )[e].parent_row as int,
        ),
    ensures
        all_edges(
            g,
            layout_indices(g),
            crate::git_graph::edges::node_colors(layout_indices(g), main),
        )[e].up_li <= all_edges(
            g,
            layout_indices(g),
            crate::git_graph::edges::node_colors(layout_indices(g), main),
        )[e].down_li,
{
    let lanes = layout_indices(g);
    let colors = crate::git_graph::edges::node_colors(lanes, main);
    lemma_lanes_rise_in_order(g);
    lemma_edges_named(g, lanes, colors, g.len() as int);
    let edge = all_edges(g, lanes, colors)[e];
    assert(edge == edges_upto(g, lanes, colors, g.len() as int)[e]);
}

} // verus!
