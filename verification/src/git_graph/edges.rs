//! Colours of the rows and the list of edges between a commit and those of
//! its parents that stand in a later row.

use vstd::prelude::*;
use crate::rows::rows_view;
use crate::git_graph::lanes::ParentRows;
use crate::git_graph::lanes::graph_wf;

verus! {

/// An edge from a commit down to one of its parents.
#[derive(Clone, Copy, Debug)]
pub struct EdgeInfo {
    /// Row of the commit.
    pub child_row: usize,
    /// Row of the parent, below the commit.
    pub parent_row: usize,
    /// Lane of the commit.
    pub up_li: i32,
    /// Lane of the parent.
    pub down_li: i32,
    /// Colour of the edge.
    pub color_index: i32,
}

/// Lanes are numbered from 1 up to the number of rows at most.
pub open spec fn lanes_in_range(lanes: Seq<i32>) -> bool {
    forall|i: int| 0 <= i < lanes.len() ==> 1 <= #[trigger] lanes[i] <= lanes.len()
}

/// The colours handed out to lanes by the rows below `upto` that are not on
/// the main chain (0 where a lane has none yet), and the next free colour.
pub open spec fn palette_upto(lanes: Seq<i32>, main: Seq<bool>, upto: int) -> (Seq<i32>, int)
    decreases upto,
{
    if upto <= 0 {
        (Seq::new(lanes.len() + 1, |l: int| 0i32), 1)
    } else {
        let (palette, next) = palette_upto(lanes, main, upto - 1);
        let lane = lanes[upto - 1] as int;
        if main[upto - 1] || palette[lane] != 0 {
            (palette, next)
        } else {
            (palette.update(lane, next as i32), next + 1)
        }
    }
}

/// The colour of a row: 0 on the main chain; otherwise the colour that the
/// first row of its lane off the main chain took, colours being handed out
/// from 1 upwards in row order.
pub open spec fn node_color(lanes: Seq<i32>, main: Seq<bool>, row: int) -> i32 {
    if main[row] {
        0
    } else {
        palette_upto(lanes, main, row + 1).0[lanes[row] as int]
    }
}

/// The colour of every row.
pub open spec fn node_colors(lanes: Seq<i32>, main: Seq<bool>) -> Seq<i32> {
    Seq::new(lanes.len(), |row: int| node_color(lanes, main, row))
}

/// The palette keeps its size, uses colours below the next free one, and the
/// next free colour is at most one more than the rows seen.
pub proof fn lemma_palette(lanes: Seq<i32>, main: Seq<bool>, upto: int)
    requires
        lanes_in_range(lanes),
        lanes.len() < i32::MAX,
        main.len() == lanes.len(),
        0 <= upto <= lanes.len(),
    ensures
        palette_upto(lanes, main, upto).0.len() == lanes.len() + 1,
        1 <= palette_upto(lanes, main, upto).1 <= upto + 1,
        forall|l: int|
            0 <= l <= lanes.len() ==> 0 <= #[trigger] palette_upto(lanes, main, upto).0[l]
                < palette_upto(lanes, main, upto).1,
    decreases upto,
{
    if upto > 0 {
        lemma_palette(lanes, main, upto - 1);
        let (palette, next) = palette_upto(lanes, main, upto - 1);
        let lane = lanes[upto - 1] as int;
        assert(1 <= lane <= lanes.len());
        assert(next as i32 == next);
    }
}

/// A row off the main chain has a colour from 1 up to the number of rows; a
/// row on it has colour 0.
pub proof fn lemma_node_color(lanes: Seq<i32>, main: Seq<bool>, row: int)
    requires
        lanes_in_range(lanes),
        lanes.len() < i32::MAX,
        main.len() == lanes.len(),
        0 <= row < lanes.len(),
    ensures
        main[row] ==> node_color(lanes, main, row) == 0,
        !main[row] ==> 1 <= node_color(lanes, main, row) <= lanes.len(),
{
    lemma_palette(lanes, main, row);
    lemma_palette(lanes, main, row + 1);
    let (palette, next) = palette_upto(lanes, main, row);
    let lane = lanes[row] as int;
    assert(1 <= lane <= lanes.len());
    assert(next as i32 == next);
    assert(0 <= palette[lane] < next);
}

/// Computes the colour of every row.
pub fn assign_colors(lanes: &Vec<i32>, main: &Vec<bool>) -> (colors: Vec<i32>)
    requires
        lanes_in_range(lanes@),
        main@.len() == lanes@.len(),
        lanes@.len() < i32::MAX,
    ensures
        colors@ == node_colors(lanes@, main@),
        forall|row: int| 0 <= row < lanes@.len() && main@[row] ==> #[trigger] colors@[row] == 0,
        forall|row: int|
            0 <= row < lanes@.len() && !main@[row] ==> 1 <= #[trigger] colors@[row]
                <= lanes@.len(),
{
    let n: usize = lanes.len();
    let mut palette: Vec<i32> = Vec::new();
    let mut l: usize = 0;
    while l < n + 1
        invariant
            l <= n + 1,
            n < i32::MAX,
            palette@ == Seq::new(l as nat, |x: int| 0i32),
        decreases n + 1 - l,
    {
        palette.push(0);
        assert(palette@ =~= Seq::new((l + 1) as nat, |x: int| 0i32));
        l += 1;
    }
    let mut next: i32 = 1;
    let mut colors: Vec<i32> = Vec::new();
    let mut row: usize = 0;
    while row < n
        invariant
            row <= n,
            n == lanes@.len(),
            n < i32::MAX,
            lanes_in_range(lanes@),
            main@.len() == n,
            (palette@, next as int) == palette_upto(lanes@, main@, row as int),
            colors@.len() == row,
            forall|r: int| 0 <= r < row ==> #[trigger] colors@[r] == node_color(lanes@, main@, r),
        decreases n - row,
    {
        proof {
            lemma_palette(lanes@, main@, row as int);
            lemma_palette(lanes@, main@, row + 1);
        }
        let lane: usize = lanes[row] as usize;
        let color: i32 = if main[row] {
            0
        } else if palette[lane] != 0 {
            palette[lane]
        } else {
            let fresh: i32 = next;
            palette.set(lane, fresh);
            next = next + 1;
            fresh
        };
        colors.push(color);
        row += 1;
    }
    assert(colors@ =~= node_colors(lanes@, main@));
    assert forall|row: int| 0 <= row < lanes@.len() && !main@[row] implies 1
        <= #[trigger] colors@[row] <= lanes@.len() by {
        lemma_node_color(lanes@, main@, row);
    }
    colors
}

/// The edge that parent number `pi` of the commit in row `child` gives: one
/// only where that parent stands in a later row. The first parent's edge has
/// the commit's colour, every other (a merge) the parent's.
pub open spec fn edge_for(
    g: ParentRows,
    lanes: Seq<i32>,
    colors: Seq<i32>,
    child: int,
    pi: int,
) -> Option<EdgeInfo> {
    match g[child][pi] {
        Some(p) => if p > child {
            Some(
                EdgeInfo {
                    child_row: child as usize,
                    parent_row: p,
                    up_li: lanes[child],
                    down_li: lanes[p as int],
                    color_index: if pi == 0 {
                        colors[child]
                    } else {
                        colors[p as int]
                    },
                },
            )
        } else {
            None
        },
        None => None,
    }
}

/// The edges of the first `upto` parents of the commit in row `child`.
pub open spec fn row_edges(
    g: ParentRows,
    lanes: Seq<i32>,
    colors: Seq<i32>,
    child: int,
    upto: int,
) -> Seq<EdgeInfo>
    decreases upto,
{
    if upto <= 0 {
        Seq::empty()
    } else {
        let before = row_edges(g, lanes, colors, child, upto - 1);
        match edge_for(g, lanes, colors, child, upto - 1) {
            Some(e) => before.push(e),
            None => before,
        }
    }
}

/// The edges of the commits in the rows below `upto`, row by row and parent
/// by parent.
pub open spec fn edges_upto(g: ParentRows, lanes: Seq<i32>, colors: Seq<i32>, upto: int) -> Seq<
    EdgeInfo,
>
    decreases upto,
{
    if upto <= 0 {
        Seq::empty()
    } else {
        edges_upto(g, lanes, colors, upto - 1) + row_edges(
            g,
            lanes,
            colors,
            upto - 1,
            g[upto - 1].len() as int,
        )
    }
}

/// All edges of the graph.
pub open spec fn all_edges(g: ParentRows, lanes: Seq<i32>, colors: Seq<i32>) -> Seq<EdgeInfo> {
    edges_upto(g, lanes, colors, g.len() as int)
}

/// An edge runs downwards between two rows and carries the lanes of its ends.
pub open spec fn edge_wf(e: EdgeInfo, n: int) -> bool {
    &&& e.child_row < e.parent_row < n
    &&& 1 <= e.up_li <= n
    &&& 1 <= e.down_li <= n
}

/// Every edge of the sequence is well formed.
pub open spec fn edges_wf(edges: Seq<EdgeInfo>, n: int) -> bool {
    forall|e: int| 0 <= e < edges.len() ==> edge_wf(#[trigger] edges[e], n)
}

/// The edges of one commit are well formed and carry its lane.
pub proof fn lemma_row_edges(g: ParentRows, lanes: Seq<i32>, colors: Seq<i32>, child: int, upto: int)
    requires
        graph_wf(g),
        lanes.len() == g.len(),
        lanes_in_range(lanes),
        0 <= child < g.len(),
        0 <= upto <= g[child].len(),
    ensures
        edges_wf(row_edges(g, lanes, colors, child, upto), g.len() as int),
        forall|e: int|
            0 <= e < row_edges(g, lanes, colors, child, upto).len() ==> {
                let edge = #[trigger] row_edges(g, lanes, colors, child, upto)[e];
                &&& edge.child_row == child
                &&& edge.up_li == lanes[child]
                &&& edge.down_li == lanes[edge.parent_row as int]
            },
    decreases upto,
{
    if upto > 0 {
        lemma_row_edges(g, lanes, colors, child, upto - 1);
        let p = g[child][upto - 1];
        assert(p matches Some(q) ==> q < g.len());
    }
}

/// All edges are well formed and carry the lanes of the rows they join.
pub proof fn lemma_edges_upto(g: ParentRows, lanes: Seq<i32>, colors: Seq<i32>, upto: int)
    requires
        graph_wf(g),
        lanes.len() == g.len(),
        lanes_in_range(lanes),
        0 <= upto <= g.len(),
    ensures
        edges_wf(edges_upto(g, lanes, colors, upto), g.len() as int),
        forall|e: int|
            0 <= e < edges_upto(g, lanes, colors, upto).len() ==> {
                let edge = #[trigger] edges_upto(g, lanes, colors, upto)[e];
                &&& edge.up_li == lanes[edge.child_row as int]
                &&& edge.down_li == lanes[edge.parent_row as int]
            },
    decreases upto,
{
    if upto > 0 {
        lemma_edges_upto(g, lanes, colors, upto - 1);
        lemma_row_edges(g, lanes, colors, upto - 1, g[upto - 1].len() as int);
        let a = edges_upto(g, lanes, colors, upto - 1);
        let b = row_edges(g, lanes, colors, upto - 1, g[upto - 1].len() as int);
        assert forall|e: int| 0 <= e < (a + b).len() implies edge_wf(
            #[trigger] (a + b)[e],
            g.len() as int,
        ) && (a + b)[e].up_li == lanes[(a + b)[e].child_row as int] && (a + b)[e].down_li
            == lanes[(a + b)[e].parent_row as int] by {
            if e < a.len() {
                assert((a + b)[e] == a[e]);
            } else {
                assert((a + b)[e] == b[e - a.len()]);
            }
        }
    }
}

/// Builds the list of edges.
pub fn build_edges(parent_rows: &Vec<Vec<Option<usize>>>, lanes: &Vec<i32>, colors: &Vec<i32>) -> (edges:
    Vec<EdgeInfo>)
    requires
        graph_wf(rows_view(parent_rows@)),
        lanes@.len() == parent_rows@.len(),
        colors@.len() == parent_rows@.len(),
        lanes_in_range(lanes@),
    ensures
        edges@ == all_edges(rows_view(parent_rows@), lanes@, colors@),
        edges_wf(edges@, parent_rows@.len() as int),
{
    let ghost g = rows_view(parent_rows@);
    let n: usize = parent_rows.len();
    let mut edges: Vec<EdgeInfo> = Vec::new();
    let mut child: usize = 0;
    while child < n
        invariant
            child <= n,
            n == g.len(),
            g == rows_view(parent_rows@),
            graph_wf(g),
            lanes@.len() == n,
            colors@.len() == n,
            edges@ == edges_upto(g, lanes@, colors@, child as int),
        decreases n - child,
    {
        let ps = &parent_rows[child];
        let ghost base = edges@;
        let mut pi: usize = 0;
        while pi < ps.len()
            invariant
                child < n,
                n == g.len(),
                g == rows_view(parent_rows@),
                graph_wf(g),
                lanes@.len() == n,
                colors@.len() == n,
                ps@ == g[child as int],
                pi <= ps@.len(),
                edges@ == base + row_edges(g, lanes@, colors@, child as int, pi as int),
            decreases ps@.len() - pi,
        {
            match ps[pi] {
                Some(p) => {
                    assert(g[child as int][pi as int] == Some(p));
                    if p > child {
                        let color: i32 = if pi == 0 {
                            colors[child]
                        } else {
                            colors[p]
                        };
                        edges.push(
                            EdgeInfo {
                                child_row: child,
                                parent_row: p,
                                up_li: lanes[child],
                                down_li: lanes[p],
                                color_index: color,
                            },
                        );
                    }
                },
                None => {},
            }
            assert(edges@ =~= base + row_edges(g, lanes@, colors@, child as int, pi + 1));
            pi += 1;
        }
        child += 1;
    }
    proof {
        lemma_edges_upto(g, lanes@, colors@, n as int);
    }
    edges
}

} // verus!
