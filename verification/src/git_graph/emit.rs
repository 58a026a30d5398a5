//! Drawing primitives: for every edge, the half-row pieces of its line and
//! the arrows that mark where a long edge is broken.
//!
//! Columns and rows stay integers here. A renderer gives column `c` the
//! horizontal position `c * lane_width + lane_width / 2 + 4` and draws each
//! piece within the height of its row.

use vstd::prelude::*;
use crate::rows::empty_rows;
use crate::rows::push_item;
use crate::rows::rows_view;
use crate::rows::with_item;
use crate::git_graph::edges::EdgeInfo;
use crate::git_graph::edges::edge_wf;
use crate::git_graph::edges::edges_wf;
use crate::git_graph::sweep::EdgeLimits;
use crate::git_graph::sweep::RowElement;
use crate::git_graph::sweep::edge_position;
use crate::git_graph::sweep::edge_shown;
use crate::git_graph::sweep::find_edge;
use crate::git_graph::sweep::find_node;
use crate::git_graph::sweep::is_edge_visible_in_row;
use crate::git_graph::sweep::limits_wf;
use crate::git_graph::sweep::node_position;

verus! {

/// Which half of its row a piece of an edge covers.
#[derive(Clone, Copy, Debug, PartialEq, Eq, Structural)]
pub enum RowHalf {
    /// From the middle of the row (or its top, with an arrow) down to its
    /// lower border.
    Bottom,
    /// From the upper border of the row down to its middle (or its bottom,
    /// with an arrow).
    Top,
}

/// The part of an edge that lies in one half of one row.
///
/// The line joins the column of the edge in this row with the point half
/// way towards its column in the neighbouring row.
#[derive(Clone, Copy, Debug, PartialEq, Eq, Structural)]
pub struct EdgePiece {
    /// The half of the row that the piece covers.
    pub half: RowHalf,
    /// Column of the edge in this row.
    pub near_column: i32,
    /// Column of the edge in the neighbouring row: the row below for a
    /// bottom half, the row above for a top half.
    pub far_column: i32,
    /// Whether an arrow marks a break of the edge in this row, so that the
    /// line runs through the full height of the row.
    pub with_arrow: bool,
    /// Colour of the edge.
    pub color_index: i32,
}

/// An arrow at the upper or lower border of a row.
#[derive(Clone, Copy, Debug, PartialEq, Eq, Structural)]
pub struct ArrowMark {
    /// Column of the arrow.
    pub column: i32,
    /// Colour of the edge that the arrow belongs to.
    pub color_index: i32,
    /// Whether the arrow points down, from the lower border of the row.
    pub is_down: bool,
}

/// The rows, each from left to right.
pub type RowOrders = Seq<Seq<RowElement>>;

/// The column of the node of a row.
pub open spec fn node_column_at(orders: RowOrders, row: int) -> i32 {
    node_position(orders[row]) as i32
}

/// The column of an edge in a row; where the edge is not in that row, the
/// column of the node of `fallback_row`.
pub open spec fn edge_column_at(orders: RowOrders, edge_index: usize, row: int, fallback_row: int) -> i32 {
    match edge_position(orders[row], edge_index) {
        Some(c) => c as i32,
        None => node_column_at(orders, fallback_row),
    }
}

/// Whether the line of the edge has a point in `row`: at its two ends, and
/// in every row between them where it is drawn.
pub open spec fn is_anchor(e: EdgeInfo, row: int, limits: EdgeLimits) -> bool {
    row == e.child_row || row == e.parent_row || (e.child_row < row < e.parent_row && edge_shown(
        e,
        row,
        limits,
    ))
}

/// The column of the line of an edge in a row: that of the node at its two
/// ends, its own column between them.
pub open spec fn anchor_column(orders: RowOrders, e: EdgeInfo, edge_index: usize, row: int) -> i32 {
    if row == e.child_row || row == e.parent_row {
        node_column_at(orders, row)
    } else {
        edge_column_at(orders, edge_index, row, e.child_row as int)
    }
}

/// Whether the edge has an arrow pointing up in `row`: where a long edge
/// becomes visible again, and next to the lower end of an edge long enough
/// for arrows.
pub open spec fn has_up_arrow(e: EdgeInfo, row: int, limits: EdgeLimits) -> bool {
    let span = e.parent_row - e.child_row;
    ||| span >= limits.long_edge_size && row == e.parent_row - limits.visible_part_size
    ||| span >= limits.edge_with_arrow_size && row == e.parent_row - 1
}

/// Whether the edge has an arrow pointing down in `row`: where a long edge
/// stops being visible, and next to the upper end of an edge long enough
/// for arrows.
pub open spec fn has_down_arrow(e: EdgeInfo, row: int, limits: EdgeLimits) -> bool {
    let span = e.parent_row - e.child_row;
    ||| span >= limits.long_edge_size && row == e.child_row + limits.visible_part_size
    ||| span >= limits.edge_with_arrow_size && row == e.child_row + 1
}

/// The pieces so far, and those of the edge between `e.child_row` and
/// `upto`: wherever the line has a point in two rows that follow each
/// other, the bottom half of the upper row and the top half of the lower.
pub open spec fn pieces_of_edge(
    rows: Seq<Seq<EdgePiece>>,
    orders: RowOrders,
    e: EdgeInfo,
    edge_index: usize,
    limits: EdgeLimits,
    upto: int,
) -> Seq<Seq<EdgePiece>>
    decreases upto - e.child_row,
{
    if upto <= e.child_row {
        rows
    } else {
        let before = pieces_of_edge(rows, orders, e, edge_index, limits, upto - 1);
        let r = upto - 1;
        if is_anchor(e, r, limits) && is_anchor(e, r + 1, limits) {
            let upper = anchor_column(orders, e, edge_index, r);
            let lower = anchor_column(orders, e, edge_index, r + 1);
            let with_bottom = with_item(
                before,
                r,
                EdgePiece {
                    half: RowHalf::Bottom,
                    near_column: upper,
                    far_column: lower,
                    with_arrow: has_up_arrow(e, r, limits),
                    color_index: e.color_index,
                },
            );
            with_item(
                with_bottom,
                r + 1,
                EdgePiece {
                    half: RowHalf::Top,
                    near_column: lower,
                    far_column: upper,
                    with_arrow: has_down_arrow(e, r + 1, limits),
                    color_index: e.color_index,
                },
            )
        } else {
            before
        }
    }
}

/// The arrows so far, and those of the edge: for a long edge one pointing
/// down where it stops being visible and one pointing up where it becomes
/// visible again; for an edge long enough for arrows one next to either end.
pub open spec fn arrows_of_edge(
    rows: Seq<Seq<ArrowMark>>,
    orders: RowOrders,
    e: EdgeInfo,
    edge_index: usize,
    limits: EdgeLimits,
) -> Seq<Seq<ArrowMark>> {
    let span = e.parent_row - e.child_row;
    let child = e.child_row as int;
    let parent = e.parent_row as int;
    let visible = limits.visible_part_size as int;
    let broken = if span >= limits.long_edge_size {
        with_item(
            with_item(
                rows,
                child + visible,
                ArrowMark {
                    column: edge_column_at(orders, edge_index, child + visible, child),
                    color_index: e.color_index,
                    is_down: true,
                },
            ),
            parent - visible,
            ArrowMark {
                column: edge_column_at(orders, edge_index, parent - visible, parent),
                color_index: e.color_index,
                is_down: false,
            },
        )
    } else {
        rows
    };
    if span >= limits.edge_with_arrow_size {
        with_item(
            with_item(
                broken,
                child + 1,
                ArrowMark {
                    column: edge_column_at(orders, edge_index, child + 1, child),
                    color_index: e.color_index,
                    is_down: true,
                },
            ),
            parent - 1,
            ArrowMark {
                column: edge_column_at(orders, edge_index, parent - 1, parent),
                color_index: e.color_index,
                is_down: false,
            },
        )
    } else {
        broken
    }
}

/// The pieces and the arrows of the first `upto` edges, each row holding
/// them in the order of the edges.
pub open spec fn emitted_upto(orders: RowOrders, edges: Seq<EdgeInfo>, limits: EdgeLimits, upto: int) -> (
    Seq<Seq<EdgePiece>>,
    Seq<Seq<ArrowMark>>,
)
    decreases upto,
{
    if upto <= 0 {
        (
            Seq::new(orders.len(), |r: int| Seq::<EdgePiece>::empty()),
            Seq::new(orders.len(), |r: int| Seq::<ArrowMark>::empty()),
        )
    } else {
        let (pieces, arrows) = emitted_upto(orders, edges, limits, upto - 1);
        let e = edges[upto - 1];
        (
            pieces_of_edge(pieces, orders, e, (upto - 1) as usize, limits, e.parent_row as int),
            arrows_of_edge(arrows, orders, e, (upto - 1) as usize, limits),
        )
    }
}

/// Computes the column of the node of every row.
pub fn node_columns_of(orders: &Vec<Vec<RowElement>>) -> (columns: Vec<i32>)
    ensures
        columns@.len() == orders@.len(),
        forall|row: int|
            0 <= row < orders@.len() ==> #[trigger] columns@[row] == node_column_at(rows_view(orders@), row),
{
    let mut columns: Vec<i32> = Vec::new();
    let mut row: usize = 0;
    while row < orders.len()
        invariant
            row <= orders@.len(),
            columns@.len() == row,
            forall|r: int| 0 <= r < row ==> #[trigger] columns@[r] == node_column_at(rows_view(orders@), r),
        decreases orders@.len() - row,
    {
        let at: usize = find_node(&orders[row]);
        columns.push(at as i32);
        row += 1;
    }
    columns
}

fn column_of_edge(
    orders: &Vec<Vec<RowElement>>,
    node_columns: &Vec<i32>,
    edge_index: usize,
    row: usize,
    fallback_row: usize,
) -> (column: i32)
    requires
        row < orders@.len(),
        fallback_row < orders@.len(),
        node_columns@.len() == orders@.len(),
        forall|r: int|
            0 <= r < orders@.len() ==> #[trigger] node_columns@[r] == node_column_at(rows_view(orders@), r),
    ensures
        column == edge_column_at(rows_view(orders@), edge_index, row as int, fallback_row as int),
{
    match find_edge(&orders[row], edge_index) {
        Some(c) => c as i32,
        None => node_columns[fallback_row],
    }
}

fn anchor_in_row(e: &EdgeInfo, row: usize, limits: EdgeLimits) -> (anchored: bool)
    requires
        e.parent_row < i32::MAX,
        row < i32::MAX,
    ensures
        anchored == is_anchor(*e, row as int, limits),
{
    if row == e.child_row || row == e.parent_row {
        return true;
    }
    if e.child_row < row && row < e.parent_row {
        return is_edge_visible_in_row(
            e.child_row as i32,
            e.parent_row as i32,
            row as i32,
            limits.long_edge_size,
            limits.visible_part_size,
            limits.edge_with_arrow_size,
        );
    }
    false
}

fn column_of_anchor(
    orders: &Vec<Vec<RowElement>>,
    node_columns: &Vec<i32>,
    e: &EdgeInfo,
    edge_index: usize,
    row: usize,
) -> (column: i32)
    requires
        row < orders@.len(),
        e.child_row < orders@.len(),
        node_columns@.len() == orders@.len(),
        forall|r: int|
            0 <= r < orders@.len() ==> #[trigger] node_columns@[r] == node_column_at(rows_view(orders@), r),
    ensures
        column == anchor_column(rows_view(orders@), *e, edge_index, row as int),
{
    if row == e.child_row || row == e.parent_row {
        node_columns[row]
    } else {
        column_of_edge(orders, node_columns, edge_index, row, e.child_row)
    }
}

fn up_arrow_in_row(e: &EdgeInfo, row: usize, limits: EdgeLimits) -> (arrow: bool)
    requires
        limits_wf(limits),
        e.child_row < e.parent_row < i32::MAX,
    ensures
        arrow == has_up_arrow(*e, row as int, limits),
{
    let span: usize = e.parent_row - e.child_row;
    (span >= limits.long_edge_size as usize && row == e.parent_row
        - limits.visible_part_size as usize) || (span >= limits.edge_with_arrow_size as usize
        && row == e.parent_row - 1)
}

fn down_arrow_in_row(e: &EdgeInfo, row: usize, limits: EdgeLimits) -> (arrow: bool)
    requires
        limits_wf(limits),
        e.child_row < e.parent_row < i32::MAX,
    ensures
        arrow == has_down_arrow(*e, row as int, limits),
{
    let span: usize = e.parent_row - e.child_row;
    (span >= limits.long_edge_size as usize && row == e.child_row
        + limits.visible_part_size as usize) || (span >= limits.edge_with_arrow_size as usize
        && row == e.child_row + 1)
}

/// Emits the pieces and the arrows of every edge.
pub fn emit_edges(
    orders: &Vec<Vec<RowElement>>,
    node_columns: &Vec<i32>,
    edges: &Vec<EdgeInfo>,
    limits: EdgeLimits,
) -> (out: (Vec<Vec<EdgePiece>>, Vec<Vec<ArrowMark>>))
    requires
        limits_wf(limits),
        orders@.len() < i32::MAX,
        edges_wf(edges@, orders@.len() as int),
        node_columns@.len() == orders@.len(),
        forall|r: int|
            0 <= r < orders@.len() ==> #[trigger] node_columns@[r] == node_column_at(rows_view(orders@), r),
    ensures
        out.0@.len() == orders@.len(),
        out.1@.len() == orders@.len(),
        (rows_view(out.0@), rows_view(out.1@)) == emitted_upto(
            rows_view(orders@),
            edges@,
            limits,
            edges@.len() as int,
        ),
{
    let n: usize = orders.len();
    let mut pieces: Vec<Vec<EdgePiece>> = empty_rows(n);
    let mut arrows: Vec<Vec<ArrowMark>> = empty_rows(n);
    let mut ei: usize = 0;
    while ei < edges.len()
        invariant
            ei <= edges@.len(),
            n == orders@.len(),
            n < i32::MAX,
            limits_wf(limits),
            edges_wf(edges@, n as int),
            node_columns@.len() == n,
            forall|r: int| 0 <= r < n ==> #[trigger] node_columns@[r] == node_column_at(rows_view(orders@), r),
            pieces@.len() == n,
            arrows@.len() == n,
            (rows_view(pieces@), rows_view(arrows@)) == emitted_upto(
                rows_view(orders@),
                edges@,
                limits,
                ei as int,
            ),
        decreases edges@.len() - ei,
    {
        let e: EdgeInfo = edges[ei];
        assert(edge_wf(edges@[ei as int], n as int));
        let ghost pieces_in = rows_view(pieces@);
        let mut r: usize = e.child_row;
        while r < e.parent_row
            invariant
                e.child_row <= r <= e.parent_row,
                e.parent_row < n,
                n == orders@.len(),
                n < i32::MAX,
                limits_wf(limits),
                node_columns@.len() == n,
                forall|x: int|
                    0 <= x < n ==> #[trigger] node_columns@[x] == node_column_at(rows_view(orders@), x),
                pieces@.len() == n,
                rows_view(pieces@) == pieces_of_edge(pieces_in, rows_view(orders@), e, ei, limits, r as int),
            decreases e.parent_row - r,
        {
            if anchor_in_row(&e, r, limits) && anchor_in_row(&e, r + 1, limits) {
                let upper: i32 = column_of_anchor(orders, node_columns, &e, ei, r);
                let lower: i32 = column_of_anchor(orders, node_columns, &e, ei, r + 1);
                let bottom = EdgePiece {
                    half: RowHalf::Bottom,
                    near_column: upper,
                    far_column: lower,
                    with_arrow: up_arrow_in_row(&e, r, limits),
                    color_index: e.color_index,
                };
                let top = EdgePiece {
                    half: RowHalf::Top,
                    near_column: lower,
                    far_column: upper,
                    with_arrow: down_arrow_in_row(&e, r + 1, limits),
                    color_index: e.color_index,
                };
                push_item(&mut pieces, r, bottom);
                push_item(&mut pieces, r + 1, top);
            }
            r += 1;
        }
        let span: usize = e.parent_row - e.child_row;
        let ghost arrows_in = rows_view(arrows@);
        if span >= limits.long_edge_size as usize {
            let down_row: usize = e.child_row + limits.visible_part_size as usize;
            let up_row: usize = e.parent_row - limits.visible_part_size as usize;
            let down = ArrowMark {
                column: column_of_edge(orders, node_columns, ei, down_row, e.child_row),
                color_index: e.color_index,
                is_down: true,
            };
            push_item(&mut arrows, down_row, down);
            let up = ArrowMark {
                column: column_of_edge(orders, node_columns, ei, up_row, e.parent_row),
                color_index: e.color_index,
                is_down: false,
            };
            push_item(&mut arrows, up_row, up);
        }
        if span >= limits.edge_with_arrow_size as usize {
            let down_row: usize = e.child_row + 1;
            let up_row: usize = e.parent_row - 1;
            let down = ArrowMark {
                column: column_of_edge(orders, node_columns, ei, down_row, e.child_row),
                color_index: e.color_index,
                is_down: true,
            };
            push_item(&mut arrows, down_row, down);
            let up = ArrowMark {
                column: column_of_edge(orders, node_columns, ei, up_row, e.parent_row),
                color_index: e.color_index,
                is_down: false,
            };
            push_item(&mut arrows, up_row, up);
        }
        assert(rows_view(arrows@) == arrows_of_edge(arrows_in, rows_view(orders@), e, ei, limits));
        ei += 1;
    }
    (pieces, arrows)
}

} // verus!
