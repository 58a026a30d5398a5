//! Columns: for every row, the commit's node and the edges that pass through
//! the row, put in order from left to right.

use vstd::prelude::*;
use crate::git_graph::edges::EdgeInfo;
use crate::git_graph::edges::edge_wf;
use crate::git_graph::edges::edges_wf;
use crate::git_graph::edges::lanes_in_range;

verus! {

/// The spans from which an edge is drawn broken, or with arrows.
#[derive(Clone, Copy, Debug)]
pub struct EdgeLimits {
    /// Edges that span at least this many rows are hidden in the middle.
    pub long_edge_size: i32,
    /// How many rows of a long edge stay visible at either end.
    pub visible_part_size: i32,
    /// Edges that span at least this many rows get arrows next to their ends.
    pub edge_with_arrow_size: i32,
}

/// The limits in force when long edges are shown, and when they are not.
pub open spec fn limits_for(show_long_edges: bool) -> EdgeLimits {
    if show_long_edges {
        EdgeLimits { long_edge_size: 1000, visible_part_size: 250, edge_with_arrow_size: 30 }
    } else {
        EdgeLimits { long_edge_size: 30, visible_part_size: 1, edge_with_arrow_size: i32::MAX }
    }
}

/// Limits as `limits_for` gives them: positive, the visible part shorter
/// than a long edge.
pub open spec fn limits_wf(limits: EdgeLimits) -> bool {
    &&& 1 <= limits.visible_part_size < limits.long_edge_size
    &&& 2 <= limits.edge_with_arrow_size
}

/// Chooses the limits.
pub fn edge_limits(show_long_edges: bool) -> (limits: EdgeLimits)
    ensures
        limits == limits_for(show_long_edges),
        limits_wf(limits),
{
    if show_long_edges {
        EdgeLimits { long_edge_size: 1000, visible_part_size: 250, edge_with_arrow_size: 30 }
    } else {
        EdgeLimits { long_edge_size: 30, visible_part_size: 1, edge_with_arrow_size: i32::MAX }
    }
}

/// Whether an edge from `child_row` down to `parent_row` is drawn in `row`.
///
/// A long edge shows only its first and last `visible_part_size` rows; an
/// edge long enough for arrows, only the row next to either end; any other
/// edge is drawn in full.
pub open spec fn edge_visible(
    child_row: int,
    parent_row: int,
    row: int,
    long_edge_size: int,
    visible_part_size: int,
    edge_with_arrow_size: int,
) -> bool {
    let span = parent_row - child_row;
    if span >= long_edge_size {
        row - child_row <= visible_part_size || parent_row - row <= visible_part_size
    } else if span >= edge_with_arrow_size {
        row - child_row <= 1 || parent_row - row <= 1
    } else {
        true
    }
}

/// Tells whether an edge is drawn in a row.
pub fn is_edge_visible_in_row(
    child_row: i32,
    parent_row: i32,
    row: i32,
    long_edge_size: i32,
    visible_part_size: i32,
    edge_with_arrow_size: i32,
) -> (visible: bool)
    requires
        0 <= child_row,
        0 <= parent_row,
        0 <= row,
    ensures
        visible == edge_visible(
            child_row as int,
            parent_row as int,
            row as int,
            long_edge_size as int,
            visible_part_size as int,
            edge_with_arrow_size as int,
        ),
{
    let span: i32 = parent_row - child_row;
    if span >= long_edge_size {
        let up_offset: i32 = row - child_row;
        let down_offset: i32 = parent_row - row;
        return up_offset <= visible_part_size || down_offset <= visible_part_size;
    }
    if span >= edge_with_arrow_size {
        let up_offset: i32 = row - child_row;
        let down_offset: i32 = parent_row - row;
        return up_offset <= 1 || down_offset <= 1;
    }
    true
}

/// Whether edge `e` is drawn in `row` under the given limits.
pub open spec fn edge_shown(e: EdgeInfo, row: int, limits: EdgeLimits) -> bool {
    edge_visible(
        e.child_row as int,
        e.parent_row as int,
        row,
        limits.long_edge_size as int,
        limits.visible_part_size as int,
        limits.edge_with_arrow_size as int,
    )
}

/// What stands in a row: the commit's node, or an edge passing through.
#[derive(Clone, Copy, Debug)]
pub struct RowElement {
    /// Whether this is the node of the row.
    pub is_node: bool,
    /// For an edge, its index in the list of edges.
    pub edge_index: usize,
    /// Lane of the upper end (for a node, its lane).
    pub up_li: i32,
    /// Lane of the lower end (for a node, its lane).
    pub down_li: i32,
    /// Row of the upper end (for a node, its row).
    pub up_row: i32,
    /// Row of the lower end (for a node, its row).
    pub down_row: i32,
}

/// Lanes and rows of an element are not negative.
pub open spec fn element_wf(x: RowElement) -> bool {
    0 <= x.up_li && 0 <= x.down_li && 0 <= x.up_row && 0 <= x.down_row
}

/// Where an edge stands against a node: by the greater of its two lanes
/// against the node's lane, then by the rows where they start. Positive
/// means that the edge goes to the right of the node.
pub open spec fn edge_against_node(e: RowElement, node: RowElement) -> int {
    let lane = if e.up_li >= e.down_li {
        e.up_li
    } else {
        e.down_li
    };
    if lane != node.up_li {
        lane - node.up_li
    } else {
        e.up_row - node.up_row
    }
}

/// A node that stands for one end of an edge.
pub open spec fn end_node(lane: i32, row: i32) -> RowElement {
    RowElement { is_node: true, edge_index: 0, up_li: lane, down_li: lane, up_row: row, down_row: row }
}

/// The order of two elements of a row: negative where `lhs` goes to the
/// left of `rhs`, positive where it goes to the right.
///
/// Two edges are compared through one end of one of them: with the same
/// upper row, the lower end of the one that ends first; otherwise the upper
/// end of the one that starts later. Two nodes compare equal.
pub open spec fn element_order(lhs: RowElement, rhs: RowElement) -> int {
    if !lhs.is_node && !rhs.is_node {
        if lhs.up_row == rhs.up_row {
            if lhs.down_row < rhs.down_row {
                -edge_against_node(rhs, end_node(lhs.down_li, lhs.down_row))
            } else {
                edge_against_node(lhs, end_node(rhs.down_li, rhs.down_row))
            }
        } else if lhs.up_row < rhs.up_row {
            edge_against_node(lhs, end_node(rhs.up_li, rhs.up_row))
        } else {
            -edge_against_node(rhs, end_node(lhs.up_li, lhs.up_row))
        }
    } else if !lhs.is_node && rhs.is_node {
        edge_against_node(lhs, rhs)
    } else if lhs.is_node && !rhs.is_node {
        -edge_against_node(rhs, lhs)
    } else {
        0
    }
}

fn compare2(e: &RowElement, node: &RowElement) -> (r: i32)
    requires
        element_wf(*e),
        element_wf(*node),
    ensures
        r == edge_against_node(*e, *node),
{
    let lane: i32 = if e.up_li >= e.down_li {
        e.up_li
    } else {
        e.down_li
    };
    if lane != node.up_li {
        return lane - node.up_li;
    }
    e.up_row - node.up_row
}

fn make_end_node(lane: i32, row: i32) -> (node: RowElement)
    ensures
        node == end_node(lane, row),
{
    RowElement { is_node: true, edge_index: 0, up_li: lane, down_li: lane, up_row: row, down_row: row }
}

/// Compares two elements of a row.
pub fn compare_elements(lhs: &RowElement, rhs: &RowElement) -> (r: i32)
    requires
        element_wf(*lhs),
        element_wf(*rhs),
    ensures
        r == element_order(*lhs, *rhs),
{
    if !lhs.is_node && !rhs.is_node {
        if lhs.up_row == rhs.up_row {
            if lhs.down_row < rhs.down_row {
                let node = make_end_node(lhs.down_li, lhs.down_row);
                let c: i32 = compare2(rhs, &node);
                return -c;
            } else {
                let node = make_end_node(rhs.down_li, rhs.down_row);
                return compare2(lhs, &node);
            }
        }
        if lhs.up_row < rhs.up_row {
            let node = make_end_node(rhs.up_li, rhs.up_row);
            return compare2(lhs, &node);
        } else {
            let node = make_end_node(lhs.up_li, lhs.up_row);
            let c: i32 = compare2(rhs, &node);
            return -c;
        }
    }
    if !lhs.is_node && rhs.is_node {
        return compare2(lhs, rhs);
    }
    if lhs.is_node && !rhs.is_node {
        let c: i32 = compare2(rhs, lhs);
        return -c;
    }
    0
}

/// Where a new element goes into a row already in order: behind the last
/// element that does not go to its right.
pub open spec fn insert_point(s: Seq<RowElement>, x: RowElement) -> int
    decreases s.len(),
{
    if s.len() == 0 || element_order(s.last(), x) <= 0 {
        s.len() as int
    } else {
        insert_point(s.drop_last(), x)
    }
}

/// The elements put in order one after the other, each behind the last
/// element already placed that does not go to its right.
pub open spec fn sort_elements(s: Seq<RowElement>) -> Seq<RowElement>
    decreases s.len(),
{
    if s.len() == 0 {
        Seq::empty()
    } else {
        let placed = sort_elements(s.drop_last());
        placed.insert(insert_point(placed, s.last()), s.last())
    }
}

/// Every element of the sequence is well formed.
pub open spec fn elements_wf(s: Seq<RowElement>) -> bool {
    forall|i: int| 0 <= i < s.len() ==> element_wf(#[trigger] s[i])
}

/// The insert point lies within the row.
pub proof fn lemma_insert_point(s: Seq<RowElement>, x: RowElement)
    ensures
        0 <= insert_point(s, x) <= s.len(),
    decreases s.len(),
{
    if !(s.len() == 0 || element_order(s.last(), x) <= 0) {
        lemma_insert_point(s.drop_last(), x);
    }
}

/// Sorting keeps the number of elements and their well-formedness.
pub proof fn lemma_sort_elements(s: Seq<RowElement>)
    requires
        elements_wf(s),
    ensures
        sort_elements(s).len() == s.len(),
        elements_wf(sort_elements(s)),
    decreases s.len(),
{
    if s.len() > 0 {
        assert(elements_wf(s.drop_last())) by {
            assert forall|i: int| 0 <= i < s.drop_last().len() implies element_wf(
                #[trigger] s.drop_last()[i],
            ) by {
                assert(s.drop_last()[i] == s[i]);
            }
        }
        lemma_sort_elements(s.drop_last());
        let placed = sort_elements(s.drop_last());
        lemma_insert_point(placed, s.last());
        let at = insert_point(placed, s.last());
        let out = placed.insert(at, s.last());
        assert forall|i: int| 0 <= i < out.len() implies element_wf(#[trigger] out[i]) by {
            if i < at {
                assert(out[i] == placed[i]);
            } else if i == at {
                assert(out[i] == s[s.len() - 1]);
            } else {
                assert(out[i] == placed[i - 1]);
            }
        }
    }
}

/// Puts the elements of a row in order.
pub fn sort_row(elements: &Vec<RowElement>) -> (sorted: Vec<RowElement>)
    requires
        elements_wf(elements@),
    ensures
        sorted@ == sort_elements(elements@),
        sorted@.len() == elements@.len(),
        elements_wf(sorted@),
{
    let mut sorted: Vec<RowElement> = Vec::new();
    let mut i: usize = 0;
    proof {
        lemma_sort_elements(elements@);
        assert(elements@.take(0) =~= Seq::empty());
    }
    while i < elements.len()
        invariant
            i <= elements@.len(),
            elements_wf(elements@),
            sorted@ == sort_elements(elements@.take(i as int)),
            sorted@.len() == i,
            elements_wf(sorted@),
        decreases elements@.len() - i,
    {
        let x: RowElement = elements[i];
        let mut at: usize = sorted.len();
        assert(sorted@.take(at as int) =~= sorted@);
        while at > 0 && compare_elements(&sorted[at - 1], &x) > 0
            invariant
                at <= sorted@.len(),
                elements_wf(sorted@),
                element_wf(x),
                insert_point(sorted@, x) == insert_point(sorted@.take(at as int), x),
            decreases at,
        {
            proof {
                let prefix = sorted@.take(at as int);
                assert(prefix.last() == sorted@[at - 1]);
                assert(prefix.drop_last() =~= sorted@.take(at - 1));
            }
            at -= 1;
        }
        proof {
            let prefix = sorted@.take(at as int);
            if at > 0 {
                assert(prefix.last() == sorted@[at - 1]);
            }
            assert(insert_point(prefix, x) == at);
            let next = elements@.take(i + 1);
            assert(next.drop_last() =~= elements@.take(i as int));
            assert(next.last() == x);
            assert(elements_wf(next)) by {
                assert forall|j: int| 0 <= j < next.len() implies element_wf(#[trigger] next[j]) by {
                    assert(next[j] == elements@[j]);
                }
            }
            lemma_sort_elements(next);
        }
        sorted.insert(at, x);
        i += 1;
    }
    assert(elements@.take(elements@.len() as int) =~= elements@);
    sorted
}

/// The column of the node in a row put in order (0 where there is none).
pub open spec fn node_position(s: Seq<RowElement>) -> int
    decreases s.len(),
{
    if s.len() == 0 {
        0
    } else if s.last().is_node {
        s.len() - 1
    } else {
        node_position(s.drop_last())
    }
}

/// The column of edge `edge_index` in a row put in order, if it is there.
pub open spec fn edge_position(s: Seq<RowElement>, edge_index: usize) -> Option<int>
    decreases s.len(),
{
    if s.len() == 0 {
        None
    } else if !s.last().is_node && s.last().edge_index == edge_index {
        Some(s.len() - 1)
    } else {
        edge_position(s.drop_last(), edge_index)
    }
}

/// Finds the column of the node.
pub fn find_node(order: &Vec<RowElement>) -> (col: usize)
    ensures
        col == node_position(order@),
        col <= order@.len(),
{
    let mut at: usize = order.len();
    assert(order@.take(at as int) =~= order@);
    while at > 0
        invariant
            at <= order@.len(),
            node_position(order@) == node_position(order@.take(at as int)),
        decreases at,
    {
        proof {
            let prefix = order@.take(at as int);
            assert(prefix.last() == order@[at - 1]);
            assert(prefix.drop_last() =~= order@.take(at - 1));
        }
        if order[at - 1].is_node {
            return at - 1;
        }
        at -= 1;
    }
    0
}

/// Finds the column of an edge.
pub fn find_edge(order: &Vec<RowElement>, edge_index: usize) -> (col: Option<usize>)
    ensures
        match col {
            Some(c) => edge_position(order@, edge_index) == Some(c as int) && c < order@.len(),
            None => edge_position(order@, edge_index) is None,
        },
{
    let mut at: usize = order.len();
    assert(order@.take(at as int) =~= order@);
    while at > 0
        invariant
            at <= order@.len(),
            edge_position(order@, edge_index) == edge_position(order@.take(at as int), edge_index),
        decreases at,
    {
        proof {
            let prefix = order@.take(at as int);
            assert(prefix.last() == order@[at - 1]);
            assert(prefix.drop_last() =~= order@.take(at - 1));
        }
        if !order[at - 1].is_node && order[at - 1].edge_index == edge_index {
            return Some(at - 1);
        }
        at -= 1;
    }
    None
}

/// The edges among the first `upto` whose first row between their ends is
/// `row`.
pub open spec fn starting_at(edges: Seq<EdgeInfo>, row: int, upto: int) -> Seq<usize>
    decreases upto,
{
    if upto <= 0 {
        Seq::empty()
    } else {
        let before = starting_at(edges, row, upto - 1);
        let e = edges[upto - 1];
        if e.child_row + 1 == row && e.child_row + 2 <= e.parent_row {
            before.push((upto - 1) as usize)
        } else {
            before
        }
    }
}

/// Those of the first `upto` active edges whose last row between their
/// ends comes after `row`.
pub open spec fn kept_after(edges: Seq<EdgeInfo>, active: Seq<usize>, row: int, upto: int) -> Seq<
    usize,
>
    decreases upto,
{
    if upto <= 0 {
        Seq::empty()
    } else {
        let before = kept_after(edges, active, row, upto - 1);
        if row < edges[active[upto - 1] as int].parent_row - 1 {
            before.push(active[upto - 1])
        } else {
            before
        }
    }
}

/// The edges that pass through `row`: those that passed through the row
/// above and have not ended, then those that start here.
pub open spec fn active_at(edges: Seq<EdgeInfo>, row: int) -> Seq<usize>
    decreases row,
{
    if row <= 0 {
        starting_at(edges, row, edges.len() as int)
    } else {
        let above = active_at(edges, row - 1);
        kept_after(edges, above, row - 1, above.len() as int) + starting_at(
            edges,
            row,
            edges.len() as int,
        )
    }
}

/// The node of a row.
pub open spec fn node_element(lanes: Seq<i32>, row: int) -> RowElement {
    RowElement {
        is_node: true,
        edge_index: 0,
        up_li: lanes[row],
        down_li: lanes[row],
        up_row: row as i32,
        down_row: row as i32,
    }
}

/// An edge as an element of a row.
pub open spec fn edge_element(edges: Seq<EdgeInfo>, edge_index: usize) -> RowElement {
    let e = edges[edge_index as int];
    RowElement {
        is_node: false,
        edge_index,
        up_li: e.up_li,
        down_li: e.down_li,
        up_row: e.child_row as i32,
        down_row: e.parent_row as i32,
    }
}

/// The elements of those of the first `upto` active edges that are drawn in
/// `row`.
pub open spec fn shown_edges(
    edges: Seq<EdgeInfo>,
    active: Seq<usize>,
    row: int,
    limits: EdgeLimits,
    upto: int,
) -> Seq<RowElement>
    decreases upto,
{
    if upto <= 0 {
        Seq::empty()
    } else {
        let before = shown_edges(edges, active, row, limits, upto - 1);
        if edge_shown(edges[active[upto - 1] as int], row, limits) {
            before.push(edge_element(edges, active[upto - 1]))
        } else {
            before
        }
    }
}

/// The elements of a row before they are put in order: the node, then the
/// edges that pass through the row and are drawn there.
pub open spec fn row_elements(edges: Seq<EdgeInfo>, lanes: Seq<i32>, row: int, limits: EdgeLimits) -> Seq<
    RowElement,
> {
    let active = active_at(edges, row);
    seq![node_element(lanes, row)] + shown_edges(edges, active, row, limits, active.len() as int)
}

/// The elements of a row from left to right: the position of each is its
/// column.
pub open spec fn row_order(edges: Seq<EdgeInfo>, lanes: Seq<i32>, row: int, limits: EdgeLimits) -> Seq<
    RowElement,
> {
    sort_elements(row_elements(edges, lanes, row, limits))
}

/// Every index of the sequence names an edge.
pub open spec fn indices_in_range(active: Seq<usize>, count: int) -> bool {
    forall|j: int| 0 <= j < active.len() ==> (#[trigger] active[j]) < count
}

proof fn lemma_starting_at(edges: Seq<EdgeInfo>, row: int, upto: int)
    requires
        0 <= upto <= edges.len(),
    ensures
        indices_in_range(starting_at(edges, row, upto), edges.len() as int),
    decreases upto,
{
    if upto > 0 {
        lemma_starting_at(edges, row, upto - 1);
    }
}

proof fn lemma_kept_after(edges: Seq<EdgeInfo>, active: Seq<usize>, row: int, upto: int)
    requires
        0 <= upto <= active.len(),
        indices_in_range(active, edges.len() as int),
    ensures
        indices_in_range(kept_after(edges, active, row, upto), edges.len() as int),
    decreases upto,
{
    if upto > 0 {
        lemma_kept_after(edges, active, row, upto - 1);
    }
}

proof fn lemma_shown_edges(
    edges: Seq<EdgeInfo>,
    active: Seq<usize>,
    row: int,
    limits: EdgeLimits,
    upto: int,
    n: int,
)
    requires
        0 <= upto <= active.len(),
        indices_in_range(active, edges.len() as int),
        edges_wf(edges, n),
        n < i32::MAX,
    ensures
        elements_wf(shown_edges(edges, active, row, limits, upto)),
    decreases upto,
{
    if upto > 0 {
        lemma_shown_edges(edges, active, row, limits, upto - 1, n);
        let e = edges[active[upto - 1] as int];
        assert(edge_wf(e, n));
    }
}

/// Sorts the edges into buckets by the first row between their ends.
fn edges_by_start(n: usize, edges: &Vec<EdgeInfo>) -> (starts: Vec<Vec<usize>>)
    requires
        edges_wf(edges@, n as int),
    ensures
        starts@.len() == n,
        forall|row: int|
            0 <= row < n ==> (#[trigger] starts@[row])@ == starting_at(
                edges@,
                row,
                edges@.len() as int,
            ),
{
    let mut starts: Vec<Vec<usize>> = Vec::new();
    let mut r: usize = 0;
    while r < n
        invariant
            r <= n,
            starts@.len() == r,
            forall|row: int| 0 <= row < r ==> (#[trigger] starts@[row])@ == Seq::<usize>::empty(),
        decreases n - r,
    {
        starts.push(Vec::new());
        r += 1;
    }
    let mut ei: usize = 0;
    while ei < edges.len()
        invariant
            ei <= edges@.len(),
            edges_wf(edges@, n as int),
            starts@.len() == n,
            forall|row: int|
                0 <= row < n ==> (#[trigger] starts@[row])@ == starting_at(edges@, row, ei as int),
        decreases edges@.len() - ei,
    {
        let e: EdgeInfo = edges[ei];
        assert(edge_wf(edges@[ei as int], n as int));
        let ghost before = starts@;
        if e.child_row + 2 <= e.parent_row {
            starts[e.child_row + 1].push(ei);
        }
        assert forall|row: int| 0 <= row < n implies (#[trigger] starts@[row])@ == starting_at(
            edges@,
            row,
            ei + 1,
        ) by {
            assert(before[row]@ == starting_at(edges@, row, ei as int));
        }
        ei += 1;
    }
    starts
}

/// Builds the elements of a row from the edges that pass through it.
fn build_row_elements(
    edges: &Vec<EdgeInfo>,
    lanes: &Vec<i32>,
    active: &Vec<usize>,
    row: usize,
    limits: EdgeLimits,
) -> (elements: Vec<RowElement>)
    requires
        lanes@.len() < i32::MAX,
        row < lanes@.len(),
        lanes_in_range(lanes@),
        edges_wf(edges@, lanes@.len() as int),
        indices_in_range(active@, edges@.len() as int),
    ensures
        elements@ == seq![node_element(lanes@, row as int)] + shown_edges(
            edges@,
            active@,
            row as int,
            limits,
            active@.len() as int,
        ),
        elements_wf(elements@),
{
    let ghost n = lanes@.len() as int;
    let mut elements: Vec<RowElement> = Vec::new();
    elements.push(
        RowElement {
            is_node: true,
            edge_index: 0,
            up_li: lanes[row],
            down_li: lanes[row],
            up_row: row as i32,
            down_row: row as i32,
        },
    );
    let ghost node = node_element(lanes@, row as int);
    assert(elements@ =~= seq![node]);
    let mut k: usize = 0;
    while k < active.len()
        invariant
            k <= active@.len(),
            n == lanes@.len(),
            n < i32::MAX,
            row < n,
            edges_wf(edges@, n),
            indices_in_range(active@, edges@.len() as int),
            element_wf(node),
            elements@ == seq![node] + shown_edges(edges@, active@, row as int, limits, k as int),
        decreases active@.len() - k,
    {
        let ei: usize = active[k];
        assert(active@[k as int] < edges@.len());
        let e: EdgeInfo = edges[ei];
        assert(edge_wf(edges@[ei as int], n));
        if is_edge_visible_in_row(
            e.child_row as i32,
            e.parent_row as i32,
            row as i32,
            limits.long_edge_size,
            limits.visible_part_size,
            limits.edge_with_arrow_size,
        ) {
            elements.push(
                RowElement {
                    is_node: false,
                    edge_index: ei,
                    up_li: e.up_li,
                    down_li: e.down_li,
                    up_row: e.child_row as i32,
                    down_row: e.parent_row as i32,
                },
            );
        }
        assert(elements@ =~= seq![node] + shown_edges(edges@, active@, row as int, limits, k + 1));
        k += 1;
    }
    proof {
        lemma_shown_edges(edges@, active@, row as int, limits, active@.len() as int, n);
        let shown = shown_edges(edges@, active@, row as int, limits, active@.len() as int);
        assert forall|j: int| 0 <= j < elements@.len() implies element_wf(#[trigger] elements@[j]) by {
            if j > 0 {
                assert(elements@[j] == shown[j - 1]);
            }
        }
    }
    elements
}

/// Puts every row in order and returns the rows, each from left to right.
pub fn sweep_rows(lanes: &Vec<i32>, edges: &Vec<EdgeInfo>, limits: EdgeLimits) -> (orders: Vec<
    Vec<RowElement>,
>)
    requires
        lanes@.len() < i32::MAX,
        lanes_in_range(lanes@),
        edges_wf(edges@, lanes@.len() as int),
    ensures
        orders@.len() == lanes@.len(),
        forall|row: int|
            0 <= row < lanes@.len() ==> (#[trigger] orders@[row])@ == row_order(
                edges@,
                lanes@,
                row,
                limits,
            ),
{
    let n: usize = lanes.len();
    let starts = edges_by_start(n, edges);
    let mut orders: Vec<Vec<RowElement>> = Vec::new();
    let mut carried: Vec<usize> = Vec::new();
    let mut row: usize = 0;
    while row < n
        invariant
            row <= n,
            n == lanes@.len(),
            n < i32::MAX,
            lanes_in_range(lanes@),
            edges_wf(edges@, n as int),
            starts@.len() == n,
            forall|r: int|
                0 <= r < n ==> (#[trigger] starts@[r])@ == starting_at(
                    edges@,
                    r,
                    edges@.len() as int,
                ),
            orders@.len() == row,
            forall|r: int|
                0 <= r < row ==> (#[trigger] orders@[r])@ == row_order(edges@, lanes@, r, limits),
            indices_in_range(carried@, edges@.len() as int),
            carried@ + starting_at(edges@, row as int, edges@.len() as int) == active_at(
                edges@,
                row as int,
            ),
        decreases n - row,
    {
        let ghost begun = starting_at(edges@, row as int, edges@.len() as int);
        let ghost carried_in = carried@;
        proof {
            lemma_starting_at(edges@, row as int, edges@.len() as int);
        }
        let mut active: Vec<usize> = carried;
        let bucket = &starts[row];
        let mut k: usize = 0;
        while k < bucket.len()
            invariant
                k <= bucket@.len(),
                bucket@ == begun,
                active@ == carried_in + begun.take(k as int),
            decreases bucket@.len() - k,
        {
            active.push(bucket[k]);
            assert(active@ =~= carried_in + begun.take(k + 1));
            k += 1;
        }
        assert(begun.take(begun.len() as int) =~= begun);
        assert(active@ == active_at(edges@, row as int));
        assert(indices_in_range(active@, edges@.len() as int)) by {
            assert forall|j: int| 0 <= j < active@.len() implies (#[trigger] active@[j])
                < edges@.len() by {
                if j < carried_in.len() {
                    assert(active@[j] == carried_in[j]);
                } else {
                    assert(active@[j] == begun[j - carried_in.len()]);
                }
            }
        }
        let elements = build_row_elements(edges, lanes, &active, row, limits);
        let sorted = sort_row(&elements);
        orders.push(sorted);
        let mut kept: Vec<usize> = Vec::new();
        let mut j: usize = 0;
        while j < active.len()
            invariant
                j <= active@.len(),
                row < n,
                edges_wf(edges@, n as int),
                indices_in_range(active@, edges@.len() as int),
                kept@ == kept_after(edges@, active@, row as int, j as int),
            decreases active@.len() - j,
        {
            let ei: usize = active[j];
            assert(active@[j as int] < edges@.len());
            assert(edge_wf(edges@[ei as int], n as int));
            if row < edges[ei].parent_row - 1 {
                kept.push(ei);
            }
            j += 1;
        }
        proof {
            lemma_kept_after(edges@, active@, row as int, active@.len() as int);
        }
        carried = kept;
        row += 1;
    }
    orders
}

} // verus!
