use pier_core::git_graph::edges::{assign_colors, build_edges};
use pier_core::git_graph::emit::{ArrowMark, EdgePiece, RowHalf};
use pier_core::git_graph::lanes::assign_layout_indices;
use pier_core::git_graph::sweep::{
    compare_elements, edge_limits, is_edge_visible_in_row, sort_row, sweep_rows, RowElement,
};
use pier_core::git_graph::{
    compute_graph_layout, mark_main_chain, resolve_parents, split_parents, GraphRow, LayoutInput,
};

fn commit(hash: &str, parents: &str) -> LayoutInput {
    LayoutInput {
        hash: hash.to_string(),
        parents: parents.to_string(),
        short_hash: hash.chars().take(7).collect(),
        refs: String::new(),
        message: format!("message of {}", hash),
        author: "author".to_string(),
        date_timestamp: 1700000000,
    }
}

fn chain(names: &[&str]) -> Vec<String> {
    names.iter().map(|s| s.to_string()).collect()
}

fn piece(half: RowHalf, near: i32, far: i32, arrow: bool, color: i32) -> EdgePiece {
    EdgePiece { half, near_column: near, far_column: far, with_arrow: arrow, color_index: color }
}

fn x_pos(column: i32, lane_width: f32) -> f32 {
    column as f32 * lane_width + lane_width / 2.0 + 4.0
}

fn columns(rows: &[GraphRow]) -> Vec<i32> {
    rows.iter().map(|r| r.node_column).collect()
}

fn colors(rows: &[GraphRow]) -> Vec<i32> {
    rows.iter().map(|r| r.color_index).collect()
}

#[test]
fn empty_input_gives_empty_layout() {
    let rows = compute_graph_layout(&Vec::new(), &Vec::new(), false);
    assert!(rows.is_empty());
}

#[test]
fn linear_history() {
    let commits = vec![commit("A", "B"), commit("B", "C"), commit("C", "")];
    let rows = compute_graph_layout(&commits, &chain(&["A"]), false);
    assert_eq!(columns(&rows), vec![0, 0, 0]);
    assert_eq!(colors(&rows), vec![0, 1, 1]);
    assert_eq!(rows[0].segments, vec![piece(RowHalf::Bottom, 0, 0, false, 0)]);
    assert_eq!(
        rows[1].segments,
        vec![piece(RowHalf::Top, 0, 0, false, 0), piece(RowHalf::Bottom, 0, 0, false, 1)]
    );
    assert_eq!(rows[2].segments, vec![piece(RowHalf::Top, 0, 0, false, 1)]);
    for row in &rows {
        assert!(row.arrows.is_empty());
        for s in &row.segments {
            // With lanes 20 wide every piece is centred on x = 14.
            assert_eq!(x_pos(s.near_column, 20.0), 14.0);
            assert_eq!(x_pos(s.far_column, 20.0), 14.0);
        }
    }
}

#[test]
fn single_merge() {
    let commits = vec![commit("M", "A B"), commit("A", ""), commit("B", "")];
    let rows = compute_graph_layout(&commits, &Vec::new(), false);
    assert_eq!(columns(&rows), vec![0, 0, 0]);
    assert_eq!(colors(&rows), vec![1, 1, 2]);
    // The merge edge M -> B has B's colour.
    assert_eq!(
        rows[0].segments,
        vec![piece(RowHalf::Bottom, 0, 0, false, 1), piece(RowHalf::Bottom, 0, 1, false, 2)]
    );
    // In row 1 the edge to A ends in column 0 and the edge to B passes in
    // column 1.
    assert_eq!(
        rows[1].segments,
        vec![
            piece(RowHalf::Top, 0, 0, false, 1),
            piece(RowHalf::Top, 1, 0, false, 2),
            piece(RowHalf::Bottom, 1, 0, false, 2),
        ]
    );
    assert_eq!(rows[2].segments, vec![piece(RowHalf::Top, 0, 1, false, 2)]);
}

#[test]
fn rows_keep_the_commits_in_order() {
    let mut commits = vec![commit("h3", "h2 zz"), commit("h2", "h1"), commit("h1", "")];
    commits[1].refs = " (HEAD -> main)".to_string();
    commits[2].date_timestamp = -5;
    let rows = compute_graph_layout(&commits, &chain(&["h3", "h2", "h1"]), true);
    assert_eq!(rows.len(), commits.len());
    for (row, c) in rows.iter().zip(commits.iter()) {
        assert_eq!(row.hash, c.hash);
        assert_eq!(row.short_hash, c.short_hash);
        assert_eq!(row.message, c.message);
        assert_eq!(row.author, c.author);
        assert_eq!(row.date_timestamp, c.date_timestamp);
        assert_eq!(row.refs, c.refs);
        assert_eq!(row.parents, c.parents);
        assert_eq!(row.color_index, 0);
    }
}

#[test]
fn main_chain_commits_have_colour_zero() {
    let commits = vec![
        commit("a", "c"),
        commit("b", "c"),
        commit("c", "d"),
        commit("d", ""),
    ];
    let rows = compute_graph_layout(&commits, &chain(&["b", "d", "nowhere"]), false);
    assert_eq!(colors(&rows), vec![1, 0, 1, 0]);
    let rows = compute_graph_layout(&commits, &Vec::new(), false);
    assert_eq!(colors(&rows), vec![1, 2, 1, 1]);
}

#[test]
fn fork_gives_the_later_child_a_greater_lane() {
    // Two children of one parent: the lane along the second child's edge
    // falls.
    let parents = vec![vec![Some(2)], vec![Some(2)], vec![]];
    let lanes = assign_layout_indices(3, &parents);
    assert_eq!(lanes, vec![1, 2, 1]);
    let no_main = vec![false, false, false];
    let colors = assign_colors(&lanes, &no_main);
    assert_eq!(colors, vec![1, 2, 1]);
    let edges = build_edges(&parents, &lanes, &colors);
    assert_eq!(edges.len(), 2);
    assert_eq!((edges[0].up_li, edges[0].down_li), (1, 1));
    assert_eq!((edges[1].up_li, edges[1].down_li), (2, 1));
}

#[test]
fn lanes_follow_parents_in_order() {
    // 0: merge of 1 and 2; 1 -> 3; 2 -> 3; 3 root; 4: unrelated head.
    let parents = vec![
        vec![Some(1), Some(2)],
        vec![Some(3)],
        vec![Some(3)],
        vec![],
        vec![None],
    ];
    assert_eq!(assign_layout_indices(5, &parents), vec![1, 1, 2, 1, 3]);
}

#[test]
fn lanes_of_rows_that_no_head_reaches() {
    // Rows 0 and 1 name each other: neither is a head.
    let parents = vec![vec![Some(1)], vec![Some(0)], vec![]];
    let lanes = assign_layout_indices(3, &parents);
    assert_eq!(lanes, vec![2, 2, 1]);
    // A row that names itself.
    let parents = vec![vec![Some(0)]];
    assert_eq!(assign_layout_indices(1, &parents), vec![1]);
    // Naming itself does not keep a row from being a head.
    let parents = vec![vec![Some(0)], vec![]];
    assert_eq!(assign_layout_indices(2, &parents), vec![1, 2]);
}

#[test]
fn only_parents_in_later_rows_give_edges() {
    let parents = vec![vec![None, Some(1)], vec![Some(0), Some(1)]];
    let lanes = assign_layout_indices(2, &parents);
    let colors = assign_colors(&lanes, &vec![false, true]);
    let edges = build_edges(&parents, &lanes, &colors);
    assert_eq!(edges.len(), 1);
    assert_eq!((edges[0].child_row, edges[0].parent_row), (0, 1));
    // A second parent: the edge has the parent's colour.
    assert_eq!(edges[0].color_index, 0);
}

#[test]
fn parents_are_split_at_single_spaces() {
    assert_eq!(split_parents(""), Vec::<String>::new());
    assert_eq!(split_parents("a"), vec!["a"]);
    assert_eq!(split_parents("a b"), vec!["a", "b"]);
    assert_eq!(split_parents("a  b "), vec!["a", "", "b", ""]);
}

#[test]
fn parents_resolve_to_rows() {
    let commits = vec![commit("x", "y q x"), commit("y", ""), commit("x", "y")];
    // Of two commits with one hash the later counts.
    assert_eq!(
        resolve_parents(&commits),
        vec![vec![Some(1), None, Some(2)], vec![], vec![Some(1)]]
    );
    assert_eq!(mark_main_chain(&commits, &chain(&["y"])), vec![false, true, false]);
}

#[test]
fn visibility_of_edges() {
    // Short edge: always drawn.
    assert!(is_edge_visible_in_row(0, 29, 15, 30, 1, i32::MAX));
    // Long edge: only next to its ends.
    assert!(is_edge_visible_in_row(0, 30, 1, 30, 1, i32::MAX));
    assert!(!is_edge_visible_in_row(0, 30, 2, 30, 1, i32::MAX));
    assert!(!is_edge_visible_in_row(0, 30, 28, 30, 1, i32::MAX));
    assert!(is_edge_visible_in_row(0, 30, 29, 30, 1, i32::MAX));
    // With long edges shown: 250 rows at either end of an edge of 1000.
    assert!(is_edge_visible_in_row(10, 1010, 260, 1000, 250, 30));
    assert!(!is_edge_visible_in_row(10, 1010, 261, 1000, 250, 30));
    assert!(!is_edge_visible_in_row(10, 1010, 759, 1000, 250, 30));
    assert!(is_edge_visible_in_row(10, 1010, 760, 1000, 250, 30));
    // An edge long enough for arrows: the row next to either end.
    assert!(is_edge_visible_in_row(0, 30, 1, 1000, 250, 30));
    assert!(!is_edge_visible_in_row(0, 30, 2, 1000, 250, 30));
    assert!(is_edge_visible_in_row(0, 30, 29, 1000, 250, 30));
    assert!(is_edge_visible_in_row(0, 29, 10, 1000, 250, 30));
}

#[test]
fn limits_by_mode() {
    let shown = edge_limits(true);
    assert_eq!(
        (shown.long_edge_size, shown.visible_part_size, shown.edge_with_arrow_size),
        (1000, 250, 30)
    );
    let hidden = edge_limits(false);
    assert_eq!(
        (hidden.long_edge_size, hidden.visible_part_size, hidden.edge_with_arrow_size),
        (30, 1, i32::MAX)
    );
}

fn node(lane: i32, row: i32) -> RowElement {
    RowElement { is_node: true, edge_index: 0, up_li: lane, down_li: lane, up_row: row, down_row: row }
}

fn edge(index: usize, up_li: i32, down_li: i32, up_row: i32, down_row: i32) -> RowElement {
    RowElement { is_node: false, edge_index: index, up_li, down_li, up_row, down_row }
}

#[test]
fn order_of_elements() {
    // Edge against node: by the greater lane of the edge, then by row.
    assert_eq!(compare_elements(&edge(0, 1, 3, 0, 9), &node(2, 5)), 1);
    assert_eq!(compare_elements(&node(2, 5), &edge(0, 1, 3, 0, 9)), -1);
    assert_eq!(compare_elements(&edge(0, 2, 1, 3, 9), &node(2, 5)), -2);
    assert_eq!(compare_elements(&node(1, 5), &node(7, 5)), 0);
    // Two edges from one row: through the lower end of the one that ends
    // first.
    assert_eq!(compare_elements(&edge(0, 1, 2, 0, 4), &edge(1, 1, 5, 0, 8)), -3);
    assert_eq!(compare_elements(&edge(1, 1, 5, 0, 8), &edge(0, 1, 2, 0, 4)), 3);
    // Two edges from different rows: through the upper end of the later.
    assert_eq!(compare_elements(&edge(0, 1, 1, 0, 9), &edge(1, 4, 4, 2, 9)), -3);
    assert_eq!(compare_elements(&edge(1, 4, 4, 2, 9), &edge(0, 1, 1, 0, 9)), 3);
}

#[test]
fn rows_are_sorted_by_the_order_of_elements() {
    let elements = vec![node(2, 5), edge(0, 3, 3, 1, 9), edge(1, 1, 1, 0, 9), edge(2, 2, 2, 2, 9)];
    let sorted = sort_row(&elements);
    let order: Vec<(bool, usize)> = sorted.iter().map(|e| (e.is_node, e.edge_index)).collect();
    assert_eq!(order, vec![(false, 1), (false, 2), (true, 0), (false, 0)]);
}

fn long_edge_commits(span: usize) -> Vec<LayoutInput> {
    // A chain c0 -> c1 -> ... -> c<span>, and c0 names c<span> as well.
    let mut commits = Vec::new();
    for i in 0..=span {
        let parents = if i == 0 {
            format!("c1 c{}", span)
        } else if i < span {
            format!("c{}", i + 1)
        } else {
            String::new()
        };
        commits.push(commit(&format!("c{}", i), &parents));
    }
    commits
}

#[test]
fn long_edge_is_broken_and_marked_with_arrows() {
    let commits = long_edge_commits(31);
    let rows = compute_graph_layout(&commits, &Vec::new(), false);
    assert_eq!(rows.len(), 32);
    // The long edge is drawn in rows 1 and 30 only, to the left of the
    // node, and marked there.
    assert_eq!(rows[1].node_column, 1);
    assert_eq!(rows[30].node_column, 1);
    for r in 2..30 {
        assert_eq!(rows[r].node_column, 0);
        assert_eq!(rows[r].segments.len(), 2);
        assert!(rows[r].arrows.is_empty());
    }
    assert_eq!(rows[1].arrows, vec![ArrowMark { column: 0, color_index: 1, is_down: true }]);
    assert_eq!(rows[30].arrows, vec![ArrowMark { column: 0, color_index: 1, is_down: false }]);
    assert!(rows[0].arrows.is_empty());
    assert!(rows[31].arrows.is_empty());
    // Row 1 holds the end of the first edge, both halves of the long edge
    // (its lower half running into the arrow) and the start of the next.
    assert_eq!(
        rows[1].segments,
        vec![
            piece(RowHalf::Top, 1, 0, false, 1),
            piece(RowHalf::Top, 0, 0, true, 1),
            piece(RowHalf::Bottom, 1, 0, false, 1),
        ]
    );
    assert_eq!(
        rows[30].segments,
        vec![
            piece(RowHalf::Bottom, 0, 0, true, 1),
            piece(RowHalf::Top, 1, 0, false, 1),
            piece(RowHalf::Bottom, 1, 0, false, 1),
        ]
    );
}

#[test]
fn shorter_edge_is_drawn_in_full() {
    let commits = long_edge_commits(29);
    let rows = compute_graph_layout(&commits, &Vec::new(), false);
    for r in 1..29 {
        assert_eq!(rows[r].node_column, 1);
        assert_eq!(rows[r].segments.len(), 4);
        assert!(rows[r].arrows.is_empty());
    }
}

#[test]
fn edge_of_thirty_rows_gets_arrows_when_long_edges_are_shown() {
    let commits = long_edge_commits(30);
    let rows = compute_graph_layout(&commits, &Vec::new(), true);
    assert_eq!(rows[1].arrows, vec![ArrowMark { column: 0, color_index: 1, is_down: true }]);
    assert_eq!(rows[29].arrows, vec![ArrowMark { column: 0, color_index: 1, is_down: false }]);
    for r in 2..29 {
        assert!(rows[r].arrows.is_empty());
        assert_eq!(rows[r].node_column, 0);
    }
}

#[test]
fn columns_are_positions_in_the_sorted_row() {
    let commits = vec![commit("M", "A B"), commit("A", ""), commit("B", "")];
    let parents = resolve_parents(&commits);
    let lanes = assign_layout_indices(3, &parents);
    assert_eq!(lanes, vec![1, 1, 2]);
    let colors = assign_colors(&lanes, &vec![false, false, false]);
    let edges = build_edges(&parents, &lanes, &colors);
    let orders = sweep_rows(&lanes, &edges, edge_limits(false));
    let shape: Vec<Vec<(bool, usize)>> =
        orders.iter().map(|row| row.iter().map(|e| (e.is_node, e.edge_index)).collect()).collect();
    assert_eq!(
        shape,
        vec![vec![(true, 0)], vec![(true, 0), (false, 1)], vec![(true, 0)]]
    );
    for row in &orders {
        assert_eq!(row.iter().filter(|e| e.is_node).count(), 1);
    }
}
