//! Commit-graph layout: lanes, colours, per-row columns and the edge pieces
//! that a renderer turns into line segments and arrows.
//!
//! The layout is a pure function of an ordered list of commits. Which
//! commits are listed, and in what order, is the caller's business.

pub mod lanes;
pub mod edges;
pub mod sweep;
pub mod emit;
pub mod laws;
pub mod log;

use vstd::prelude::*;
use vstd::hash_map::StringHashMap;
use vstd::hash_set::StringHashSet;
use crate::git_graph::edges::all_edges;
use crate::git_graph::edges::assign_colors;
use crate::git_graph::edges::build_edges;
use crate::git_graph::edges::lanes_in_range;
use crate::git_graph::edges::node_colors;
use crate::git_graph::emit::ArrowMark;
use crate::git_graph::emit::EdgePiece;
use crate::git_graph::emit::emit_edges;
use crate::git_graph::emit::emitted_upto;
use crate::git_graph::emit::node_column_at;
use crate::git_graph::emit::node_columns_of;
use crate::git_graph::lanes::ParentRows;
use crate::git_graph::lanes::assign_layout_indices;
use crate::git_graph::lanes::graph_wf;
use crate::git_graph::lanes::layout_indices;
use crate::git_graph::sweep::edge_limits;
use crate::git_graph::sweep::limits_for;
use crate::git_graph::sweep::row_order;
use crate::git_graph::sweep::sweep_rows;
use crate::rows::rows_view;
use crate::text::chars_of;
use crate::text::split_chars;
use crate::text::split_on;
use crate::text::strings_view;

verus! {

/// Which commits a log query asks for.
#[derive(Clone, Debug)]
pub struct GraphFilter {
    /// Start from this branch (or ref, or commit id) instead of all refs.
    pub branch: Option<String>,
    /// Keep commits whose author's name contains this, whatever the case.
    pub author: Option<String>,
    /// Keep commits whose message contains this, or whose hash starts with
    /// it, whatever the case.
    pub search_text: Option<String>,
    /// Keep commits made at or after this time; 0 keeps all.
    pub after_timestamp: i64,
    /// Order topologically, not by time alone.
    pub topo_order: bool,
    /// Follow first parents only.
    pub first_parent_only: bool,
    /// Leave out commits with more than one parent.
    pub no_merges: bool,
    /// Keep commits that touch one of these paths; empty keeps all.
    pub paths: Vec<String>,
}

/// One commit of a log.
#[derive(Clone, Debug)]
pub struct CommitEntry {
    pub hash: String,
    /// Hashes of the parents, separated by single spaces.
    pub parents: String,
    pub short_hash: String,
    /// Decoration: the refs that point at the commit.
    pub refs: String,
    pub message: String,
    pub author: String,
    pub date_timestamp: i64,
}

/// One commit as the layout takes it.
#[derive(Clone, Debug)]
pub struct LayoutInput {
    pub hash: String,
    /// Hashes of the parents, separated by single spaces, in the order in
    /// which the commit names them.
    pub parents: String,
    pub short_hash: String,
    pub refs: String,
    pub message: String,
    pub author: String,
    pub date_timestamp: i64,
}

/// One row of the laid-out graph: the commit and what is drawn in its row.
#[derive(Clone, Debug)]
pub struct GraphRow {
    pub hash: String,
    pub short_hash: String,
    pub message: String,
    pub author: String,
    pub date_timestamp: i64,
    pub refs: String,
    pub parents: String,
    /// Column of the commit's node.
    pub node_column: i32,
    /// Colour of the commit's node: 0 on the main chain.
    pub color_index: i32,
    /// The pieces of edges that lie in this row, in the order of the edges.
    pub segments: Vec<EdgePiece>,
    /// The arrows that lie in this row, in the order of the edges.
    pub arrows: Vec<ArrowMark>,
}

/// What is drawn in one row.
pub struct RowLayout {
    pub node_column: i32,
    pub color_index: i32,
    pub segments: Seq<EdgePiece>,
    pub arrows: Seq<ArrowMark>,
}

/// The layout of a graph given by the parents of every row and by the rows
/// that lie on the main chain.
pub open spec fn layout_of(g: ParentRows, main: Seq<bool>, show_long_edges: bool) -> Seq<RowLayout> {
    let lanes = layout_indices(g);
    let colors = node_colors(lanes, main);
    let edges = all_edges(g, lanes, colors);
    let limits = limits_for(show_long_edges);
    let orders = Seq::new(g.len(), |r: int| row_order(edges, lanes, r, limits));
    let emitted = emitted_upto(orders, edges, limits, edges.len() as int);
    Seq::new(
        g.len(),
        |r: int|
            RowLayout {
                node_column: node_column_at(orders, r),
                color_index: colors[r],
                segments: emitted.0[r],
                arrows: emitted.1[r],
            },
    )
}

/// The hashes that a parents field names: none where it is empty, else its
/// pieces between single spaces.
pub open spec fn parent_hashes(parents: Seq<char>) -> Seq<Seq<char>> {
    if parents.len() == 0 {
        Seq::empty()
    } else {
        split_on(parents, ' ')
    }
}

/// The row of every hash among the first `upto` commits; of two commits
/// with one hash the later counts.
pub open spec fn row_index(commits: Seq<LayoutInput>, upto: int) -> Map<Seq<char>, usize>
    decreases upto,
{
    if upto <= 0 {
        Map::empty()
    } else {
        row_index(commits, upto - 1).insert(commits[upto - 1].hash@, (upto - 1) as usize)
    }
}

/// The rows of the given hashes, `None` for a hash that no commit has.
pub open spec fn resolve(index: Map<Seq<char>, usize>, hashes: Seq<Seq<char>>) -> Seq<Option<usize>> {
    Seq::new(
        hashes.len(),
        |k: int|
            if index.contains_key(hashes[k]) {
                Some(index[hashes[k]])
            } else {
                None
            },
    )
}

/// The parents of every commit as rows.
pub open spec fn parent_rows_of(commits: Seq<LayoutInput>) -> ParentRows {
    Seq::new(
        commits.len(),
        |i: int|
            resolve(row_index(commits, commits.len() as int), parent_hashes(commits[i].parents@)),
    )
}

/// The hashes among the first `upto` of the main chain.
pub open spec fn chain_set(main_chain: Seq<String>, upto: int) -> Set<Seq<char>>
    decreases upto,
{
    if upto <= 0 {
        Set::empty()
    } else {
        chain_set(main_chain, upto - 1).insert(main_chain[upto - 1]@)
    }
}

/// For every commit, whether its hash is on the main chain.
pub open spec fn on_main_chain(commits: Seq<LayoutInput>, main_chain: Seq<String>) -> Seq<bool> {
    Seq::new(
        commits.len(),
        |i: int| chain_set(main_chain, main_chain.len() as int).contains(commits[i].hash@),
    )
}

/// A hash is in the chain set exactly where the chain lists it.
pub proof fn lemma_chain_set(main_chain: Seq<String>, upto: int, hash: Seq<char>)
    requires
        0 <= upto <= main_chain.len(),
    ensures
        chain_set(main_chain, upto).contains(hash) <==> exists|k: int|
            0 <= k < upto && (#[trigger] main_chain[k])@ == hash,
    decreases upto,
{
    if upto > 0 {
        lemma_chain_set(main_chain, upto - 1, hash);
        if chain_set(main_chain, upto - 1).contains(hash) {
            let k = choose|k: int| 0 <= k < upto - 1 && (#[trigger] main_chain[k])@ == hash;
            assert(0 <= k < upto && main_chain[k]@ == hash);
        }
        if main_chain[upto - 1]@ == hash {
            assert(0 <= upto - 1 < upto && main_chain[upto - 1]@ == hash);
        }
    }
}

/// Every row of the index lies among the commits indexed.
pub proof fn lemma_row_index(commits: Seq<LayoutInput>, upto: int)
    requires
        0 <= upto <= commits.len(),
        commits.len() <= usize::MAX,
    ensures
        forall|h: Seq<char>| #[trigger]
            row_index(commits, upto).contains_key(h) ==> row_index(commits, upto)[h] < upto,
    decreases upto,
{
    if upto > 0 {
        lemma_row_index(commits, upto - 1);
        let before = row_index(commits, upto - 1);
        let now = row_index(commits, upto);
        assert forall|h: Seq<char>| #[trigger] now.contains_key(h) implies now[h] < upto by {
            if h != commits[upto - 1].hash@ {
                assert(before.contains_key(h));
                assert(now[h] == before[h]);
            }
        }
    }
}

/// The parents of the commits form a well-formed graph.
pub proof fn lemma_parent_rows_wf(commits: Seq<LayoutInput>)
    requires
        commits.len() <= usize::MAX,
    ensures
        graph_wf(parent_rows_of(commits)),
{
    lemma_row_index(commits, commits.len() as int);
}

/// Whether a row of the result holds the commit and the layout given.
pub open spec fn row_holds(row: GraphRow, commit: LayoutInput, layout: RowLayout) -> bool {
    &&& row.hash@ == commit.hash@
    &&& row.short_hash@ == commit.short_hash@
    &&& row.message@ == commit.message@
    &&& row.author@ == commit.author@
    &&& row.date_timestamp == commit.date_timestamp
    &&& row.refs@ == commit.refs@
    &&& row.parents@ == commit.parents@
    &&& row.node_column == layout.node_column
    &&& row.color_index == layout.color_index
    &&& row.segments@ == layout.segments
    &&& row.arrows@ == layout.arrows
}

/// Splits a parents field into the hashes that it names.
pub fn split_parents(parents: &str) -> (hashes: Vec<String>)
    ensures
        strings_view(hashes@) == parent_hashes(parents@),
{
    let chars = chars_of(parents);
    if chars.len() == 0 {
        let hashes: Vec<String> = Vec::new();
        assert(strings_view(hashes@) =~= Seq::empty());
        return hashes;
    }
    split_chars(&chars, ' ')
}

/// Resolves the parents of every commit to rows.
pub fn resolve_parents(commits: &Vec<LayoutInput>) -> (parent_rows: Vec<Vec<Option<usize>>>)
    ensures
        rows_view(parent_rows@) == parent_rows_of(commits@),
        parent_rows@.len() == commits@.len(),
        graph_wf(rows_view(parent_rows@)),
{
    let n: usize = commits.len();
    let mut index: StringHashMap<usize> = StringHashMap::new();
    let mut i: usize = 0;
    while i < n
        invariant
            i <= n,
            n == commits@.len(),
            index@ == row_index(commits@, i as int),
        decreases n - i,
    {
        index.insert(commits[i].hash.clone(), i);
        i += 1;
    }
    let ghost full = row_index(commits@, n as int);
    let mut parent_rows: Vec<Vec<Option<usize>>> = Vec::new();
    i = 0;
    while i < n
        invariant
            i <= n,
            n == commits@.len(),
            index@ == full,
            full == row_index(commits@, n as int),
            parent_rows@.len() == i,
            forall|r: int|
                0 <= r < i ==> (#[trigger] parent_rows@[r])@ == resolve(
                    full,
                    parent_hashes(commits@[r].parents@),
                ),
        decreases n - i,
    {
        let hashes = split_parents(commits[i].parents.as_str());
        let ghost wanted = parent_hashes(commits@[i as int].parents@);
        let mut rows: Vec<Option<usize>> = Vec::new();
        let mut k: usize = 0;
        while k < hashes.len()
            invariant
                k <= hashes@.len(),
                index@ == full,
                strings_view(hashes@) == wanted,
                rows@ == resolve(full, wanted.take(k as int)),
            decreases hashes@.len() - k,
        {
            assert(strings_view(hashes@)[k as int] == hashes@[k as int]@);
            let found: Option<usize> = match index.get(hashes[k].as_str()) {
                Some(row) => Some(*row),
                None => None,
            };
            rows.push(found);
            assert(rows@ =~= resolve(full, wanted.take(k + 1)));
            k += 1;
        }
        assert(wanted.take(hashes@.len() as int) =~= wanted);
        parent_rows.push(rows);
        i += 1;
    }
    proof {
        assert(rows_view(parent_rows@) =~= parent_rows_of(commits@));
        lemma_parent_rows_wf(commits@);
    }
    parent_rows
}

/// Tells for every commit whether its hash is on the main chain.
pub fn mark_main_chain(commits: &Vec<LayoutInput>, main_chain: &Vec<String>) -> (main: Vec<bool>)
    ensures
        main@ == on_main_chain(commits@, main_chain@),
{
    let mut set: StringHashSet = StringHashSet::new();
    let mut k: usize = 0;
    while k < main_chain.len()
        invariant
            k <= main_chain@.len(),
            set@ == chain_set(main_chain@, k as int),
        decreases main_chain@.len() - k,
    {
        set.insert(main_chain[k].clone());
        k += 1;
    }
    let mut main: Vec<bool> = Vec::new();
    let mut i: usize = 0;
    while i < commits.len()
        invariant
            i <= commits@.len(),
            set@ == chain_set(main_chain@, main_chain@.len() as int),
            main@.len() == i,
            forall|r: int|
                0 <= r < i ==> #[trigger] main@[r] == set@.contains(commits@[r].hash@),
        decreases commits@.len() - i,
    {
        main.push(set.contains(commits[i].hash.as_str()));
        i += 1;
    }
    assert(main@ =~= on_main_chain(commits@, main_chain@));
    main
}

/// Lays out the commit graph.
///
/// The result has one row per commit, in the order given, each holding the
/// commit's own fields unchanged together with its layout: the column of
/// its node, its colour, and the edge pieces and arrows that lie in its
/// row. A commit has colour 0 exactly where its hash is in `main_chain`.
///
/// `show_long_edges` chooses from which span an edge is drawn broken in
/// the middle (1000 rows, else 30), how many rows stay visible at either
/// end (250, else 1), and from which span it gets arrows next to its ends
/// (30, else never).
pub fn compute_graph_layout(
    commits: &Vec<LayoutInput>,
    main_chain: &Vec<String>,
    show_long_edges: bool,
) -> (rows: Vec<GraphRow>)
    requires
        commits@.len() < i32::MAX,
    ensures
        rows@.len() == commits@.len(),
        forall|i: int|
            0 <= i < commits@.len() ==> row_holds(
                #[trigger] rows@[i],
                commits@[i],
                layout_of(
                    parent_rows_of(commits@),
                    on_main_chain(commits@, main_chain@),
                    show_long_edges,
                )[i],
            ),
        forall|i: int|
            0 <= i < commits@.len() ==> ((#[trigger] rows@[i]).color_index == 0
                <==> on_main_chain(commits@, main_chain@)[i]),
        forall|i: int|
            0 <= i < commits@.len() ==> 0 <= (#[trigger] rows@[i]).color_index <= commits@.len(),
{
    let n: usize = commits.len();
    let parent_rows = resolve_parents(commits);
    let main = mark_main_chain(commits, main_chain);
    let ghost g = parent_rows_of(commits@);
    let lanes = assign_layout_indices(n, &parent_rows);
    assert(lanes_in_range(lanes@));
    let colors = assign_colors(&lanes, &main);
    let edges = build_edges(&parent_rows, &lanes, &colors);
    let limits = edge_limits(show_long_edges);
    let orders = sweep_rows(&lanes, &edges, limits);
    let node_columns = node_columns_of(&orders);
    let ghost orders_seq = Seq::new(g.len(), |r: int| row_order(edges@, lanes@, r, limits));
    assert(rows_view(orders@) =~= orders_seq);
    let emitted = emit_edges(&orders, &node_columns, &edges, limits);
    let mut pieces = emitted.0;
    let mut arrows = emitted.1;
    let ghost all_pieces = rows_view(pieces@);
    let ghost all_arrows = rows_view(arrows@);
    let ghost layout = layout_of(g, main@, show_long_edges);
    let mut rows: Vec<GraphRow> = Vec::new();
    let mut i: usize = 0;
    while i < n
        invariant
            i <= n,
            n == commits@.len(),
            n == g.len(),
            colors@ == node_colors(lanes@, main@),
            colors@.len() == n,
            node_columns@.len() == n,
            forall|r: int| 0 <= r < n ==> #[trigger] node_columns@[r] == node_column_at(orders_seq, r),
            pieces@.len() == n,
            arrows@.len() == n,
            forall|r: int| i <= r < n ==> (#[trigger] pieces@[r])@ == all_pieces[r],
            forall|r: int| i <= r < n ==> (#[trigger] arrows@[r])@ == all_arrows[r],
            layout == layout_of(g, main@, show_long_edges),
            (all_pieces, all_arrows) == emitted_upto(orders_seq, edges@, limits, edges@.len() as int),
            edges@ == all_edges(g, lanes@, colors@),
            lanes@ == layout_indices(g),
            limits == limits_for(show_long_edges),
            orders_seq == Seq::new(g.len(), |r: int| row_order(edges@, lanes@, r, limits)),
            rows@.len() == i,
            forall|r: int| 0 <= r < i ==> row_holds(#[trigger] rows@[r], commits@[r], layout[r]),
        decreases n - i,
    {
        let mut segments: Vec<EdgePiece> = Vec::new();
        let mut marks: Vec<ArrowMark> = Vec::new();
        core::mem::swap(&mut segments, &mut pieces[i]);
        core::mem::swap(&mut marks, &mut arrows[i]);
        let c = &commits[i];
        let row = GraphRow {
            hash: c.hash.clone(),
            short_hash: c.short_hash.clone(),
            message: c.message.clone(),
            author: c.author.clone(),
            date_timestamp: c.date_timestamp,
            refs: c.refs.clone(),
            parents: c.parents.clone(),
            node_column: node_columns[i],
            color_index: colors[i],
            segments,
            arrows: marks,
        };
        assert(row_holds(row, commits@[i as int], layout[i as int]));
        rows.push(row);
        i += 1;
    }
    assert forall|r: int| 0 <= r < commits@.len() implies ((#[trigger] rows@[r]).color_index == 0
        <==> on_main_chain(commits@, main_chain@)[r]) && 0 <= rows@[r].color_index
        <= commits@.len() by {
        assert(row_holds(rows@[r], commits@[r], layout[r]));
        assert(rows@[r].color_index == colors@[r]);
    }
    rows
}

} // verus!
