//! Input model: the spatial decomposition of a page into nested
//! groupings of glyph runs.

use vstd::prelude::*;
use crate::glyph::{GlyphRun, sel_gfs, valid_indices};
use crate::text::seq_text_len;

verus! {

/// How a grid node's cells are interpreted.
#[derive(Clone, Copy, Debug, PartialEq, Eq, Structural)]
pub enum NodeTag {
    Singleton,
    Line,
    Paragraph,
    Complex,
}

/// One cell of a table node: its coordinates and the glyph runs it holds.
pub struct TableEntry {
    pub row: usize,
    pub col: usize,
    pub indices: Vec<usize>,
}

/// A node of the spatial decomposition.
pub enum Node {
    /// A leaf group of glyph-run indices with no further structure.
    Final { indices: Vec<usize> },
    /// An ordered list of sub-nodes separated at horizontal gap
    /// coordinates `x` and vertical gap coordinates `y`.
    Grid { x: Vec<i64>, y: Vec<i64>, cells: Vec<Node>, tag: NodeTag },
    /// A two-dimensional arrangement of cells.
    Table { table: Vec<TableEntry> },
}

/// All glyph-run indices transitively reachable from a node, in order.
pub open spec fn node_indices(n: Node) -> Seq<usize>
    decreases n, 0int,
{
    match n {
        Node::Final { indices } => indices@,
        Node::Grid { x, y, cells, tag } => cells_indices(cells@, cells@.len() as int),
        Node::Table { table } => table_indices(table@, table@.len() as int),
    }
}

/// The indices of the first `k` cells, concatenated.
pub open spec fn cells_indices(cs: Seq<Node>, k: int) -> Seq<usize>
    decreases cs, k,
{
    if k <= 0 || k > cs.len() {
        Seq::empty()
    } else {
        cells_indices(cs, k - 1) + node_indices(cs[k - 1])
    }
}

/// The indices of the first `k` table cells, concatenated.
pub open spec fn table_indices(cs: Seq<TableEntry>, k: int) -> Seq<usize>
    decreases k,
{
    if k <= 0 {
        Seq::empty()
    } else {
        table_indices(cs, k - 1) + cs[k - 1].indices@
    }
}

/// Structural invariant of the decomposition: a paragraph-tagged grid
/// carries no horizontal gaps, and gap lists leave room for the cycled
/// anchor arithmetic.
pub open spec fn node_wf(n: Node) -> bool
    decreases n, 0int,
{
    match n {
        Node::Final { indices } => true,
        Node::Grid { x, y, cells, tag } => {
            &&& (tag == NodeTag::Paragraph ==> x@.len() == 0)
            &&& x@.len() < usize::MAX
            &&& cells_wf(cells@, cells@.len() as int)
        },
        Node::Table { table } => true,
    }
}

pub open spec fn cells_wf(cs: Seq<Node>, k: int) -> bool
    decreases cs, k,
{
    if k <= 0 || k > cs.len() {
        true
    } else {
        cells_wf(cs, k - 1) && node_wf(cs[k - 1])
    }
}

/// Every index a node references points into the run array.
pub open spec fn node_valid(n: Node, nruns: int) -> bool
    decreases n, 0int,
{
    match n {
        Node::Final { indices } => valid_indices(indices@, nruns),
        Node::Grid { x, y, cells, tag } => cells_valid(cells@, cells@.len() as int, nruns),
        Node::Table { table } => forall|i: int|
            0 <= i < table@.len() ==> valid_indices(#[trigger] table@[i].indices@, nruns),
    }
}

pub open spec fn cells_valid(cs: Seq<Node>, k: int, nruns: int) -> bool
    decreases cs, k,
{
    if k <= 0 || k > cs.len() {
        true
    } else {
        cells_valid(cs, k - 1, nruns) && node_valid(cs[k - 1], nruns)
    }
}

/// The total glyph text selected by `indices` fits a machine word.
pub open spec fn sel_text_ok(runs: Seq<GlyphRun>, indices: Seq<usize>) -> bool {
    seq_text_len(sel_gfs(runs, indices)) <= usize::MAX
}

/// Every group of runs that one node segments at once has a total glyph
/// text length that fits a machine word.
pub open spec fn node_text_ok(runs: Seq<GlyphRun>, n: Node) -> bool
    decreases n, 0int,
{
    match n {
        Node::Final { indices } => sel_text_ok(runs, indices@),
        Node::Grid { x, y, cells, tag } => {
            &&& sel_text_ok(runs, node_indices(n))
            &&& cells_text_ok(runs, cells@, cells@.len() as int)
        },
        Node::Table { table } => forall|i: int|
            0 <= i < table@.len() ==> sel_text_ok(runs, #[trigger] table@[i].indices@),
    }
}

pub open spec fn cells_text_ok(runs: Seq<GlyphRun>, cs: Seq<Node>, k: int) -> bool
    decreases cs, k,
{
    if k <= 0 || k > cs.len() {
        true
    } else {
        cells_text_ok(runs, cs, k - 1) && node_text_ok(runs, cs[k - 1])
    }
}

/// A valid node's transitive index list is valid.
pub proof fn lemma_node_indices_valid(n: Node, nruns: int)
    requires
        node_valid(n, nruns),
    ensures
        valid_indices(node_indices(n), nruns),
    decreases n, 0int,
{
    match n {
        Node::Final { indices } => {},
        Node::Grid { x, y, cells, tag } => {
            lemma_cells_indices_valid(cells@, cells@.len() as int, nruns);
        },
        Node::Table { table } => {
            lemma_table_indices_valid(table@, table@.len() as int, nruns);
        },
    }
}

pub proof fn lemma_cells_indices_valid(cs: Seq<Node>, k: int, nruns: int)
    requires
        cells_valid(cs, k, nruns),
        k <= cs.len(),
    ensures
        valid_indices(cells_indices(cs, k), nruns),
    decreases cs, k,
{
    if k > 0 {
        lemma_cells_indices_valid(cs, k - 1, nruns);
        lemma_node_indices_valid(cs[k - 1], nruns);
    }
}

pub proof fn lemma_table_indices_valid(cs: Seq<TableEntry>, k: int, nruns: int)
    requires
        forall|i: int| 0 <= i < cs.len() ==> valid_indices(#[trigger] cs[i].indices@, nruns),
        k <= cs.len(),
    ensures
        valid_indices(table_indices(cs, k), nruns),
    decreases k,
{
    if k > 0 {
        lemma_table_indices_valid(cs, k - 1, nruns);
    }
}

/// Append every index transitively reachable from `node`, in order.
pub fn collect_indices(node: &Node, out: &mut Vec<usize>)
    ensures
        final(out)@ == old(out)@ + node_indices(*node),
    decreases *node,
{
    match node {
        Node::Final { indices } => {
            let mut i: usize = 0;
            while i < indices.len()
                invariant
                    0 <= i <= indices@.len(),
                    out@ == old(out)@ + indices@.take(i as int),
                decreases indices@.len() - i,
            {
                out.push(indices[i]);
                proof {
                    assert(indices@.take(i + 1) =~= indices@.take(i as int).push(
                        indices@[i as int],
                    ));
                    assert(out@ =~= old(out)@ + indices@.take(i + 1));
                }
                i = i + 1;
            }
            proof {
                assert(indices@.take(indices@.len() as int) =~= indices@);
                assert(out@ =~= old(out)@ + node_indices(*node));
            }
        },
        Node::Grid { x, y, cells, tag } => {
            let mut k: usize = 0;
            proof {
                assert(out@ =~= old(out)@ + cells_indices(cells@, 0));
            }
            while k < cells.len()
                invariant
                    0 <= k <= cells@.len(),
                    *node == (Node::Grid { x: *x, y: *y, cells: *cells, tag: *tag }),
                    out@ == old(out)@ + cells_indices(cells@, k as int),
                decreases cells@.len() - k,
            {
                proof {
                    assert(decreases_to!(*node => (*node)->cells));
                    assert(decreases_to!(*cells => cells@[k as int]));
                    assert(decreases_to!(*node => cells@[k as int]));
                }
                collect_indices(&cells[k], out);
                proof {
                    assert(out@ =~= old(out)@ + cells_indices(cells@, k + 1));
                }
                k = k + 1;
            }
        },
        Node::Table { table } => {
            let mut k: usize = 0;
            proof {
                assert(out@ =~= old(out)@ + table_indices(table@, 0));
            }
            while k < table.len()
                invariant
                    0 <= k <= table@.len(),
                    out@ == old(out)@ + table_indices(table@, k as int),
                decreases table@.len() - k,
            {
                let cell = &table[k];
                let mut i: usize = 0;
                while i < cell.indices.len()
                    invariant
                        0 <= i <= cell.indices@.len(),
                        *cell == table@[k as int],
                        k < table@.len(),
                        out@ == old(out)@ + table_indices(table@, k as int)
                            + cell.indices@.take(i as int),
                    decreases cell.indices@.len() - i,
                {
                    out.push(cell.indices[i]);
                    proof {
                        assert(cell.indices@.take(i + 1) =~= cell.indices@.take(i as int).push(
                            cell.indices@[i as int],
                        ));
                        assert(out@ =~= old(out)@ + table_indices(table@, k as int)
                            + cell.indices@.take(i + 1));
                    }
                    i = i + 1;
                }
                proof {
                    assert(cell.indices@.take(cell.indices@.len() as int) =~= cell.indices@);
                    assert(out@ =~= old(out)@ + table_indices(table@, k + 1));
                }
                k = k + 1;
            }
        },
    }
}

} // verus!
