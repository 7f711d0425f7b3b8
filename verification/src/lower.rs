//! Lowering the spatial decomposition into a flow: leaf groups become
//! single-line runs, paragraph grids are split at indentation changes,
//! complex grids recurse with cycled anchors, and tables are flattened
//! into cell contents.

use vstd::prelude::*;
use crate::geom::{Rect, RectV};
use crate::glyph::{GF, GlyphRun, sel_gfs, valid_indices, wf_runs};
use crate::util::{iv, spec_avg, avg};
use crate::gap::spec_word_gap;
use crate::text::{concat_text, seq_text_len, spec_out, spec_words, lemma_seq_text_len_nonneg};
use crate::flow::{Flow, Line, LineV, Run, RunV, RunType, CellContent, CellContentV, PlacedCell,
    PlacedCellV, CellTable, CellTableV};
use crate::node::{Node, NodeTag, TableEntry, node_indices, cells_indices, table_indices, node_wf,
    cells_wf, node_valid, cells_valid, node_text_ok, cells_text_ok, sel_text_ok,
    lemma_node_indices_valid, collect_indices};
use crate::classify::{Class, Classifier};

verus! {

/// What lowering one node appends to the flow.
#[verifier::ext_equal]
pub ghost struct BuildOut {
    pub runs: Seq<RunV>,
    pub tables: Seq<CellTableV>,
}

/// The run kind recorded for a classified group.
pub open spec fn run_kind(c: Class) -> RunType {
    if c == Class::Header {
        RunType::Header
    } else {
        RunType::Paragraph
    }
}

/// The union of the bounding boxes of the selected runs, folded in
/// selection order.
pub open spec fn spec_runs_bbox(runs: Seq<GlyphRun>, indices: Seq<usize>) -> RectV
    decreases indices.len(),
{
    if indices.len() == 0 {
        RectV { x: 0, y: 0, w: 0, h: 0 }
    } else if indices.len() == 1 {
        runs[indices[0] as int].rect@
    } else {
        spec_runs_bbox(runs, indices.drop_last()).union(runs[indices.last() as int].rect@)
    }
}

/// Union of the bounding boxes of the selected runs.
pub fn runs_bbox(runs: &Vec<GlyphRun>, indices: &Vec<usize>) -> (r: Rect)
    requires
        wf_runs(runs@),
        valid_indices(indices@, runs@.len() as int),
        indices@.len() > 0,
    ensures
        r@ == spec_runs_bbox(runs@, indices@),
        r@.bounded(),
{
    let mut r = runs[indices[0]].rect;
    proof {
        assert(runs@[indices@[0] as int].wf());
        assert(indices@.take(1) =~= seq![indices@[0]]);
        assert(spec_runs_bbox(runs@, indices@.take(1)) == runs@[indices@[0] as int].rect@);
    }
    let mut i: usize = 1;
    while i < indices.len()
        invariant
            1 <= i <= indices@.len(),
            wf_runs(runs@),
            valid_indices(indices@, runs@.len() as int),
            r@ == spec_runs_bbox(runs@, indices@.take(i as int)),
            r@.bounded(),
        decreases indices@.len() - i,
    {
        let idx = indices[i];
        proof {
            assert(runs@[idx as int].wf());
            assert(indices@.take(i + 1).drop_last() =~= indices@.take(i as int));
            assert(indices@.take(i + 1).last() == indices@[i as int]);
        }
        r = r.union(runs[idx].rect);
        i = i + 1;
    }
    proof {
        assert(indices@.take(indices@.len() as int) =~= indices@);
    }
    r
}

/// Copy of `v[a..b]`.
pub fn subvec(v: &Vec<usize>, a: usize, b: usize) -> (r: Vec<usize>)
    requires
        a <= b <= v@.len(),
    ensures
        r@ == v@.subrange(a as int, b as int),
{
    let mut r: Vec<usize> = Vec::new();
    let mut i: usize = a;
    proof {
        assert(r@ =~= v@.subrange(a as int, a as int));
    }
    while i < b
        invariant
            a <= i <= b <= v@.len(),
            r@ == v@.subrange(a as int, i as int),
        decreases b - i,
    {
        r.push(v[i]);
        proof {
            assert(r@ =~= v@.subrange(a as int, i + 1));
        }
        i = i + 1;
    }
    r
}

/// Concatenating selections concatenates the flattened glyphs.
pub proof fn lemma_sel_gfs_append(runs: Seq<GlyphRun>, i1: Seq<usize>, i2: Seq<usize>)
    ensures
        sel_gfs(runs, i1 + i2) == sel_gfs(runs, i1) + sel_gfs(runs, i2),
    decreases i2.len(),
{
    if i2.len() == 0 {
        assert(i1 + i2 =~= i1);
        assert(sel_gfs(runs, i2) =~= Seq::<GF>::empty());
        assert(sel_gfs(runs, i1) + sel_gfs(runs, i2) =~= sel_gfs(runs, i1));
    } else {
        lemma_sel_gfs_append(runs, i1, i2.drop_last());
        assert((i1 + i2).drop_last() =~= i1 + i2.drop_last());
        assert((i1 + i2).last() == i2.last());
        assert(sel_gfs(runs, i1) + sel_gfs(runs, i2) =~= sel_gfs(runs, i1) + sel_gfs(
            runs,
            i2.drop_last(),
        ) + crate::glyph::run_gfs(runs[i2.last() as int]));
    }
}

/// Text length is additive over glyph concatenation.
pub proof fn lemma_text_len_append(g1: Seq<GF>, g2: Seq<GF>)
    ensures
        seq_text_len(g1 + g2) == seq_text_len(g1) + seq_text_len(g2),
    decreases g2.len(),
{
    if g2.len() == 0 {
        assert(g1 + g2 =~= g1);
    } else {
        lemma_text_len_append(g1, g2.drop_last());
        assert((g1 + g2).drop_last() =~= g1 + g2.drop_last());
        assert((g1 + g2).last() == g2.last());
    }
}

/// A contiguous slice of a selection carries no more text than the whole.
pub proof fn lemma_sel_text_sub(runs: Seq<GlyphRun>, idx: Seq<usize>, a: int, b: int)
    requires
        0 <= a <= b <= idx.len(),
    ensures
        seq_text_len(sel_gfs(runs, idx.subrange(a, b))) <= seq_text_len(sel_gfs(runs, idx)),
{
    let s1 = idx.subrange(0, a);
    let s2 = idx.subrange(a, b);
    let s3 = idx.subrange(b, idx.len() as int);
    assert(idx =~= s1 + s2 + s3);
    lemma_sel_gfs_append(runs, s1 + s2, s3);
    lemma_sel_gfs_append(runs, s1, s2);
    lemma_text_len_append(sel_gfs(runs, s1 + s2), sel_gfs(runs, s3));
    lemma_text_len_append(sel_gfs(runs, s1), sel_gfs(runs, s2));
    lemma_seq_text_len_nonneg(sel_gfs(runs, s1));
    lemma_seq_text_len_nonneg(sel_gfs(runs, s3));
}

/// The folded bounding box contains each contributing run's box. Every
/// line, cell and table box the lowering emits is such a fold of the
/// group's run boxes.
pub proof fn lemma_runs_bbox_contains(runs: Seq<GlyphRun>, indices: Seq<usize>, i: int)
    requires
        0 <= i < indices.len(),
    ensures
        spec_runs_bbox(runs, indices).contains(runs[indices[i] as int].rect@),
    decreases indices.len(),
{
    if indices.len() == 1 {
    } else {
        let prev = spec_runs_bbox(runs, indices.drop_last());
        let last = runs[indices.last() as int].rect@;
        crate::geom::lemma_union_contains(prev, last);
        if i < indices.len() - 1 {
            lemma_runs_bbox_contains(runs, indices.drop_last(), i);
            assert(indices.drop_last()[i] == indices[i]);
        }
    }
}

/// What a leaf group appends: nothing when it selects no runs or merges
/// to no words; else one run holding one line of its words, under the
/// classifier's verdict.
pub open spec fn spec_final<C: Classifier>(cl: C, runs: Seq<GlyphRun>, indices: Seq<usize>) -> Seq<
    RunV,
> {
    if indices.len() == 0 {
        Seq::empty()
    } else {
        let bbox = spec_runs_bbox(runs, indices);
        let words = spec_words(
            Seq::empty(),
            sel_gfs(runs, indices),
            spec_word_gap(runs, indices),
        );
        if words.len() > 0 {
            seq![
                RunV {
                    lines: seq![LineV { words, rect: bbox }],
                    kind: run_kind(cl.class_spec(runs, indices)),
                },
            ]
        } else {
            Seq::empty()
        }
    }
}

/// Emit a leaf group: classify it, merge its words, and append one run
/// holding one line.
fn emit_final<C: Classifier>(flow: &mut Flow, runs: &Vec<GlyphRun>, indices: &Vec<usize>, cl: &C)
    requires
        wf_runs(runs@),
        valid_indices(indices@, runs@.len() as int),
        indices@.len() > 0,
        sel_text_ok(runs@, indices@),
    ensures
        final(flow)@.runs == old(flow)@.runs + spec_final(*cl, runs@, indices@),
        final(flow)@.tables == old(flow)@.tables,
{
    let bbox = runs_bbox(runs, indices);
    let class = cl.classify(runs, indices);
    let mut text = String::new();
    let words = concat_text(&mut text, runs, indices);
    let kind = match class {
        Class::Header => RunType::Header,
        _ => RunType::Paragraph,
    };
    let ghost wlen = words@.len();
    flow.add_line(words, kind, bbox);
    proof {
        if wlen > 0 {
            assert(final(flow)@.runs =~= old(flow)@.runs + spec_final(*cl, runs@, indices@));
        } else {
            assert(spec_final(*cl, runs@, indices@) =~= Seq::<RunV>::empty());
            assert(final(flow)@.runs =~= old(flow)@.runs + spec_final(*cl, runs@, indices@));
        }
    }
}

/// The anchor handed to cell `k` of a complex grid: the caller's anchor
/// followed by the gap coordinates, cycled over the cells.
pub open spec fn cell_anchor(anchor: i64, x: Seq<i64>, k: int) -> i64 {
    let m = k % (x.len() + 1) as int;
    if m == 0 {
        anchor
    } else {
        x[m - 1]
    }
}

/// What lowering a node appends to the flow.
pub open spec fn spec_build<C: Classifier>(cl: C, runs: Seq<GlyphRun>, n: Node, anchor: i64) -> BuildOut
    decreases n, 0int,
{
    match n {
        Node::Final { indices } => BuildOut {
            runs: spec_final(cl, runs, indices@),
            tables: Seq::empty(),
        },
        Node::Grid { x, y, cells, tag } => {
            if tag == NodeTag::Singleton || tag == NodeTag::Line {
                BuildOut { runs: spec_final(cl, runs, node_indices(n)), tables: Seq::empty() }
            } else if tag == NodeTag::Paragraph {
                BuildOut { runs: spec_paragraph(cl, runs, cells@), tables: Seq::empty() }
            } else {
                spec_cells(cl, runs, cells@, anchor, x@, cells@.len() as int)
            }
        },
        Node::Table { table } => BuildOut {
            runs: Seq::empty(),
            tables: spec_table(runs, table@),
        },
    }
}

/// What the first `k` cells of a complex grid append, concatenated.
pub open spec fn spec_cells<C: Classifier>(
    cl: C,
    runs: Seq<GlyphRun>,
    cs: Seq<Node>,
    anchor: i64,
    x: Seq<i64>,
    k: int,
) -> BuildOut
    decreases cs, k,
{
    if k <= 0 || k > cs.len() {
        BuildOut { runs: Seq::empty(), tables: Seq::empty() }
    } else {
        let prev = spec_cells(cl, runs, cs, anchor, x, k - 1);
        let o = spec_build(cl, runs, cs[k - 1], cell_anchor(anchor, x, k - 1));
        BuildOut { runs: prev.runs + o.runs, tables: prev.tables + o.tables }
    }
}

/// The candidate lines of a paragraph's first `k` cells: the collected
/// indices, and for each contributing cell its bounding box and the
/// index count reached after it.
pub open spec fn para_collect(runs: Seq<GlyphRun>, cs: Seq<Node>, k: int) -> (
    Seq<usize>,
    Seq<(RectV, int)>,
)
    decreases k,
{
    if k <= 0 || k > cs.len() {
        (Seq::empty(), Seq::empty())
    } else {
        let prev = para_collect(runs, cs, k - 1);
        let ci = node_indices(cs[k - 1]);
        if ci.len() > 0 {
            ((prev.0 + ci), prev.1.push((spec_runs_bbox(runs, ci), (prev.0 + ci).len() as int)))
        } else {
            prev
        }
    }
}

/// Union of the first `k` candidate lines' boxes.
pub open spec fn lines_bbox(lines: Seq<(RectV, int)>, k: int) -> RectV
    decreases k,
{
    if k <= 0 || k > lines.len() {
        RectV { x: 0, y: 0, w: 0, h: 0 }
    } else if k == 1 {
        lines[0].0
    } else {
        lines_bbox(lines, k - 1).union(lines[k - 1].0)
    }
}

/// Heights of the selected runs' boxes, in selection order.
pub open spec fn sel_heights(runs: Seq<GlyphRun>, idx: Seq<usize>) -> Seq<int> {
    Seq::new(idx.len(), |i: int| runs[idx[i] as int].rect.h as int)
}

/// How many of the first `k` candidate lines start at or right of the margin.
pub open spec fn count_right(lines: Seq<(RectV, int)>, k: int, margin: int) -> int
    decreases k,
{
    if k <= 0 || k > lines.len() {
        0
    } else {
        count_right(lines, k - 1, margin) + if lines[k - 1].0.x >= margin {
            1int
        } else {
            0int
        }
    }
}

/// State of the paragraph emit walk.
#[verifier::ext_equal]
pub ghost struct ParaState {
    pub runs_out: Seq<RunV>,
    pub cur: Seq<LineV>,
    pub text: Seq<char>,
    pub line_start: int,
}

/// Process one candidate line: between lines a line break joins the
/// buffer, and a line on the indent side of the margin closes the open
/// run; the line's words (if any) join the open run. A closed run that
/// holds no lines is dropped, not emitted.
pub open spec fn para_step(
    st: ParaState,
    runs: Seq<GlyphRun>,
    idx: Seq<usize>,
    line: (RectV, int),
    margin: int,
    indent: bool,
    kind: RunType,
) -> ParaState {
    let st1 = if st.line_start != 0 {
        let t = st.text.push('\n');
        if (line.0.x >= margin) == indent {
            ParaState {
                runs_out: if st.cur.len() > 0 {
                    st.runs_out.push(RunV { lines: st.cur, kind })
                } else {
                    st.runs_out
                },
                cur: Seq::empty(),
                text: t,
                line_start: st.line_start,
            }
        } else {
            ParaState { text: t, ..st }
        }
    } else {
        st
    };
    let st2 = if line.1 > st1.line_start {
        let sub = idx.subrange(st1.line_start, line.1);
        let gap = spec_word_gap(runs, sub);
        let ws = spec_words(st1.text, sel_gfs(runs, sub), gap);
        let t2 = spec_out(st1.text, sel_gfs(runs, sub), gap);
        ParaState {
            cur: if ws.len() > 0 {
                st1.cur.push(LineV { words: ws, rect: line.0 })
            } else {
                st1.cur
            },
            text: t2,
            ..st1
        }
    } else {
        st1
    };
    ParaState { line_start: line.1, ..st2 }
}

/// State of the emit walk after the first `n` candidate lines.
pub open spec fn para_scan(
    runs: Seq<GlyphRun>,
    idx: Seq<usize>,
    lines: Seq<(RectV, int)>,
    margin: int,
    indent: bool,
    kind: RunType,
    n: int,
) -> ParaState
    decreases n,
{
    if n <= 0 || n > lines.len() {
        ParaState { runs_out: Seq::empty(), cur: Seq::empty(), text: Seq::empty(), line_start: 0 }
    } else {
        para_step(
            para_scan(runs, idx, lines, margin, indent, kind, n - 1),
            runs,
            idx,
            lines[n - 1],
            margin,
            indent,
            kind,
        )
    }
}

/// What a paragraph grid appends: its candidate lines grouped into
/// runs, split where a line's side of the left margin matches the
/// paragraph's dominant indentation shape. A run with no lines (every
/// candidate line of the group segmented to no words) is dropped.
pub open spec fn spec_paragraph<C: Classifier>(cl: C, runs: Seq<GlyphRun>, cs: Seq<Node>) -> Seq<
    RunV,
> {
    let pc = para_collect(runs, cs, cs.len() as int);
    let idx = pc.0;
    let lines = pc.1;
    if lines.len() == 0 {
        Seq::empty()
    } else {
        let kind = run_kind(cl.class_spec(runs, idx));
        let bbox = lines_bbox(lines, lines.len() as int);
        let lh = spec_avg(sel_heights(runs, idx));
        let margin = bbox.x + lh / 2;
        let right = count_right(lines, lines.len() as int, margin);
        let indent = lines.len() - right > right;
        let st = para_scan(runs, idx, lines, margin, indent, kind, lines.len() as int);
        if st.cur.len() > 0 {
            st.runs_out.push(RunV { lines: st.cur, kind })
        } else {
            st.runs_out
        }
    }
}

/// The text of one table cell: its runs merged, word boundaries dropped.
pub open spec fn cell_text(runs: Seq<GlyphRun>, ci: Seq<usize>) -> Seq<char> {
    spec_out(Seq::empty(), sel_gfs(runs, ci), spec_word_gap(runs, ci))
}

/// The populated cells of the first `k` table entries.
pub open spec fn table_cells_out(runs: Seq<GlyphRun>, cs: Seq<TableEntry>, k: int) -> Seq<
    PlacedCellV,
>
    decreases k,
{
    if k <= 0 || k > cs.len() {
        Seq::empty()
    } else {
        let prev = table_cells_out(runs, cs, k - 1);
        let ci = cs[k - 1].indices@;
        if ci.len() > 0 {
            prev.push(
                PlacedCellV {
                    row: cs[k - 1].row as int,
                    col: cs[k - 1].col as int,
                    content: CellContentV {
                        text: cell_text(runs, ci),
                        rect: spec_runs_bbox(runs, ci),
                    },
                },
            )
        } else {
            prev
        }
    }
}

/// What a table node appends: nothing when no cell selects a run, else
/// one table of the populated cells with the page-space box of all of
/// the table's runs.
pub open spec fn spec_table(runs: Seq<GlyphRun>, cs: Seq<TableEntry>) -> Seq<CellTableV> {
    let all = table_indices(cs, cs.len() as int);
    if all.len() > 0 {
        seq![
            CellTableV {
                rect: spec_runs_bbox(runs, all),
                cells: table_cells_out(runs, cs, cs.len() as int),
            },
        ]
    } else {
        Seq::empty()
    }
}

pub proof fn lemma_cells_wf_at(cs: Seq<Node>, k: int, i: int)
    requires
        cells_wf(cs, k),
        0 <= i < k,
        k <= cs.len(),
    ensures
        node_wf(cs[i]),
    decreases k,
{
    if i < k - 1 {
        lemma_cells_wf_at(cs, k - 1, i);
    }
}

pub proof fn lemma_cells_valid_at(cs: Seq<Node>, k: int, i: int, nruns: int)
    requires
        cells_valid(cs, k, nruns),
        0 <= i < k,
        k <= cs.len(),
    ensures
        node_valid(cs[i], nruns),
    decreases k,
{
    if i < k - 1 {
        lemma_cells_valid_at(cs, k - 1, i, nruns);
    }
}

pub proof fn lemma_cells_text_at(runs: Seq<GlyphRun>, cs: Seq<Node>, k: int, i: int)
    requires
        cells_text_ok(runs, cs, k),
        0 <= i < k,
        k <= cs.len(),
    ensures
        node_text_ok(runs, cs[i]),
    decreases k,
{
    if i < k - 1 {
        lemma_cells_text_at(runs, cs, k - 1, i);
    }
}

/// The paragraph's collected indices are exactly the cells' indices.
pub proof fn lemma_para_idx(runs: Seq<GlyphRun>, cs: Seq<Node>, k: int)
    requires
        0 <= k <= cs.len(),
    ensures
        para_collect(runs, cs, k).0 == cells_indices(cs, k),
    decreases k,
{
    if k > 0 {
        lemma_para_idx(runs, cs, k - 1);
        if node_indices(cs[k - 1]).len() == 0 {
            assert(cells_indices(cs, k) =~= cells_indices(cs, k - 1) + node_indices(cs[k - 1]));
            assert(cells_indices(cs, k) =~= cells_indices(cs, k - 1));
        }
    }
}

/// The candidate line ends are positive, strictly increasing, and end at
/// the collected index count; a line exists exactly when an index does.
pub proof fn lemma_para_lines(runs: Seq<GlyphRun>, cs: Seq<Node>, k: int)
    requires
        0 <= k <= cs.len(),
    ensures
        ({
            let pc = para_collect(runs, cs, k);
            &&& (pc.0.len() > 0 <==> pc.1.len() > 0)
            &&& forall|i: int| 0 <= i < pc.1.len() ==> 0 < (#[trigger] pc.1[i]).1 <= pc.0.len()
            &&& forall|i: int| 0 < i < pc.1.len() ==> pc.1[i - 1].1 < (#[trigger] pc.1[i]).1
            &&& pc.1.len() > 0 ==> pc.1[pc.1.len() - 1].1 == pc.0.len()
        }),
    decreases k,
{
    if k > 0 {
        lemma_para_lines(runs, cs, k - 1);
    }
}

/// Lower `node` into `flow`: append the classified runs and detected
/// tables of the subtree, in reading order.
pub fn build<C: Classifier>(flow: &mut Flow, runs: &Vec<GlyphRun>, node: &Node, x_anchor: i64, cl: &C)
    requires
        wf_runs(runs@),
        node_wf(*node),
        node_valid(*node, runs@.len() as int),
        node_text_ok(runs@, *node),
    ensures
        final(flow)@.runs == old(flow)@.runs + spec_build(*cl, runs@, *node, x_anchor).runs,
        final(flow)@.tables == old(flow)@.tables + spec_build(*cl, runs@, *node, x_anchor).tables,
    decreases *node,
{
    let ghost out = spec_build(*cl, runs@, *node, x_anchor);
    match node {
        Node::Final { indices } => {
            if indices.len() > 0 {
                emit_final(flow, runs, indices, cl);
            }
            proof {
                assert(flow@.runs =~= old(flow)@.runs + out.runs);
                assert(flow@.tables =~= old(flow)@.tables + out.tables);
            }
        },
        Node::Grid { x, y, cells, tag } => {
            match *tag {
                NodeTag::Singleton | NodeTag::Line => {
                    let mut idxv: Vec<usize> = Vec::new();
                    collect_indices(node, &mut idxv);
                    proof {
                        assert(idxv@ =~= node_indices(*node));
                        lemma_node_indices_valid(*node, runs@.len() as int);
                    }
                    if idxv.len() > 0 {
                        emit_final(flow, runs, &idxv, cl);
                    }
                    proof {
                        assert(flow@.runs =~= old(flow)@.runs + out.runs);
                        assert(flow@.tables =~= old(flow)@.tables + out.tables);
                    }
                },
                NodeTag::Paragraph => {
                    build_paragraph(flow, runs, node, cl);
                },
                NodeTag::Complex => {
                    let mut k: usize = 0;
                    while k < cells.len()
                        invariant
                            *node == (Node::Grid { x: *x, y: *y, cells: *cells, tag: *tag }),
                            *tag == NodeTag::Complex,
                            0 <= k <= cells@.len(),
                            wf_runs(runs@),
                            node_wf(*node),
                            node_valid(*node, runs@.len() as int),
                            node_text_ok(runs@, *node),
                            flow@.runs == old(flow)@.runs + spec_cells(
                                *cl,
                                runs@,
                                cells@,
                                x_anchor,
                                x@,
                                k as int,
                            ).runs,
                            flow@.tables == old(flow)@.tables + spec_cells(
                                *cl,
                                runs@,
                                cells@,
                                x_anchor,
                                x@,
                                k as int,
                            ).tables,
                        decreases cells@.len() - k,
                    {
                        let ghost prevout = spec_cells(*cl, runs@, cells@, x_anchor, x@, k as int);
                        let m = k % (x.len() + 1);
                        let a = if m == 0 {
                            x_anchor
                        } else {
                            x[m - 1]
                        };
                        proof {
                            lemma_cells_wf_at(cells@, cells@.len() as int, k as int);
                            lemma_cells_valid_at(
                                cells@,
                                cells@.len() as int,
                                k as int,
                                runs@.len() as int,
                            );
                            lemma_cells_text_at(runs@, cells@, cells@.len() as int, k as int);
                            assert(a == cell_anchor(x_anchor, x@, k as int));
                            assert(decreases_to!(*node => (*node)->cells));
                            assert(decreases_to!(*cells => cells@[k as int]));
                            assert(decreases_to!(*node => cells@[k as int]));
                        }
                        build(flow, runs, &cells[k], a, cl);
                        proof {
                            let o = spec_build(
                                *cl,
                                runs@,
                                cells@[k as int],
                                cell_anchor(x_anchor, x@, k as int),
                            );
                            assert(flow@.runs =~= old(flow)@.runs + (prevout.runs + o.runs));
                            assert(flow@.tables =~= old(flow)@.tables + (prevout.tables
                                + o.tables));
                        }
                        k = k + 1;
                    }
                    proof {
                        assert(flow@.runs =~= old(flow)@.runs + out.runs);
                        assert(flow@.tables =~= old(flow)@.tables + out.tables);
                    }
                },
            }
        },
        Node::Table { table } => {
            let mut all: Vec<usize> = Vec::new();
            collect_indices(node, &mut all);
            proof {
                assert(all@ =~= node_indices(*node));
                lemma_node_indices_valid(*node, runs@.len() as int);
            }
            if all.len() > 0 {
                let bbox = runs_bbox(runs, &all);
                let mut cells_out: Vec<PlacedCell> = Vec::new();
                let mut k: usize = 0;
                proof {
                    assert(cells_out@.map_values(|c: PlacedCell| c@) =~= table_cells_out(
                        runs@,
                        table@,
                        0,
                    ));
                }
                while k < table.len()
                    invariant
                        *node == (Node::Table { table: *table }),
                        0 <= k <= table@.len(),
                        wf_runs(runs@),
                        node_valid(*node, runs@.len() as int),
                        node_text_ok(runs@, *node),
                        cells_out@.map_values(|c: PlacedCell| c@) == table_cells_out(
                            runs@,
                            table@,
                            k as int,
                        ),
                    decreases table@.len() - k,
                {
                    let cell = &table[k];
                    if cell.indices.len() > 0 {
                        proof {
                            lemma_table_entry_props(runs@, *node, runs@.len() as int, k as int);
                            assert((*node)->table@ == table@);
                            assert(valid_indices(table@[k as int].indices@, runs@.len() as int));
                            assert(sel_text_ok(runs@, table@[k as int].indices@));
                        }
                        let cbox = runs_bbox(runs, &cell.indices);
                        let mut txt = String::new();
                        let _words = concat_text(&mut txt, runs, &cell.indices);
                        let ghost prev = cells_out@;
                        let pc = PlacedCell {
                            row: cell.row,
                            col: cell.col,
                            content: CellContent { text: txt, rect: cbox },
                        };
                        cells_out.push(pc);
                        proof {
                            assert(cells_out@.map_values(|c: PlacedCell| c@) =~= prev.map_values(
                                |c: PlacedCell| c@,
                            ).push(pc@));
                        }
                    }
                    k = k + 1;
                }
                let t = CellTable { rect: bbox, cells: cells_out };
                crate::flow::Flow::add_table(flow, t);
                proof {
                    assert(flow@.tables =~= old(flow)@.tables + out.tables);
                    assert(flow@.runs =~= old(flow)@.runs + out.runs);
                }
            } else {
                proof {
                    assert(node_indices(*node) == table_indices(table@, table@.len() as int));
                    assert(flow@.tables =~= old(flow)@.tables + out.tables);
                    assert(flow@.runs =~= old(flow)@.runs + out.runs);
                }
            }
        },
    }
}


/// Each entry of a valid, budgeted table node is itself valid and budgeted.
pub proof fn lemma_table_entry_props(runs: Seq<GlyphRun>, n: Node, nruns: int, k: int)
    requires
        node_valid(n, nruns),
        node_text_ok(runs, n),
        n matches Node::Table { .. },
        0 <= k < n->table@.len(),
    ensures
        valid_indices(n->table@[k].indices@, nruns),
        sel_text_ok(runs, n->table@[k].indices@),
{
}


/// Determinism: any two flows that satisfy `build`'s contract for the
/// same starting flow and the same inputs are equal.
pub proof fn lemma_build_deterministic<C: Classifier>(
    cl: C,
    runs: Seq<GlyphRun>,
    node: Node,
    anchor: i64,
    before: crate::flow::FlowV,
    f1: crate::flow::FlowV,
    f2: crate::flow::FlowV,
)
    requires
        f1.runs == before.runs + spec_build(cl, runs, node, anchor).runs,
        f1.tables == before.tables + spec_build(cl, runs, node, anchor).tables,
        f2.runs == before.runs + spec_build(cl, runs, node, anchor).runs,
        f2.tables == before.tables + spec_build(cl, runs, node, anchor).tables,
    ensures
        f1.runs == f2.runs,
        f1.tables == f2.tables,
{
}

/// A final node with an empty index set contributes nothing to the flow.
pub proof fn lemma_empty_final_silent<C: Classifier>(
    cl: C,
    runs: Seq<GlyphRun>,
    node: Node,
    anchor: i64,
)
    requires
        node matches Node::Final { .. },
        node->indices@.len() == 0,
    ensures
        spec_build(cl, runs, node, anchor).runs == Seq::<RunV>::empty(),
        spec_build(cl, runs, node, anchor).tables == Seq::<CellTableV>::empty(),
{
}

/// Mathematical view of a candidate-line vector.
pub open spec fn lines_view(s: Seq<(Rect, usize)>) -> Seq<(RectV, int)> {
    s.map_values(|p: (Rect, usize)| (p.0@, p.1 as int))
}

/// Gather a paragraph's candidate lines: collect each cell's indices,
/// and record each contributing cell's box and end position.
fn para_collect_exec(
    runs: &Vec<GlyphRun>,
    cells: &Vec<Node>,
    indices: &mut Vec<usize>,
    lines: &mut Vec<(Rect, usize)>,
)
    requires
        wf_runs(runs@),
        cells_valid(cells@, cells@.len() as int, runs@.len() as int),
        old(indices)@.len() == 0,
        old(lines)@.len() == 0,
    ensures
        final(indices)@ == para_collect(runs@, cells@, cells@.len() as int).0,
        lines_view(final(lines)@) == para_collect(runs@, cells@, cells@.len() as int).1,
        forall|i: int| 0 <= i < final(lines)@.len() ==> (#[trigger] final(lines)@[i]).0@.bounded(),
{
    let mut k: usize = 0;
    proof {
        assert(indices@ =~= para_collect(runs@, cells@, 0).0);
        assert(lines_view(lines@) =~= para_collect(runs@, cells@, 0).1);
    }
    while k < cells.len()
        invariant
            0 <= k <= cells@.len(),
            wf_runs(runs@),
            cells_valid(cells@, cells@.len() as int, runs@.len() as int),
            indices@ == para_collect(runs@, cells@, k as int).0,
            lines_view(lines@) == para_collect(runs@, cells@, k as int).1,
            forall|i: int| 0 <= i < lines@.len() ==> (#[trigger] lines@[i]).0@.bounded(),
        decreases cells@.len() - k,
    {
        let start = indices.len();
        let ghost previ = indices@;
        let ghost prevl = lines@;
        collect_indices(&cells[k], indices);
        let ghost ci = node_indices(cells@[k as int]);
        if indices.len() > start {
            let civ = subvec(indices, start, indices.len());
            proof {
                assert(civ@ =~= ci);
                lemma_cells_valid_at(cells@, cells@.len() as int, k as int, runs@.len() as int);
                lemma_node_indices_valid(cells@[k as int], runs@.len() as int);
            }
            let bbox = runs_bbox(runs, &civ);
            lines.push((bbox, indices.len()));
            proof {
                assert(lines_view(lines@) =~= lines_view(prevl).push(
                    (bbox@, indices@.len() as int),
                ));
                assert(indices@ =~= para_collect(runs@, cells@, k + 1).0);
                assert(lines_view(lines@) =~= para_collect(runs@, cells@, k + 1).1);
            }
        } else {
            proof {
                assert(ci.len() == 0);
                assert(indices@ =~= previ);
                assert(indices@ =~= para_collect(runs@, cells@, k + 1).0);
            }
        }
        k = k + 1;
    }
}

/// The left margin of a paragraph: the left edge of all its candidate
/// lines' boxes plus half the average height of its runs.
fn para_margin(runs: &Vec<GlyphRun>, indices: &Vec<usize>, lines: &Vec<(Rect, usize)>) -> (m: i64)
    requires
        wf_runs(runs@),
        valid_indices(indices@, runs@.len() as int),
        indices@.len() > 0,
        lines@.len() > 0,
        forall|i: int| 0 <= i < lines@.len() ==> (#[trigger] lines@[i]).0@.bounded(),
    ensures
        m as int == lines_bbox(lines_view(lines@), lines@.len() as int).x + spec_avg(
            sel_heights(runs@, indices@),
        ) / 2,
{
    let ghost linesv = lines_view(lines@);
    let mut bbox = lines[0].0;
    proof {
        assert(lines@[0].0@ == linesv[0].0);
        assert(lines_bbox(linesv, 1) == linesv[0].0);
    }
    let mut i: usize = 1;
    while i < lines.len()
        invariant
            1 <= i <= lines@.len(),
            linesv == lines_view(lines@),
            forall|j: int| 0 <= j < lines@.len() ==> (#[trigger] lines@[j]).0@.bounded(),
            bbox@ == lines_bbox(linesv, i as int),
            bbox@.bounded(),
        decreases lines@.len() - i,
    {
        proof {
            assert(lines@[i as int].0@ == linesv[i as int].0);
        }
        bbox = bbox.union(lines[i].0);
        i = i + 1;
    }
    let mut hs: Vec<i64> = Vec::new();
    let mut j: usize = 0;
    proof {
        assert(iv(hs@) =~= sel_heights(runs@, indices@).take(0));
    }
    while j < indices.len()
        invariant
            0 <= j <= indices@.len(),
            wf_runs(runs@),
            valid_indices(indices@, runs@.len() as int),
            iv(hs@) == sel_heights(runs@, indices@).take(j as int),
            forall|m2: int| 0 <= m2 < hs@.len() ==> 0 <= #[trigger] hs@[m2] <= 2
                * crate::geom::COORD_BOUND,
        decreases indices@.len() - j,
    {
        let idx = indices[j];
        proof {
            assert(runs@[idx as int].wf());
            let sh = sel_heights(runs@, indices@);
            assert(sh.take(j + 1) =~= sh.take(j as int).push(sh[j as int]));
        }
        hs.push(runs[idx].rect.h);
        proof {
            assert(iv(hs@) =~= sel_heights(runs@, indices@).take(j + 1));
        }
        j = j + 1;
    }
    proof {
        assert(sel_heights(runs@, indices@).take(indices@.len() as int) =~= sel_heights(
            runs@,
            indices@,
        ));
    }
    let lh = match avg(&hs) {
        Option::Some(a) => a,
        Option::None => 0,  // unreachable: the group is non-empty
    };
    bbox.x + lh / 2
}

/// How many candidate lines start at or right of the margin.
fn count_right_exec(lines: &Vec<(Rect, usize)>, margin: i64) -> (right: usize)
    ensures
        right as int == count_right(lines_view(lines@), lines@.len() as int, margin as int),
        right <= lines@.len(),
{
    let ghost linesv = lines_view(lines@);
    let mut right: usize = 0;
    let mut c: usize = 0;
    while c < lines.len()
        invariant
            0 <= c <= lines@.len(),
            linesv == lines_view(lines@),
            right as int == count_right(linesv, c as int, margin as int),
            right <= c,
        decreases lines@.len() - c,
    {
        proof {
            assert(lines@[c as int].0@ == linesv[c as int].0);
        }
        if lines[c].0.x >= margin {
            right = right + 1;
        }
        c = c + 1;
    }
    right
}

/// Lower a paragraph grid: group its candidate lines into runs, split
/// where a line's side of the left margin matches the dominant shape.
#[verifier::rlimit(100)]
fn build_paragraph<C: Classifier>(flow: &mut Flow, runs: &Vec<GlyphRun>, node: &Node, cl: &C)
    requires
        wf_runs(runs@),
        node_wf(*node),
        node_valid(*node, runs@.len() as int),
        node_text_ok(runs@, *node),
        *node matches Node::Grid { tag: NodeTag::Paragraph, .. },
    ensures
        final(flow)@.runs == old(flow)@.runs + spec_paragraph(*cl, runs@, (*node)->cells@),
        final(flow)@.tables == old(flow)@.tables,
{
    match node {
        Node::Grid { x, y, cells, tag } => {
            let mut indices: Vec<usize> = Vec::new();
            let mut lines: Vec<(Rect, usize)> = Vec::new();
            para_collect_exec(runs, cells, &mut indices, &mut lines);
            let ghost linesv = lines_view(lines@);
            proof {
                lemma_para_idx(runs@, cells@, cells@.len() as int);
                lemma_para_lines(runs@, cells@, cells@.len() as int);
                lemma_node_indices_valid(*node, runs@.len() as int);
                assert(node_indices(*node) == cells_indices(cells@, cells@.len() as int));
            }
            if indices.len() > 0 {
                let class = cl.classify(runs, &indices);
                let kind = match class {
                    Class::Header => RunType::Header,
                    _ => RunType::Paragraph,
                };
                proof {
                    assert(kind == run_kind(cl.class_spec(runs@, indices@)));
                    assert(linesv.len() > 0);
                }
                let margin = para_margin(runs, &indices, &lines);
                let right = count_right_exec(&lines, margin);
                let indent = lines.len() - right > right;
                // Walk the candidate lines, splitting runs at the margin.
                let mut text = String::new();
                let mut cur: Vec<Line> = Vec::new();
                let mut line_start: usize = 0;
                let mut e: usize = 0;
                proof {
                    assert(cur@.map_values(|l: Line| l@) =~= Seq::<LineV>::empty());
                }
                while e < lines.len()
                    invariant
                        0 <= e <= lines@.len(),
                        wf_runs(runs@),
                        valid_indices(indices@, runs@.len() as int),
                        sel_text_ok(runs@, indices@),
                        linesv == lines_view(lines@),
                        forall|i2: int| 0 <= i2 < linesv.len() ==> 0 < (#[trigger] linesv[i2]).1
                            <= indices@.len(),
                        forall|i2: int| 0 < i2 < linesv.len() ==> linesv[i2 - 1].1 < (
                        #[trigger] linesv[i2]).1,
                        kind == run_kind(cl.class_spec(runs@, indices@)),
                        ({
                            let st = para_scan(
                                runs@,
                                indices@,
                                linesv,
                                margin as int,
                                indent,
                                kind,
                                e as int,
                            );
                            &&& flow@.runs == old(flow)@.runs + st.runs_out
                            &&& flow@.tables == old(flow)@.tables
                            &&& cur@.map_values(|l: Line| l@) == st.cur
                            &&& text@ == st.text
                            &&& line_start as int == st.line_start
                            &&& (e > 0 ==> st.line_start == linesv[e - 1].1)
                            &&& (e == 0 ==> st.line_start == 0)
                        }),
                    decreases lines@.len() - e,
                {
                    let ghost st = para_scan(
                        runs@,
                        indices@,
                        linesv,
                        margin as int,
                        indent,
                        kind,
                        e as int,
                    );
                    let (lb, lend) = lines[e];
                    proof {
                        assert((lb@, lend as int) == linesv[e as int]);
                    }
                    if line_start != 0 {
                        let ghost t0 = text@;
                        text.append("\n");
                        proof {
                            reveal_strlit("\n");
                            assert(text@ =~= t0.push('\n'));
                        }
                        if (lb.x >= margin) == indent {
                            if cur.len() > 0 {
                                let ghost prevruns = flow.runs@;
                                let r = Run { lines: cur, kind };
                                flow.runs.push(r);
                                cur = Vec::new();
                                proof {
                                    assert(flow@.runs =~= prevruns.map_values(
                                        |q: Run| q@,
                                    ).push(r@));
                                }
                            }
                            proof {
                                assert(cur@.map_values(|l: Line| l@) =~= Seq::<LineV>::empty());
                            }
                        }
                    }
                    if lend > line_start {
                        let sub = subvec(&indices, line_start, lend);
                        proof {
                            lemma_sel_text_sub(runs@, indices@, line_start as int, lend as int);
                        }
                        let words = concat_text(&mut text, runs, &sub);
                        if words.len() > 0 {
                            let ghost prevc = cur@;
                            let l = Line { words, rect: lb };
                            cur.push(l);
                            proof {
                                assert(cur@.map_values(|q: Line| q@) =~= prevc.map_values(
                                    |q: Line| q@,
                                ).push(l@));
                            }
                        }
                    }
                    line_start = lend;
                    proof {
                        let stn = para_scan(
                            runs@,
                            indices@,
                            linesv,
                            margin as int,
                            indent,
                            kind,
                            e + 1,
                        );
                        assert(stn == para_step(
                            st,
                            runs@,
                            indices@,
                            linesv[e as int],
                            margin as int,
                            indent,
                            kind,
                        ));
                        assert(flow@.runs =~= old(flow)@.runs + stn.runs_out);
                        assert(cur@.map_values(|l: Line| l@) =~= stn.cur);
                        assert(text@ =~= stn.text);
                    }
                    e = e + 1;
                }
                if cur.len() > 0 {
                    let r = Run { lines: cur, kind };
                    let ghost prevruns = flow.runs@;
                    flow.runs.push(r);
                    proof {
                        assert(flow@.runs =~= prevruns.map_values(|q: Run| q@).push(r@));
                    }
                }
                proof {
                    assert(flow@.runs =~= old(flow)@.runs + spec_paragraph(*cl, runs@, cells@));
                    assert(flow@.tables =~= old(flow)@.tables);
                }
            } else {
                proof {
                    assert(linesv.len() == 0);
                    assert(spec_paragraph(*cl, runs@, cells@) =~= Seq::<RunV>::empty());
                    assert(flow@.runs =~= old(flow)@.runs + spec_paragraph(*cl, runs@, cells@));
                }
            }
        },
        _ => {
            proof {
                assert(false);
            }
        },
    }
}


/// Lower one page: the glyph-run array, the root node and the starting
/// horizontal anchor yield the page's flow.
pub fn build_flow<C: Classifier>(runs: &Vec<GlyphRun>, node: &Node, x_anchor: i64, cl: &C) -> (f:
    Flow)
    requires
        wf_runs(runs@),
        node_wf(*node),
        node_valid(*node, runs@.len() as int),
        node_text_ok(runs@, *node),
    ensures
        f@.runs == spec_build(*cl, runs@, *node, x_anchor).runs,
        f@.tables == spec_build(*cl, runs@, *node, x_anchor).tables,
{
    let mut f = Flow::new();
    build(&mut f, runs, node, x_anchor, cl);
    proof {
        assert(f@.runs =~= spec_build(*cl, runs@, *node, x_anchor).runs);
        assert(f@.tables =~= spec_build(*cl, runs@, *node, x_anchor).tables);
    }
    f
}

} // verus!
