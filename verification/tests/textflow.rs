use textflow::classify::FixedClassifier;
use textflow::flow::{Flow, RunType};
use textflow::geom::Rect;
use textflow::glyph::{Glyph, GlyphRun};
use textflow::lower::build;
use textflow::node::{Node, NodeTag, TableEntry};
use textflow::text::concat_text;

/// Scale a text-space quantity to the library's fixed-point grid.
fn sc(v: f64) -> i64 {
    (v * 100.0) as i64
}

/// A run of single-character glyphs at the given gap-space extents, with
/// page-space positions equal to the gap-space ones.
fn simple_run(text: &str, ext: &[(i64, i64)], rect: Rect, font_size: i64) -> GlyphRun {
    let mut glyphs = Vec::new();
    for (i, ch) in text.chars().enumerate() {
        let (start, end) = ext[i];
        glyphs.push(Glyph {
            text: ch.to_string(),
            pos: start,
            width: end - start,
            start,
            end,
        });
    }
    GlyphRun { glyphs, rect, font_size }
}

#[test]
fn test_concat_text() {
    let text = "hello world";
    let positions = [
        0.0, 7.224001, 14.448002, 21.672003, 28.896004, 36.120003, 43.344, 50.568, 57.792,
        65.016, 72.24,
    ];
    let width = 7.224001;
    let x_off = 56.8;
    let mut glyphs = Vec::new();
    for (k, &p) in positions.iter().enumerate() {
        let start = sc(p + x_off);
        let end = sc(p + width + x_off);
        glyphs.push(Glyph {
            text: text[k..k + 1].to_string(),
            pos: start,
            width: end - start,
            start,
            end,
        });
    }
    let run = GlyphRun {
        glyphs,
        rect: Rect { x: sc(56.8), y: sc(55.85077), w: sc(79.464), h: sc(12.0) },
        font_size: sc(12.0),
    };
    let runs = vec![run];
    let mut output = String::new();
    let words = concat_text(&mut output, &runs, &vec![0]);

    // Assert the concatenated text
    assert_eq!(output, "hello world");

    // Assert the words
    // Expect two words: "hello" and "world"
    assert_eq!(words.len(), 2);
    assert_eq!(words[0].text, "hello");
    assert_eq!(words[1].text, "world");
}

#[test]
fn test_gap_below_threshold_one_word() {
    let rect = Rect { x: 0, y: 0, w: 400, h: 1000 };
    let run = simple_run("abcd", &[(0, 100), (100, 200), (200, 300), (300, 400)], rect, 1000);
    let runs = vec![run];
    let mut out = String::new();
    let words = concat_text(&mut out, &runs, &vec![0]);
    assert_eq!(words.len(), 1);
    assert_eq!(words[0].text, "abcd");
    assert_eq!(out, "abcd");
}

#[test]
fn test_gap_beyond_threshold_splits_once() {
    // Same input as above except one inter-character gap enlarged beyond
    // the adaptive threshold: exactly one extra boundary appears there.
    let rect = Rect { x: 0, y: 0, w: 1200, h: 1000 };
    let run = simple_run("abcd", &[(0, 100), (100, 200), (1000, 1100), (1100, 1200)], rect, 1000);
    let runs = vec![run];
    let mut out = String::new();
    let words = concat_text(&mut out, &runs, &vec![0]);
    assert_eq!(words.len(), 2);
    assert_eq!(words[0].text, "ab");
    assert_eq!(words[1].text, "cd");
    assert_eq!(out, "abcd");
}

#[test]
fn test_all_whitespace_input() {
    let rect = Rect { x: 0, y: 0, w: 200, h: 1000 };
    let run = simple_run("  ", &[(0, 100), (100, 200)], rect, 1000);
    let runs = vec![run];
    let mut out = String::new();
    let words = concat_text(&mut out, &runs, &vec![0]);
    assert_eq!(words.len(), 0);
    assert_eq!(out, "");
}

#[test]
fn test_rect_union_contains() {
    let a = Rect { x: 0, y: 0, w: 10, h: 10 };
    let b = Rect { x: 5, y: 5, w: 20, h: 20 };
    let c = Rect { x: -5, y: 2, w: 1, h: 50 };
    let u = a.union(b);
    assert_eq!(u, Rect { x: 0, y: 0, w: 25, h: 25 });
    assert!(u.contains(a));
    assert!(u.contains(b));
    assert_eq!(a.union(b), b.union(a));
    assert_eq!(a.union(b).union(c), a.union(b.union(c)));
}

fn para_runs() -> Vec<GlyphRun> {
    vec![
        simple_run("a", &[(0, 500)], Rect { x: 0, y: 0, w: 500, h: 1000 }, 1000),
        simple_run("b", &[(2000, 2500)], Rect { x: 2000, y: 1000, w: 500, h: 1000 }, 1000),
        simple_run("c", &[(0, 500)], Rect { x: 0, y: 2000, w: 500, h: 1000 }, 1000),
    ]
}

fn para_node() -> Node {
    Node::Grid {
        x: vec![],
        y: vec![],
        cells: vec![
            Node::Final { indices: vec![0] },
            Node::Final { indices: vec![1] },
            Node::Final { indices: vec![2] },
        ],
        tag: NodeTag::Paragraph,
    }
}

#[test]
fn test_paragraph_split() {
    // Lines 1 and 3 start at x = 0, line 2 at x = 2000; average line
    // height 1000 puts the margin at 500, so line 2 is "right", lines 1
    // and 3 "left": the dominant shape is indented and the walk breaks
    // exactly once, before line 2.
    let runs = para_runs();
    let mut flow = Flow::new();
    build(&mut flow, &runs, &para_node(), 0, &FixedClassifier { header: false });
    assert_eq!(flow.runs.len(), 2);
    assert_eq!(flow.runs[0].lines.len(), 1);
    assert_eq!(flow.runs[1].lines.len(), 2);
    assert_eq!(flow.runs[0].lines[0].words[0].text, "a");
    assert_eq!(flow.runs[1].lines[0].words[0].text, "b");
    assert_eq!(flow.runs[1].lines[1].words[0].text, "c");
    assert!(matches!(flow.runs[0].kind, RunType::Paragraph));
    assert!(matches!(flow.runs[1].kind, RunType::Paragraph));
}

#[test]
fn test_flow_deterministic() {
    let runs = para_runs();
    let mut f1 = Flow::new();
    let mut f2 = Flow::new();
    build(&mut f1, &runs, &para_node(), 0, &FixedClassifier { header: false });
    build(&mut f2, &runs, &para_node(), 0, &FixedClassifier { header: false });
    assert_eq!(f1.runs.len(), f2.runs.len());
    assert_eq!(f1.tables.len(), f2.tables.len());
    for (r1, r2) in f1.runs.iter().zip(f2.runs.iter()) {
        assert_eq!(r1.lines.len(), r2.lines.len());
        for (l1, l2) in r1.lines.iter().zip(r2.lines.iter()) {
            assert_eq!(l1.rect, l2.rect);
            assert_eq!(l1.words.len(), l2.words.len());
            for (w1, w2) in l1.words.iter().zip(l2.words.iter()) {
                assert_eq!(w1.text, w2.text);
                assert_eq!(w1.rect, w2.rect);
            }
        }
    }
}

#[test]
fn test_table_single_cell() {
    let runs = vec![simple_run("a", &[(0, 500)], Rect { x: 0, y: 0, w: 500, h: 1000 }, 1000)];
    let node = Node::Table {
        table: vec![
            TableEntry { row: 0, col: 0, indices: vec![0] },
            TableEntry { row: 0, col: 1, indices: vec![] },
            TableEntry { row: 1, col: 0, indices: vec![] },
            TableEntry { row: 1, col: 1, indices: vec![] },
        ],
    };
    let mut flow = Flow::new();
    build(&mut flow, &runs, &node, 0, &FixedClassifier { header: false });
    assert_eq!(flow.runs.len(), 0);
    assert_eq!(flow.tables.len(), 1);
    let t = &flow.tables[0];
    assert_eq!(t.cells.len(), 1);
    assert_eq!(t.cells[0].row, 0);
    assert_eq!(t.cells[0].col, 0);
    assert_eq!(t.cells[0].content.text, "a");
    assert_eq!(t.cells[0].content.rect, runs[0].rect);
    assert_eq!(t.rect, runs[0].rect);
}

#[test]
fn test_table_all_empty() {
    let runs = vec![simple_run("a", &[(0, 500)], Rect { x: 0, y: 0, w: 500, h: 1000 }, 1000)];
    let node = Node::Table {
        table: vec![
            TableEntry { row: 0, col: 0, indices: vec![] },
            TableEntry { row: 0, col: 1, indices: vec![] },
        ],
    };
    let mut flow = Flow::new();
    build(&mut flow, &runs, &node, 0, &FixedClassifier { header: false });
    assert_eq!(flow.tables.len(), 0);
    assert_eq!(flow.runs.len(), 0);
}

#[test]
fn test_empty_final_contributes_nothing() {
    let runs = vec![simple_run("a", &[(0, 500)], Rect { x: 0, y: 0, w: 500, h: 1000 }, 1000)];
    let node = Node::Final { indices: vec![] };
    let mut flow = Flow::new();
    build(&mut flow, &runs, &node, 0, &FixedClassifier { header: false });
    assert_eq!(flow.runs.len(), 0);
    assert_eq!(flow.tables.len(), 0);
}

#[test]
fn test_final_header_kind() {
    let runs = vec![simple_run("a", &[(0, 500)], Rect { x: 0, y: 0, w: 500, h: 1000 }, 1000)];
    let node = Node::Final { indices: vec![0] };
    let mut flow = Flow::new();
    build(&mut flow, &runs, &node, 0, &FixedClassifier { header: true });
    assert_eq!(flow.runs.len(), 1);
    assert!(matches!(flow.runs[0].kind, RunType::Header));
    assert_eq!(flow.runs[0].lines[0].rect, runs[0].rect);
}

#[test]
fn test_line_grid_merges_cells() {
    let runs = vec![
        simple_run("a", &[(0, 500)], Rect { x: 0, y: 0, w: 500, h: 1000 }, 1000),
        simple_run("b", &[(10000, 10500)], Rect { x: 10000, y: 0, w: 500, h: 1000 }, 1000),
    ];
    let node = Node::Grid {
        x: vec![],
        y: vec![],
        cells: vec![Node::Final { indices: vec![0] }, Node::Final { indices: vec![1] }],
        tag: NodeTag::Line,
    };
    let mut flow = Flow::new();
    build(&mut flow, &runs, &node, 0, &FixedClassifier { header: false });
    assert_eq!(flow.runs.len(), 1);
    assert_eq!(flow.runs[0].lines.len(), 1);
    let line = &flow.runs[0].lines[0];
    assert_eq!(line.words.len(), 2);
    assert_eq!(line.words[0].text, "a");
    assert_eq!(line.words[1].text, "b");
    // One line covering both cells' runs.
    assert_eq!(line.rect, Rect { x: 0, y: 0, w: 10500, h: 1000 });
}

#[test]
fn test_complex_grid_recurses_in_order() {
    let runs = vec![
        simple_run("a", &[(0, 500)], Rect { x: 0, y: 0, w: 500, h: 1000 }, 1000),
        simple_run("b", &[(0, 500)], Rect { x: 0, y: 2000, w: 500, h: 1000 }, 1000),
    ];
    let node = Node::Grid {
        x: vec![700],
        y: vec![],
        cells: vec![Node::Final { indices: vec![0] }, Node::Final { indices: vec![1] }],
        tag: NodeTag::Complex,
    };
    let mut flow = Flow::new();
    build(&mut flow, &runs, &node, 0, &FixedClassifier { header: false });
    assert_eq!(flow.runs.len(), 2);
    assert_eq!(flow.runs[0].lines[0].words[0].text, "a");
    assert_eq!(flow.runs[1].lines[0].words[0].text, "b");
}

#[test]
fn test_single_glyph_no_pairs() {
    // No qualifying glyph pair: the threshold is zero, one word results.
    let runs = vec![simple_run("a", &[(0, 500)], Rect { x: 0, y: 0, w: 500, h: 1000 }, 1000)];
    let mut out = String::new();
    let words = concat_text(&mut out, &runs, &vec![0]);
    assert_eq!(words.len(), 1);
    assert_eq!(words[0].text, "a");
    assert_eq!(words[0].rect, Rect { x: 0, y: 0, w: 500, h: 1000 });
}

#[test]
fn test_word_char_offsets() {
    let rect = Rect { x: 0, y: 0, w: 400, h: 1000 };
    let run = simple_run("abcd", &[(0, 100), (100, 200), (200, 300), (300, 400)], rect, 1000);
    let runs = vec![run];
    let mut out = String::new();
    let words = concat_text(&mut out, &runs, &vec![0]);
    assert_eq!(words.len(), 1);
    let chars = &words[0].chars;
    assert_eq!(chars.len(), 4);
    for (k, c) in chars.iter().enumerate() {
        assert_eq!(c.offset, k);
        assert_eq!(c.pos, 100 * k as i64);
        assert_eq!(c.width, 100);
    }
}

#[test]
fn test_buffer_appends_after_existing_text() {
    // A buffer that already ends in a non-whitespace character: the scan
    // starts with the trailing-space flag off.
    let rect = Rect { x: 0, y: 0, w: 200, h: 1000 };
    let run = simple_run("ab", &[(0, 100), (100, 200)], rect, 1000);
    let runs = vec![run];
    let mut out = String::from("pre");
    let words = concat_text(&mut out, &runs, &vec![0]);
    assert_eq!(out, "preab");
    // The glyphs continue the word that the existing text left open.
    assert_eq!(words.len(), 1);
    assert_eq!(words[0].text, "ab");
}

#[test]
fn test_build_flow_entry_point() {
    let runs = para_runs();
    let flow = textflow::lower::build_flow(&runs, &para_node(), 0, &FixedClassifier {
        header: false,
    });
    assert_eq!(flow.runs.len(), 2);
    assert_eq!(flow.tables.len(), 0);
}

#[test]
fn test_separator_pushes_no_word() {
    // Buffer ends in a non-whitespace character and the first glyph is
    // whitespace: one space joins the buffer, but no word is pushed for
    // a pure separator.
    let rect = Rect { x: 0, y: 0, w: 100, h: 1000 };
    let run = simple_run(" ", &[(0, 100)], rect, 1000);
    let runs = vec![run];
    let mut out = String::from("pre");
    let words = concat_text(&mut out, &runs, &vec![0]);
    assert_eq!(out, "pre ");
    assert_eq!(words.len(), 0);
}

#[test]
fn test_empty_selection() {
    let runs = vec![simple_run("a", &[(0, 500)], Rect { x: 0, y: 0, w: 500, h: 1000 }, 1000)];
    let mut out = String::from("kept");
    let words = concat_text(&mut out, &runs, &vec![]);
    assert_eq!(words.len(), 0);
    assert_eq!(out, "kept");
}

#[test]
fn test_overlapping_glyphs_not_counted() {
    // Six overlapping glyphs (non-positive trailing-to-leading gaps)
    // contribute no gap samples; the one positive gap alone drives the
    // average, so the threshold stays high and nothing splits.
    let rect = Rect { x: 0, y: 0, w: 1600, h: 1000 };
    let run = simple_run(
        "abcdefz",
        &[(0, 100), (10, 110), (20, 120), (30, 130), (40, 140), (50, 150), (1500, 1600)],
        rect,
        4000,
    );
    let runs = vec![run];
    let mut out = String::new();
    let words = concat_text(&mut out, &runs, &vec![0]);
    assert_eq!(words.len(), 1);
    assert_eq!(words[0].text, "abcdefz");
}

#[test]
fn test_paragraph_whitespace_only_emits_nothing() {
    // A paragraph whose only candidate line segments to no words emits
    // no run at all: degenerate input resolves by omission.
    let runs = vec![simple_run(" ", &[(0, 100)], Rect { x: 0, y: 0, w: 100, h: 1000 }, 1000)];
    let node = Node::Grid {
        x: vec![],
        y: vec![],
        cells: vec![Node::Final { indices: vec![0] }],
        tag: NodeTag::Paragraph,
    };
    let mut flow = Flow::new();
    build(&mut flow, &runs, &node, 0, &FixedClassifier { header: false });
    assert_eq!(flow.runs.len(), 0);
    assert_eq!(flow.tables.len(), 0);
}

#[test]
fn test_continuation_word_starts_at_first_glyph() {
    // A word that continues pre-existing buffer text still spans from
    // its own first glyph's start x, not from the scan origin.
    let rect = Rect { x: 100, y: 0, w: 250, h: 1000 };
    let run = simple_run("ab", &[(100, 200), (250, 350)], rect, 1000);
    let runs = vec![run];
    let mut out = String::from("pre");
    let words = concat_text(&mut out, &runs, &vec![0]);
    assert_eq!(out, "preab");
    assert_eq!(words.len(), 1);
    assert_eq!(words[0].text, "ab");
    assert_eq!(words[0].rect, Rect { x: 100, y: 0, w: 250, h: 1000 });
}
