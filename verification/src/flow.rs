//! Output document model: words, lines, classified runs, table cells,
//! and the flow that collects them.

use vstd::prelude::*;
use crate::geom::{Rect, RectV};

verus! {

/// One glyph of a word: its offset within the owning word's text, plus
/// page-space horizontal position and width. Offsets count characters
/// of the text, not bytes: the library models text as a sequence of
/// characters, and cumulates each glyph's character count.
#[derive(Clone, Copy, Debug)]
pub struct Char {
    pub offset: usize,
    pub pos: i64,
    pub width: i64,
}

#[verifier::ext_equal]
pub ghost struct CharV {
    pub offset: int,
    pub pos: int,
    pub width: int,
}

impl View for Char {
    type V = CharV;

    open spec fn view(&self) -> CharV {
        CharV { offset: self.offset as int, pos: self.pos as int, width: self.width as int }
    }
}

/// A merged word: its text, bounding box, and per-glyph records.
pub struct Word {
    pub text: String,
    pub rect: Rect,
    pub chars: Vec<Char>,
}

#[verifier::ext_equal]
pub ghost struct WordV {
    pub text: Seq<char>,
    pub rect: RectV,
    pub chars: Seq<CharV>,
}

impl View for Word {
    type V = WordV;

    open spec fn view(&self) -> WordV {
        WordV {
            text: self.text@,
            rect: self.rect@,
            chars: self.chars@.map_values(|c: Char| c@),
        }
    }
}

/// One visual line: its words in reading order and its bounding box.
pub struct Line {
    pub words: Vec<Word>,
    pub rect: Rect,
}

#[verifier::ext_equal]
pub ghost struct LineV {
    pub words: Seq<WordV>,
    pub rect: RectV,
}

impl View for Line {
    type V = LineV;

    open spec fn view(&self) -> LineV {
        LineV { words: self.words@.map_values(|w: Word| w@), rect: self.rect@ }
    }
}

/// Classification of a run of lines.
#[derive(Clone, Copy, Debug, PartialEq, Eq, Structural)]
pub enum RunType {
    ParagraphContinuation,
    Paragraph,
    Header,
    Cell,
}

/// An ordered group of lines sharing one classification.
pub struct Run {
    pub lines: Vec<Line>,
    pub kind: RunType,
}

#[verifier::ext_equal]
pub ghost struct RunV {
    pub lines: Seq<LineV>,
    pub kind: RunType,
}

impl View for Run {
    type V = RunV;

    open spec fn view(&self) -> RunV {
        RunV { lines: self.lines@.map_values(|l: Line| l@), kind: self.kind }
    }
}

/// The text and bounding box of one populated table cell.
pub struct CellContent {
    pub text: String,
    pub rect: Rect,
}

#[verifier::ext_equal]
pub ghost struct CellContentV {
    pub text: Seq<char>,
    pub rect: RectV,
}

impl View for CellContent {
    type V = CellContentV;

    open spec fn view(&self) -> CellContentV {
        CellContentV { text: self.text@, rect: self.rect@ }
    }
}

/// A populated cell at its coordinates within a table.
pub struct PlacedCell {
    pub row: usize,
    pub col: usize,
    pub content: CellContent,
}

#[verifier::ext_equal]
pub ghost struct PlacedCellV {
    pub row: int,
    pub col: int,
    pub content: CellContentV,
}

impl View for PlacedCell {
    type V = PlacedCellV;

    open spec fn view(&self) -> PlacedCellV {
        PlacedCellV { row: self.row as int, col: self.col as int, content: self.content@ }
    }
}

/// A detected table: the page-space bounding box of all its populated
/// cells' runs, and those cells in table order.
pub struct CellTable {
    pub rect: Rect,
    pub cells: Vec<PlacedCell>,
}

#[verifier::ext_equal]
pub ghost struct CellTableV {
    pub rect: RectV,
    pub cells: Seq<PlacedCellV>,
}

impl View for CellTable {
    type V = CellTableV;

    open spec fn view(&self) -> CellTableV {
        CellTableV { rect: self.rect@, cells: self.cells@.map_values(|c: PlacedCell| c@) }
    }
}

/// The ordered, classified output of lowering one page's node tree.
pub struct Flow {
    pub runs: Vec<Run>,
    pub tables: Vec<CellTable>,
}

#[verifier::ext_equal]
pub ghost struct FlowV {
    pub runs: Seq<RunV>,
    pub tables: Seq<CellTableV>,
}

impl View for Flow {
    type V = FlowV;

    open spec fn view(&self) -> FlowV {
        FlowV {
            runs: self.runs@.map_values(|r: Run| r@),
            tables: self.tables@.map_values(|t: CellTable| t@),
        }
    }
}

impl Flow {
    /// An empty flow.
    pub fn new() -> (f: Flow)
        ensures
            f@.runs == Seq::<RunV>::empty(),
            f@.tables == Seq::<CellTableV>::empty(),
    {
        let f = Flow { runs: Vec::new(), tables: Vec::new() };
        proof {
            assert(f@.runs =~= Seq::<RunV>::empty());
            assert(f@.tables =~= Seq::<CellTableV>::empty());
        }
        f
    }

    /// Append one run holding a single line, unless the line is empty.
    pub fn add_line(&mut self, words: Vec<Word>, kind: RunType, rect: Rect)
        ensures
            words@.len() > 0 ==> final(self)@.runs == old(self)@.runs.push(
                RunV {
                    lines: seq![LineV { words: words@.map_values(|w: Word| w@), rect: rect@ }],
                    kind,
                },
            ),
            words@.len() == 0 ==> final(self)@.runs == old(self)@.runs,
            final(self)@.tables == old(self)@.tables,
    {
        if words.len() > 0 {
            let ghost prev = self.runs@;
            let line = Line { words, rect };
            let run = Run { lines: vec![line], kind };
            proof {
                assert(run@.lines =~= seq![line@]);
            }
            self.runs.push(run);
            proof {
                assert(self.runs@.map_values(|r: Run| r@) =~= prev.map_values(|r: Run| r@).push(
                    run@,
                ));
            }
        }
    }

    /// Attach a detected table of cell contents.
    pub fn add_table(&mut self, table: CellTable)
        ensures
            final(self)@.tables == old(self)@.tables.push(table@),
            final(self)@.runs == old(self)@.runs,
    {
        let ghost prev = self.tables@;
        let ghost t = table@;
        self.tables.push(table);
        proof {
            assert(self.tables@.map_values(|x: CellTable| x@) =~= prev.map_values(
                |x: CellTable| x@,
            ).push(t));
        }
    }
}

} // verus!
