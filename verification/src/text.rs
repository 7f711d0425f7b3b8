//! Word segmentation: a single left-to-right scan over the glyphs of the
//! selected runs, splitting words at whitespace glyphs and at horizontal
//! gaps wider than the adaptive threshold.

use vstd::prelude::*;
use crate::geom::{Rect, in_coord, spec_min, spec_max};
use crate::glyph::{GF, GlyphRun, all_ws, flat_view, flatten, is_ws_char, sel_gfs, str_all_ws,
    wf_runs, valid_indices, lemma_sel_gfs_wf};
use crate::gap::{analyze_word_gap, spec_word_gap};
use crate::flow::{Char, CharV, Word, WordV};

verus! {

/// State of the word under construction.
#[verifier::ext_equal]
pub ghost struct BuilderV {
    pub text: Seq<char>,
    pub start_pos: int,
    pub end_pos: int,
    pub y_min: int,
    pub y_max: int,
    pub chars: Seq<CharV>,
    pub offset: int,
    pub fresh: bool,
}

/// State of the whole scan.
#[verifier::ext_equal]
pub ghost struct SegState {
    pub words: Seq<WordV>,
    pub out: Seq<char>,
    pub cur: BuilderV,
    pub trailing: bool,
    pub end: int,
}

/// A word opened at horizontal position `start`, with nothing in it
/// yet; the position is provisional until a glyph is recorded.
pub open spec fn builder_new(start: int) -> BuilderV {
    BuilderV {
        text: Seq::empty(),
        start_pos: start,
        end_pos: 0,
        y_min: 0,
        y_max: 0,
        chars: Seq::empty(),
        offset: 0,
        fresh: true,
    }
}

/// Record one glyph of `n` characters spanning `[start, end]`. The
/// first recorded glyph fixes the word's start position: a word's box
/// spans from its first glyph's start.
pub open spec fn builder_add_char(b: BuilderV, n: int, start: int, end: int) -> BuilderV {
    BuilderV {
        chars: b.chars.push(CharV { offset: b.offset, pos: start, width: end - start }),
        start_pos: if b.chars.len() == 0 {
            start
        } else {
            b.start_pos
        },
        end_pos: end,
        offset: b.offset + n,
        ..b
    }
}

/// Append the glyph's text to the word's text.
pub open spec fn builder_push_text(b: BuilderV, t: Seq<char>) -> BuilderV {
    BuilderV { text: b.text + t, ..b }
}

/// Extend the word's vertical bounds by the owning run's bounds.
pub open spec fn builder_bounds(b: BuilderV, y_min: int, y_max: int) -> BuilderV {
    if b.fresh {
        BuilderV { y_min, y_max, fresh: false, ..b }
    } else {
        BuilderV { y_min: spec_min(b.y_min, y_min), y_max: spec_max(b.y_max, y_max), ..b }
    }
}

/// The finished word: it spans its first glyph's start to its last
/// glyph's end, and the union of the vertical bounds observed.
pub open spec fn builder_word(b: BuilderV) -> WordV {
    WordV {
        text: b.text,
        rect: crate::geom::RectV {
            x: b.start_pos,
            y: b.y_min,
            w: b.end_pos - b.start_pos,
            h: b.y_max - b.y_min,
        },
        chars: b.chars,
    }
}

/// Scan state before any glyph: trailing whitespace is assumed when the
/// buffer is empty or ends in whitespace.
pub open spec fn seg_init(out0: Seq<char>) -> SegState {
    SegState {
        words: Seq::empty(),
        out: out0,
        cur: builder_new(0),
        trailing: out0.len() == 0 || is_ws_char(out0.last()),
        end: 0,
    }
}

/// Process one glyph: start a word after whitespace, close the word at a
/// whitespace glyph or at a gap wider than the threshold, else extend it.
/// A word is closed only when it holds a glyph record: pure separators
/// push no word.
pub open spec fn seg_step(st: SegState, g: GF, gap: int) -> SegState {
    let ws = all_ws(g.text);
    let n = g.text.len() as int;
    let st1 = if st.trailing && !ws {
        SegState {
            cur: builder_push_text(
                builder_add_char(builder_new(g.start), n, g.start, g.end),
                g.text,
            ),
            out: st.out + g.text,
            ..st
        }
    } else if !st.trailing && ws {
        SegState {
            words: if st.cur.chars.len() > 0 {
                st.words.push(builder_word(st.cur))
            } else {
                st.words
            },
            out: st.out.push(' '),
            cur: builder_new(g.start),
            ..st
        }
    } else if !st.trailing && g.pos > st.end + gap {
        SegState {
            words: if st.cur.chars.len() > 0 {
                st.words.push(builder_word(st.cur))
            } else {
                st.words
            },
            cur: builder_push_text(
                builder_add_char(builder_new(g.start), n, g.start, g.end),
                g.text,
            ),
            out: st.out + g.text,
            ..st
        }
    } else if !st.trailing {
        SegState {
            cur: builder_push_text(builder_add_char(st.cur, n, g.start, g.end), g.text),
            out: st.out + g.text,
            ..st
        }
    } else {
        st
    };
    SegState {
        trailing: ws,
        end: g.pos + g.width,
        cur: builder_bounds(st1.cur, g.ymin, g.ymax),
        ..st1
    }
}

/// Scan state after the first `n` glyphs.
pub open spec fn seg_scan(out0: Seq<char>, gs: Seq<GF>, gap: int, n: int) -> SegState
    decreases n,
{
    if n <= 0 {
        seg_init(out0)
    } else {
        seg_step(seg_scan(out0, gs, gap, n - 1), gs[n - 1], gap)
    }
}

/// Flush the final word, if it holds any glyph.
pub open spec fn seg_finish(st: SegState) -> Seq<WordV> {
    if st.cur.chars.len() > 0 {
        st.words.push(builder_word(st.cur))
    } else {
        st.words
    }
}

/// The words produced by segmenting `gs` with threshold `gap`, starting
/// from buffer contents `out0`.
pub open spec fn spec_words(out0: Seq<char>, gs: Seq<GF>, gap: int) -> Seq<WordV> {
    seg_finish(seg_scan(out0, gs, gap, gs.len() as int))
}

/// The buffer contents after segmenting `gs`.
pub open spec fn spec_out(out0: Seq<char>, gs: Seq<GF>, gap: int) -> Seq<char> {
    seg_scan(out0, gs, gap, gs.len() as int).out
}

/// Total character count of a glyph sequence's texts.
pub open spec fn seq_text_len(gs: Seq<GF>) -> int
    decreases gs.len(),
{
    if gs.len() == 0 {
        0
    } else {
        seq_text_len(gs.drop_last()) + gs.last().text.len()
    }
}

pub proof fn lemma_seq_text_len_take(gs: Seq<GF>, n: int)
    requires
        0 <= n < gs.len(),
    ensures
        seq_text_len(gs.take(n + 1)) == seq_text_len(gs.take(n)) + gs[n].text.len(),
{
    assert(gs.take(n + 1).drop_last() =~= gs.take(n));
    assert(gs.take(n + 1).last() == gs[n]);
}

pub proof fn lemma_seq_text_len_le(gs: Seq<GF>, n: int)
    requires
        0 <= n <= gs.len(),
    ensures
        seq_text_len(gs.take(n)) <= seq_text_len(gs),
    decreases gs.len() - n,
{
    if n == gs.len() {
        assert(gs.take(n) =~= gs);
    } else {
        lemma_seq_text_len_take(gs, n);
        lemma_seq_text_len_le(gs, n + 1);
    }
}

/// The builder's coordinates stay in range and its offset stays below
/// the total text length of the glyphs scanned so far.
pub open spec fn builder_ok(b: BuilderV) -> bool {
    in_coord(b.start_pos) && in_coord(b.end_pos) && in_coord(b.y_min) && in_coord(b.y_max) && 0
        <= b.offset
}

pub proof fn lemma_seg_scan_ok(out0: Seq<char>, gs: Seq<GF>, gap: int, n: int)
    requires
        0 <= n <= gs.len(),
        forall|i: int| 0 <= i < gs.len() ==> #[trigger] gs[i].wf(),
    ensures
        builder_ok(seg_scan(out0, gs, gap, n).cur),
        in_coord(seg_scan(out0, gs, gap, n).end),
        seg_scan(out0, gs, gap, n).cur.offset <= seq_text_len(gs.take(n)),
    decreases n,
{
    if n > 0 {
        lemma_seg_scan_ok(out0, gs, gap, n - 1);
        lemma_seq_text_len_take(gs, n - 1);
        assert(gs[n - 1].wf());
        assert(seq_text_len(gs.take(n - 1)) >= 0) by {
            lemma_seq_text_len_nonneg(gs.take(n - 1));
        }
    }
}

pub proof fn lemma_seq_text_len_nonneg(gs: Seq<GF>)
    ensures
        seq_text_len(gs) >= 0,
    decreases gs.len(),
{
    if gs.len() > 0 {
        lemma_seq_text_len_nonneg(gs.drop_last());
    }
}

/// A horizontal gap beyond the threshold, and only such a gap, closes
/// the word under construction at a non-whitespace glyph: the scan emits
/// exactly one word boundary at that gap. (Enlarging a gap also enlarges
/// the recomputed threshold of the whole invocation, so boundaries
/// elsewhere are not preserved in general.)
pub proof fn lemma_gap_boundary(st: SegState, g: GF, gap: int)
    requires
        !st.trailing,
        st.cur.chars.len() > 0,
        !all_ws(g.text),
    ensures
        g.pos > st.end + gap ==> seg_step(st, g, gap).words == st.words.push(
            builder_word(st.cur),
        ),
        g.pos <= st.end + gap ==> seg_step(st, g, gap).words == st.words,
{
}

/// Well-formed glyph records: offsets start at zero, increase strictly,
/// and lie below the text's character count.
pub open spec fn chars_ok(chars: Seq<CharV>, textlen: int) -> bool {
    &&& forall|i: int| 0 <= i < chars.len() ==> 0 <= (#[trigger] chars[i]).offset < textlen
    &&& (chars.len() > 0 ==> chars[0].offset == 0)
    &&& forall|i: int| 0 < i < chars.len() ==> chars[i - 1].offset < (#[trigger] chars[i]).offset
}

/// A word of the output: at least one glyph record, with well-formed
/// character offsets into its text.
pub open spec fn word_ok(w: WordV) -> bool {
    w.chars.len() > 0 && chars_ok(w.chars, w.text.len() as int)
}

pub proof fn lemma_scan_words_ok(out0: Seq<char>, gs: Seq<GF>, gap: int, n: int)
    requires
        0 <= n <= gs.len(),
        forall|i: int| 0 <= i < gs.len() ==> (#[trigger] gs[i]).wf(),
    ensures
        ({
            let st = seg_scan(out0, gs, gap, n);
            &&& st.cur.offset == st.cur.text.len()
            &&& (st.cur.chars.len() == 0 ==> st.cur.text.len() == 0)
            &&& chars_ok(st.cur.chars, st.cur.text.len() as int)
            &&& forall|k: int| 0 <= k < st.words.len() ==> word_ok(#[trigger] st.words[k])
        }),
    decreases n,
{
    if n > 0 {
        lemma_scan_words_ok(out0, gs, gap, n - 1);
        assert(gs[n - 1].wf());
    }
}

/// Every word of a segmentation holds at least one glyph record; the
/// records' offsets start at zero, increase strictly, and lie below the
/// word's character count.
pub proof fn lemma_words_well_formed(out0: Seq<char>, gs: Seq<GF>, gap: int)
    requires
        forall|i: int| 0 <= i < gs.len() ==> (#[trigger] gs[i]).wf(),
    ensures
        forall|k: int| 0 <= k < spec_words(out0, gs, gap).len() ==> word_ok(
            #[trigger] spec_words(out0, gs, gap)[k],
        ),
{
    lemma_scan_words_ok(out0, gs, gap, gs.len() as int);
}

/// Number of the first `n` glyphs that follow a gap beyond the
/// threshold: their leading edge exceeds the previous glyph's trailing
/// edge by more than `gap`.
pub open spec fn count_boundaries(gs: Seq<GF>, gap: int, n: int) -> int
    decreases n,
{
    if n <= 1 || n > gs.len() {
        0
    } else {
        count_boundaries(gs, gap, n - 1) + if gs[n - 1].pos > gs[n - 2].pos + gs[n - 2].width
            + gap {
            1int
        } else {
            0int
        }
    }
}

/// No glyph of the sequence is whitespace.
pub open spec fn no_ws_glyphs(gs: Seq<GF>) -> bool {
    forall|i: int| 0 <= i < gs.len() ==> !all_ws((#[trigger] gs[i]).text)
}

pub proof fn lemma_word_count_scan(gs: Seq<GF>, gap: int, n: int)
    requires
        no_ws_glyphs(gs),
        0 <= n <= gs.len(),
    ensures
        ({
            let st = seg_scan(Seq::empty(), gs, gap, n);
            &&& (n == 0 ==> st.words.len() == 0 && st.trailing && st.cur.chars.len() == 0)
            &&& (n > 0 ==> !st.trailing && st.cur.chars.len() > 0 && st.end == gs[n - 1].pos
                + gs[n - 1].width && st.words.len() == count_boundaries(gs, gap, n))
        }),
    decreases n,
{
    if n > 0 {
        lemma_word_count_scan(gs, gap, n - 1);
    }
}

/// Over an empty buffer, whitespace-free input yields one word more than
/// the number of gaps beyond the threshold: each gap beyond it
/// introduces exactly one word boundary, and no other boundary exists.
pub proof fn lemma_word_count(gs: Seq<GF>, gap: int)
    requires
        no_ws_glyphs(gs),
    ensures
        gs.len() == 0 ==> spec_words(Seq::empty(), gs, gap).len() == 0,
        gs.len() > 0 ==> spec_words(Seq::empty(), gs, gap).len() == 1 + count_boundaries(
            gs,
            gap,
            gs.len() as int,
        ),
{
    lemma_word_count_scan(gs, gap, gs.len() as int);
}

/// Builds one word of the scan.
struct WordBuilder {
    text: String,
    start_pos: i64,
    end_pos: i64,
    y_min: i64,
    y_max: i64,
    chars: Vec<Char>,
    offset: usize,
    fresh: bool,
}

impl View for WordBuilder {
    type V = BuilderV;

    closed spec fn view(&self) -> BuilderV {
        BuilderV {
            text: self.text@,
            start_pos: self.start_pos as int,
            end_pos: self.end_pos as int,
            y_min: self.y_min as int,
            y_max: self.y_max as int,
            chars: self.chars@.map_values(|c: Char| c@),
            offset: self.offset as int,
            fresh: self.fresh,
        }
    }
}

impl WordBuilder {
    fn new(start_pos: i64) -> (b: WordBuilder)
        ensures
            b@ == builder_new(start_pos as int),
    {
        let b = WordBuilder {
            text: String::new(),
            start_pos,
            end_pos: 0,
            y_min: 0,
            y_max: 0,
            chars: Vec::new(),
            offset: 0,
            fresh: true,
        };
        proof {
            assert(b@ =~= builder_new(start_pos as int));
        }
        b
    }

    fn add_char(&mut self, n: usize, start: i64, end: i64)
        requires
            old(self)@.offset + n <= usize::MAX,
            in_coord(start as int),
            in_coord(end as int),
        ensures
            final(self)@ == builder_add_char(old(self)@, n as int, start as int, end as int),
    {
        let ghost prev = self@;
        if self.chars.len() == 0 {
            self.start_pos = start;
        }
        let c = Char { offset: self.offset, pos: start, width: end - start };
        self.chars.push(c);
        self.end_pos = end;
        self.offset = self.offset + n;
        proof {
            assert(self@.chars =~= prev.chars.push(c@));
            assert(self@ =~= builder_add_char(prev, n as int, start as int, end as int));
        }
    }

    fn add_text(&mut self, t: &str)
        ensures
            final(self)@ == builder_push_text(old(self)@, t@),
    {
        let ghost prev = self@;
        self.text.append(t);
        proof {
            assert(self@ =~= builder_push_text(prev, t@));
        }
    }

    fn update_bounds(&mut self, min_y: i64, max_y: i64)
        ensures
            final(self)@ == builder_bounds(old(self)@, min_y as int, max_y as int),
    {
        let ghost prev = self@;
        if self.fresh {
            self.y_min = min_y;
            self.y_max = max_y;
            self.fresh = false;
        } else {
            if min_y < self.y_min {
                self.y_min = min_y;
            }
            if max_y > self.y_max {
                self.y_max = max_y;
            }
        }
        proof {
            assert(self@ =~= builder_bounds(prev, min_y as int, max_y as int));
        }
    }

    fn is_empty(&self) -> (r: bool)
        ensures
            r == (self@.chars.len() == 0),
    {
        self.chars.len() == 0
    }

    fn build(self) -> (w: Word)
        requires
            builder_ok(self@),
        ensures
            w@ == builder_word(self@),
    {
        let w = Word {
            text: self.text,
            rect: Rect {
                x: self.start_pos,
                y: self.y_min,
                w: self.end_pos - self.start_pos,
                h: self.y_max - self.y_min,
            },
            chars: self.chars,
        };
        proof {
            assert(w@ =~= builder_word(self@));
        }
        w
    }
}

/// Whether the buffer is empty or ends in whitespace.
fn ends_in_ws(s: &str) -> (r: bool)
    ensures
        r == (s@.len() == 0 || is_ws_char(s@.last())),
{
    let n = s.unicode_len();
    if n == 0 {
        true
    } else {
        crate::glyph::char_is_ws(s.get_char(n - 1))
    }
}

/// Merge the selected runs' glyphs into words, appending their text to
/// `out`. Words are split at whitespace glyphs (one literal space is
/// emitted between words) and at horizontal gaps wider than the
/// adaptive threshold of this invocation. An empty selection yields no
/// words and leaves the buffer unchanged. Glyph-record offsets count
/// characters of the owning word's text.
pub fn concat_text(out: &mut String, runs: &Vec<GlyphRun>, indices: &Vec<usize>) -> (words: Vec<
    Word,
>)
    requires
        wf_runs(runs@),
        valid_indices(indices@, runs@.len() as int),
        seq_text_len(sel_gfs(runs@, indices@)) <= usize::MAX,
    ensures
        ({
            let gfs = sel_gfs(runs@, indices@);
            let gap = spec_word_gap(runs@, indices@);
            &&& words@.map_values(|w: Word| w@) == spec_words(old(out)@, gfs, gap)
            &&& final(out)@ == spec_out(old(out)@, gfs, gap)
        }),
{
    if indices.len() == 0 {
        let words: Vec<Word> = Vec::new();
        proof {
            let gfs = sel_gfs(runs@, indices@);
            let gap = spec_word_gap(runs@, indices@);
            assert(gfs =~= Seq::<GF>::empty());
            assert(words@.map_values(|w: Word| w@) =~= spec_words(old(out)@, gfs, gap));
        }
        return words;
    }
    let ghost out0 = out@;
    let ghost gfs = sel_gfs(runs@, indices@);
    proof {
        lemma_sel_gfs_wf(runs@, indices@);
    }
    let gap = analyze_word_gap(runs, indices);
    let flat = flatten(runs, indices);

    let mut words: Vec<Word> = Vec::new();
    let mut builder = WordBuilder::new(0);
    let mut trailing = ends_in_ws(out.as_str());
    let mut end: i64 = 0;
    let mut j: usize = 0;
    proof {
        assert(words@.map_values(|w: Word| w@) =~= Seq::<WordV>::empty());
    }
    while j < flat.len()
        invariant
            0 <= j <= flat@.len(),
            flat_view(flat@) == gfs,
            forall|k: int| 0 <= k < gfs.len() ==> #[trigger] gfs[k].wf(),
            seq_text_len(gfs) <= usize::MAX,
            gap as int == spec_word_gap(runs@, indices@),
            0 <= gap as int <= 2 * crate::geom::COORD_BOUND,
            ({
                let st = seg_scan(out0, gfs, gap as int, j as int);
                &&& words@.map_values(|w: Word| w@) == st.words
                &&& out@ == st.out
                &&& builder@ == st.cur
                &&& trailing == st.trailing
                &&& end as int == st.end
            }),
        decreases flat@.len() - j,
    {
        let ghost st = seg_scan(out0, gfs, gap as int, j as int);
        proof {
            lemma_seg_scan_ok(out0, gfs, gap as int, j as int);
            lemma_seq_text_len_take(gfs, j as int);
            lemma_seq_text_len_le(gfs, j + 1);
            lemma_seq_text_len_nonneg(gfs.take(j as int));
            assert(flat@[j as int]@ == gfs[j as int]);
            assert(gfs[j as int].wf());
        }
        let g = &flat[j];
        let ws = str_all_ws(g.text.as_str());
        let n = g.text.as_str().unicode_len();

        if trailing && !ws {
            builder = WordBuilder::new(g.start);
            builder.add_char(n, g.start, g.end);
            builder.add_text(g.text.as_str());
            let ghost prevw = words@;
            out.append(g.text.as_str());
        } else if !trailing {
            if ws {
                if !builder.is_empty() {
                    let ghost prevw = words@;
                    let w = builder.build();
                    words.push(w);
                    proof {
                        assert(words@.map_values(|x: Word| x@) =~= prevw.map_values(
                            |x: Word| x@,
                        ).push(w@));
                    }
                }
                out.append(" ");
                proof {
                    reveal_strlit(" ");
                    assert(out@ =~= st.out.push(' '));
                }
                builder = WordBuilder::new(g.start);
            } else if g.pos > end + gap {
                if !builder.is_empty() {
                    let ghost prevw = words@;
                    let w = builder.build();
                    words.push(w);
                    proof {
                        assert(words@.map_values(|x: Word| x@) =~= prevw.map_values(
                            |x: Word| x@,
                        ).push(w@));
                    }
                }
                builder = WordBuilder::new(g.start);
                builder.add_char(n, g.start, g.end);
                builder.add_text(g.text.as_str());
                out.append(g.text.as_str());
            } else {
                builder.add_char(n, g.start, g.end);
                builder.add_text(g.text.as_str());
                out.append(g.text.as_str());
            }
        }
        trailing = ws;
        end = g.pos + g.width;
        builder.update_bounds(g.ymin, g.ymax);
        proof {
            assert(seg_scan(out0, gfs, gap as int, j + 1) == seg_step(st, gfs[j as int], gap as int));
        }
        j = j + 1;
    }
    proof {
        assert(gfs.take(gfs.len() as int) =~= gfs);
        lemma_seg_scan_ok(out0, gfs, gap as int, gfs.len() as int);
    }
    if !builder.is_empty() {
        let ghost prevw = words@;
        let w = builder.build();
        words.push(w);
        proof {
            assert(words@.map_values(|x: Word| x@) =~= prevw.map_values(|x: Word| x@).push(w@));
        }
    }
    words
}

} // verus!
