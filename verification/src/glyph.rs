//! Input model: positioned glyph runs, and their flattening into one
//! ordered glyph sequence for segmentation and gap analysis.

use vstd::prelude::*;
use crate::geom::{Rect, in_coord};

verus! {

/// The characters with the Unicode `White_Space` property.
pub open spec fn is_ws_char(c: char) -> bool {
    c == ' ' || c == '\u{9}' || c == '\u{A}' || c == '\u{B}' || c == '\u{C}' || c == '\u{D}'
        || c == '\u{85}' || c == '\u{A0}' || c == '\u{1680}' || c == '\u{2000}' || c == '\u{2001}'
        || c == '\u{2002}' || c == '\u{2003}' || c == '\u{2004}' || c == '\u{2005}'
        || c == '\u{2006}' || c == '\u{2007}' || c == '\u{2008}' || c == '\u{2009}'
        || c == '\u{200A}' || c == '\u{2028}' || c == '\u{2029}' || c == '\u{202F}'
        || c == '\u{205F}' || c == '\u{3000}'
}

/// Whether a character has the Unicode `White_Space` property.
pub fn char_is_ws(c: char) -> (r: bool)
    ensures
        r == is_ws_char(c),
{
    c == ' ' || c == '\u{9}' || c == '\u{A}' || c == '\u{B}' || c == '\u{C}' || c == '\u{D}'
        || c == '\u{85}' || c == '\u{A0}' || c == '\u{1680}' || c == '\u{2000}' || c == '\u{2001}'
        || c == '\u{2002}' || c == '\u{2003}' || c == '\u{2004}' || c == '\u{2005}'
        || c == '\u{2006}' || c == '\u{2007}' || c == '\u{2008}' || c == '\u{2009}'
        || c == '\u{200A}' || c == '\u{2028}' || c == '\u{2029}' || c == '\u{202F}'
        || c == '\u{205F}' || c == '\u{3000}'
}

/// Every character of the sequence is whitespace.
pub open spec fn all_ws(s: Seq<char>) -> bool {
    forall|i: int| 0 <= i < s.len() ==> is_ws_char(s[i])
}

/// Whether every character of `s` is whitespace.
pub fn str_all_ws(s: &str) -> (r: bool)
    ensures
        r == all_ws(s@),
{
    let n = s.unicode_len();
    let mut i: usize = 0;
    while i < n
        invariant
            0 <= i <= n,
            n == s@.len(),
            forall|j: int| 0 <= j < i ==> is_ws_char(s@[j]),
        decreases n - i,
    {
        if !char_is_ws(s.get_char(i)) {
            return false;
        }
        i = i + 1;
    }
    true
}

/// One positioned glyph of a run. `pos`/`width` are in the run's gap
/// space (local position with the run's horizontal offset applied);
/// `start`/`end` are the page-space leading and trailing edges.
pub struct Glyph {
    pub text: String,
    pub pos: i64,
    pub width: i64,
    pub start: i64,
    pub end: i64,
}

impl Glyph {
    pub open spec fn wf(self) -> bool {
        &&& self.text@.len() > 0
        &&& in_coord(self.pos as int)
        &&& in_coord(self.pos + self.width)
        &&& in_coord(self.start as int)
        &&& in_coord(self.end as int)
    }
}

/// A contiguous run of glyphs sharing one transform, font size and color.
pub struct GlyphRun {
    pub glyphs: Vec<Glyph>,
    pub rect: Rect,
    pub font_size: i64,
}

impl GlyphRun {
    pub open spec fn wf(self) -> bool {
        &&& forall|i: int| 0 <= i < self.glyphs@.len() ==> self.glyphs@[i].wf()
        &&& self.rect@.bounded()
        &&& self.rect.w >= 0
        &&& self.rect.h >= 0
        &&& 0 <= self.font_size
        &&& in_coord(self.font_size as int)
    }
}

/// All runs of the page are well formed.
pub open spec fn wf_runs(runs: Seq<GlyphRun>) -> bool {
    forall|i: int| 0 <= i < runs.len() ==> runs[i].wf()
}

/// Every index points into the run array.
pub open spec fn valid_indices(indices: Seq<usize>, n: int) -> bool {
    forall|i: int| 0 <= i < indices.len() ==> indices[i] < n
}

/// A glyph together with the per-run data segmentation reads: the run's
/// vertical bounds and font size.
pub ghost struct GF {
    pub text: Seq<char>,
    pub pos: int,
    pub width: int,
    pub start: int,
    pub end: int,
    pub ymin: int,
    pub ymax: int,
    pub fsize: int,
}

impl GF {
    pub open spec fn wf(self) -> bool {
        &&& self.text.len() > 0
        &&& in_coord(self.pos)
        &&& in_coord(self.pos + self.width)
        &&& in_coord(self.start)
        &&& in_coord(self.end)
        &&& in_coord(self.ymin)
        &&& in_coord(self.ymax)
        &&& self.ymin <= self.ymax
        &&& 0 <= self.fsize
        &&& in_coord(self.fsize)
    }
}

/// The glyphs of one run, paired with the run's vertical bounds and font size.
pub open spec fn run_gfs(r: GlyphRun) -> Seq<GF> {
    r.glyphs@.map_values(
        |g: Glyph|
            GF {
                text: g.text@,
                pos: g.pos as int,
                width: g.width as int,
                start: g.start as int,
                end: g.end as int,
                ymin: r.rect.y as int,
                ymax: r.rect.y + r.rect.h,
                fsize: r.font_size as int,
            },
    )
}

/// The glyphs of the selected runs, concatenated in selection order.
pub open spec fn sel_gfs(runs: Seq<GlyphRun>, indices: Seq<usize>) -> Seq<GF>
    decreases indices.len(),
{
    if indices.len() == 0 {
        Seq::empty()
    } else {
        sel_gfs(runs, indices.drop_last()) + run_gfs(runs[indices.last() as int])
    }
}

pub proof fn lemma_sel_gfs_wf(runs: Seq<GlyphRun>, indices: Seq<usize>)
    requires
        wf_runs(runs),
        valid_indices(indices, runs.len() as int),
    ensures
        forall|i: int| 0 <= i < sel_gfs(runs, indices).len() ==> #[trigger] sel_gfs(
            runs,
            indices,
        )[i].wf(),
    decreases indices.len(),
{
    if indices.len() > 0 {
        assert(valid_indices(indices.drop_last(), runs.len() as int));
        lemma_sel_gfs_wf(runs, indices.drop_last());
        let r = runs[indices.last() as int];
        assert(r.wf());
        assert forall|i: int| 0 <= i < run_gfs(r).len() implies #[trigger] run_gfs(r)[i].wf() by {
            assert(r.glyphs@[i].wf());
        }
        let s1 = sel_gfs(runs, indices.drop_last());
        let s2 = run_gfs(r);
        assert forall|i: int| 0 <= i < sel_gfs(runs, indices).len() implies #[trigger] sel_gfs(
            runs,
            indices,
        )[i].wf() by {
            if i < s1.len() {
                assert(sel_gfs(runs, indices)[i] == s1[i]);
            } else {
                assert(sel_gfs(runs, indices)[i] == s2[i - s1.len()]);
            }
        }
    }
}

/// One flattened glyph, as materialized for the scan.
pub struct FlatGlyph {
    pub text: String,
    pub pos: i64,
    pub width: i64,
    pub start: i64,
    pub end: i64,
    pub ymin: i64,
    pub ymax: i64,
    pub fsize: i64,
}

impl View for FlatGlyph {
    type V = GF;

    open spec fn view(&self) -> GF {
        GF {
            text: self.text@,
            pos: self.pos as int,
            width: self.width as int,
            start: self.start as int,
            end: self.end as int,
            ymin: self.ymin as int,
            ymax: self.ymax as int,
            fsize: self.fsize as int,
        }
    }
}

/// The view of a flattened glyph vector.
pub open spec fn flat_view(v: Seq<FlatGlyph>) -> Seq<GF> {
    v.map_values(|g: FlatGlyph| g@)
}

/// Gather the glyphs of the selected runs, in order, with each run's
/// vertical bounds and font size attached.
pub fn flatten(runs: &Vec<GlyphRun>, indices: &Vec<usize>) -> (v: Vec<FlatGlyph>)
    requires
        wf_runs(runs@),
        valid_indices(indices@, runs@.len() as int),
    ensures
        flat_view(v@) == sel_gfs(runs@, indices@),
{
    let mut v: Vec<FlatGlyph> = Vec::new();
    let mut i: usize = 0;
    while i < indices.len()
        invariant
            0 <= i <= indices@.len(),
            wf_runs(runs@),
            valid_indices(indices@, runs@.len() as int),
            flat_view(v@) == sel_gfs(runs@, indices@.take(i as int)),
        decreases indices@.len() - i,
    {
        let idx = indices[i];
        let run = &runs[idx];
        let mut j: usize = 0;
        while j < run.glyphs.len()
            invariant
                0 <= j <= run.glyphs@.len(),
                *run == runs@[indices@[i as int] as int],
                i < indices@.len(),
                wf_runs(runs@),
                valid_indices(indices@, runs@.len() as int),
                flat_view(v@) == sel_gfs(runs@, indices@.take(i as int)) + run_gfs(*run).take(
                    j as int,
                ),
            decreases run.glyphs@.len() - j,
        {
            let g = &run.glyphs[j];
            let ghost prev = v@;
            let fg = FlatGlyph {
                text: g.text.clone(),
                pos: g.pos,
                width: g.width,
                start: g.start,
                end: g.end,
                ymin: run.rect.y,
                ymax: run.rect.y + run.rect.h,
                fsize: run.font_size,
            };
            proof {
                assert(run.wf());
                assert(run.rect@.bounded());
            }
            v.push(fg);
            proof {
                assert(flat_view(v@) =~= flat_view(prev).push(fg@));
                assert(run_gfs(*run)[j as int] == fg@);
                assert(run_gfs(*run).take(j + 1) =~= run_gfs(*run).take(j as int).push(fg@));
                assert(flat_view(v@) =~= sel_gfs(runs@, indices@.take(i as int)) + run_gfs(
                    *run,
                ).take(j + 1));
            }
            j = j + 1;
        }
        proof {
            assert(run_gfs(*run).take(run.glyphs@.len() as int) =~= run_gfs(*run));
            assert(indices@.take(i + 1).drop_last() =~= indices@.take(i as int));
            assert(indices@.take(i + 1).last() == indices@[i as int]);
            assert(sel_gfs(runs@, indices@.take(i + 1)) == sel_gfs(runs@, indices@.take(i as int))
                + run_gfs(runs@[indices@[i as int] as int]));
        }
        i = i + 1;
    }
    proof {
        assert(indices@.take(indices@.len() as int) =~= indices@);
    }
    v
}

} // verus!
