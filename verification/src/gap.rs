//! Adaptive inter-character gap threshold: twice the average of the
//! clamped gaps between adjacent non-whitespace glyphs, capped at half
//! the average font size.

use vstd::prelude::*;
use itertools::Itertools;
use crate::geom::{COORD_BOUND, in_coord};
use crate::glyph::{GF, GlyphRun, flat_view, flatten, is_ws_char, char_is_ws, sel_gfs, wf_runs,
    valid_indices, lemma_sel_gfs_wf};
use crate::util::{iv, spec_avg, avg};

verus! {

/// Gap-space leading edge, trailing edge and font size of a glyph.
pub open spec fn gf_triple(g: GF) -> (int, int, int) {
    (g.pos, g.pos + g.width, g.fsize)
}

/// The triples of the glyphs whose first character is not whitespace,
/// in glyph order.
pub open spec fn nonws_triples(gs: Seq<GF>) -> Seq<(int, int, int)>
    decreases gs.len(),
{
    if gs.len() == 0 {
        Seq::empty()
    } else {
        let rest = nonws_triples(gs.drop_last());
        if !is_ws_char(gs.last().text[0]) {
            rest.push(gf_triple(gs.last()))
        } else {
            rest
        }
    }
}

/// The gap between two adjacent glyph triples, clamped to at least one
/// unit and at most a quarter of the two font sizes' sum.
pub open spec fn clamp_gap(a: (int, int, int), b: (int, int, int)) -> int {
    let raw = b.0 - a.1;
    let cap = (a.2 + b.2) / 4;
    let lo = if raw >= 1 {
        raw
    } else {
        1
    };
    if lo <= cap {
        lo
    } else {
        cap
    }
}

/// The clamped gaps of the adjacent triple pairs with a positive gap
/// from the first glyph's trailing edge to the second's leading edge.
pub open spec fn spec_gaps(ts: Seq<(int, int, int)>) -> Seq<int>
    decreases ts.len(),
{
    if ts.len() <= 1 {
        Seq::empty()
    } else {
        let rest = spec_gaps(ts.drop_last());
        let a = ts[ts.len() - 2];
        let b = ts[ts.len() - 1];
        if b.0 > a.1 {
            rest.push(clamp_gap(a, b))
        } else {
            rest
        }
    }
}

/// Font sizes of the selected runs, in selection order.
pub open spec fn sel_fonts(runs: Seq<GlyphRun>, indices: Seq<usize>) -> Seq<int> {
    Seq::new(indices.len(), |i: int| runs[indices[i] as int].font_size as int)
}

/// The word-gap threshold of one segmentation call: twice the average
/// clamped gap (zero when no qualifying pair exists), capped at half the
/// average font size of the selected runs.
pub open spec fn spec_word_gap(runs: Seq<GlyphRun>, indices: Seq<usize>) -> int
    recommends
        indices.len() > 0,
{
    let half_font = spec_avg(sel_fonts(runs, indices)) / 2;
    let gaps = spec_gaps(nonws_triples(sel_gfs(runs, indices)));
    let gterm = if gaps.len() == 0 {
        0
    } else {
        2 * spec_avg(gaps)
    };
    if half_font <= gterm {
        half_font
    } else {
        gterm
    }
}

/// Relies on `itertools::Itertools::tuple_windows`: over an iterator of
/// `n` items it yields the `n - 1` contiguous adjacent pairs, in order,
/// and nothing for shorter input.
#[verifier::external_body]
fn adjacent_pairs(v: &Vec<(i64, i64, i64)>) -> (r: Vec<((i64, i64, i64), (i64, i64, i64))>)
    ensures
        v@.len() <= 1 ==> r@.len() == 0,
        v@.len() > 1 ==> r@.len() == v@.len() - 1,
        forall|i: int| 0 <= i < r@.len() ==> r@[i] == (v@[i], v@[i + 1]),
{
    v.iter().cloned().tuple_windows().collect()
}

/// The integer views of a triple vector.
pub open spec fn tv(s: Seq<(i64, i64, i64)>) -> Seq<(int, int, int)> {
    s.map_values(|t: (i64, i64, i64)| (t.0 as int, t.1 as int, t.2 as int))
}

/// A triple within coordinate range, with a non-negative font size.
pub open spec fn triple_ok(t: (int, int, int)) -> bool {
    in_coord(t.0) && in_coord(t.1) && 0 <= t.2 <= COORD_BOUND
}

/// Compute the word-gap threshold for the selected runs.
pub(crate) fn analyze_word_gap(runs: &Vec<GlyphRun>, indices: &Vec<usize>) -> (g: i64)
    requires
        wf_runs(runs@),
        valid_indices(indices@, runs@.len() as int),
        indices@.len() > 0,
    ensures
        g as int == spec_word_gap(runs@, indices@),
        0 <= g as int <= 2 * COORD_BOUND,
{
    // Average font size of the selected runs.
    let mut fonts: Vec<i64> = Vec::new();
    let mut i: usize = 0;
    while i < indices.len()
        invariant
            0 <= i <= indices@.len(),
            wf_runs(runs@),
            valid_indices(indices@, runs@.len() as int),
            fonts@.len() == i,
            forall|k: int| 0 <= k < i ==> fonts@[k] == runs@[indices@[k] as int].font_size,
        decreases indices@.len() - i,
    {
        let idx = indices[i];
        proof {
            assert(runs@[idx as int].wf());
        }
        fonts.push(runs[idx].font_size);
        i = i + 1;
    }
    proof {
        assert forall|k: int| 0 <= k < fonts@.len() implies 0 <= #[trigger] fonts@[k]
            <= COORD_BOUND by {
            assert(runs@[indices@[k] as int].wf());
        }
        assert(iv(fonts@) =~= sel_fonts(runs@, indices@));
    }
    let af = match avg(&fonts) {
        Option::Some(a) => a,
        Option::None => 0,  // unreachable: at least one index was given
    };

    // Triples of the non-whitespace glyphs.
    let flat = flatten(runs, indices);
    proof {
        lemma_sel_gfs_wf(runs@, indices@);
    }
    let ghost gfs = sel_gfs(runs@, indices@);
    let mut triples: Vec<(i64, i64, i64)> = Vec::new();
    let mut j: usize = 0;
    proof {
        assert(gfs.take(0) =~= Seq::empty());
    }
    while j < flat.len()
        invariant
            0 <= j <= flat@.len(),
            flat_view(flat@) == gfs,
            forall|k: int| 0 <= k < gfs.len() ==> #[trigger] gfs[k].wf(),
            tv(triples@) == nonws_triples(gfs.take(j as int)),
            forall|k: int| 0 <= k < tv(triples@).len() ==> triple_ok(#[trigger] tv(triples@)[k]),
        decreases flat@.len() - j,
    {
        let g = &flat[j];
        proof {
            assert(g@ == gfs[j as int]);
            assert(gfs[j as int].wf());
            assert(gfs.take(j + 1).drop_last() =~= gfs.take(j as int));
            assert(gfs.take(j + 1).last() == gfs[j as int]);
        }
        let ghost prev = triples@;
        if !char_is_ws(g.text.get_char(0)) {
            triples.push((g.pos, g.pos + g.width, g.fsize));
            proof {
                assert(tv(triples@) =~= tv(prev).push(
                    (g.pos as int, g.pos + g.width, g.fsize as int),
                ));
                assert(gf_triple(gfs[j as int]) == (g.pos as int, g.pos + g.width, g.fsize as int));
            }
        }
        j = j + 1;
    }
    proof {
        assert(gfs.take(gfs.len() as int) =~= gfs);
    }

    // Clamped gaps of qualifying adjacent pairs.
    let pairs = adjacent_pairs(&triples);
    let ghost ts = tv(triples@);
    let mut gaps: Vec<i64> = Vec::new();
    let mut k: usize = 0;
    proof {
        if ts.len() > 0 {
            assert(spec_gaps(ts.take(1)) =~= Seq::empty());
        }
        assert(iv(gaps@) =~= Seq::<int>::empty());
    }
    while k < pairs.len()
        invariant
            0 <= k <= pairs@.len(),
            ts == tv(triples@),
            ts.len() <= 1 ==> pairs@.len() == 0,
            ts.len() > 1 ==> pairs@.len() == ts.len() - 1,
            forall|m: int| 0 <= m < pairs@.len() ==> pairs@[m] == (triples@[m], triples@[m + 1]),
            forall|m: int| 0 <= m < ts.len() ==> triple_ok(#[trigger] ts[m]),
            ts.len() > 0 ==> iv(gaps@) == spec_gaps(ts.take(k + 1)),
            ts.len() == 0 ==> iv(gaps@) == Seq::<int>::empty(),
            forall|m: int| 0 <= m < gaps@.len() ==> 0 <= #[trigger] gaps@[m] <= COORD_BOUND,
        decreases pairs@.len() - k,
    {
        let (a, b) = pairs[k];
        proof {
            assert(pairs@[k as int] == (triples@[k as int], triples@[k as int + 1]));
            assert(ts[k as int] == (a.0 as int, a.1 as int, a.2 as int));
            assert(ts[k as int + 1] == (b.0 as int, b.1 as int, b.2 as int));
            assert(triple_ok(ts[k as int]));
            assert(triple_ok(ts[k as int + 1]));
            assert(ts.take(k + 2).drop_last() =~= ts.take(k + 1));
        }
        let ghost prevg = gaps@;
        if b.0 > a.1 {
            let raw = b.0 - a.1;
            let cap = (a.2 + b.2) / 4;
            let lo = if raw >= 1 {
                raw
            } else {
                1
            };
            let g = if lo <= cap {
                lo
            } else {
                cap
            };
            gaps.push(g);
            proof {
                assert(iv(gaps@) =~= iv(prevg).push(g as int));
                assert(g as int == clamp_gap(ts[k as int], ts[k as int + 1]));
            }
        }
        k = k + 1;
    }
    proof {
        if ts.len() > 1 {
            assert(ts.take(pairs@.len() as int + 1) =~= ts);
        } else if ts.len() == 1 {
            assert(ts.take(1) =~= ts);
            assert(spec_gaps(ts) =~= Seq::<int>::empty());
        } else {
            assert(spec_gaps(ts) =~= Seq::<int>::empty());
        }
        assert(iv(gaps@) == spec_gaps(nonws_triples(gfs)));
    }

    // Threshold: twice the average gap, capped at half the average font.
    let half_font = af / 2;
    let gterm: i64 = match avg(&gaps) {
        Option::Some(a) => 2 * a,
        Option::None => 0,
    };
    if half_font <= gterm {
        half_font
    } else {
        gterm
    }
}

} // verus!
