//! The shaping pipeline's bookkeeping: each style run is shaped by the
//! outside shaping service into positioned glyphs with run-local cluster
//! offsets; this module rebases those offsets into paragraph coordinates,
//! concatenates the runs into one paragraph-wide glyph segmentation, and
//! tracks the paragraph's line skip.

use vstd::prelude::*;
use crate::paragraph::{Run, StyledParagraph};
use crate::segmentation::{boundaries_sorted, lemma_sorted_push, Segmentation};

verus! {

/// One positioned glyph as the shaping service reports it: a glyph
/// identifier, the byte offset of its source cluster, and advance and
/// offset deltas in 26.6 fixed point.
#[derive(Debug, Clone, Copy, PartialEq, Eq, Structural)]
pub struct ShapedGlyph {
    pub glyph_id: u32,
    pub cluster: u32,
    pub x_advance: i32,
    pub y_advance: i32,
    pub x_offset: i32,
    pub y_offset: i32,
}

/// The glyph `g` with its cluster offset rebased by `base`.
pub open spec fn rebase_glyph(g: ShapedGlyph, base: u32) -> ShapedGlyph {
    ShapedGlyph {
        glyph_id: g.glyph_id,
        cluster: (g.cluster + base) as u32,
        x_advance: g.x_advance,
        y_advance: g.y_advance,
        x_offset: g.x_offset,
        y_offset: g.y_offset,
    }
}

/// The glyphs of one run with their cluster offsets rebased by the run's
/// starting byte offset in the paragraph.
pub open spec fn rebased_run(glyphs: Seq<ShapedGlyph>, base: u32) -> Seq<ShapedGlyph> {
    glyphs.map_values(|g: ShapedGlyph| rebase_glyph(g, base))
}

/// The paragraph-wide glyph sequence: each run's glyphs rebased by the
/// run's starting offset, concatenated in run order.
pub open spec fn concat_rebased(runs: Seq<Run>, rg: Seq<Seq<ShapedGlyph>>) -> Seq<ShapedGlyph>
    recommends
        rg.len() <= runs.len(),
    decreases rg.len(),
{
    if rg.len() == 0 {
        Seq::empty()
    } else {
        concat_rebased(runs, rg.drop_last()) + rebased_run(rg.last(), runs[rg.len() - 1].begin)
    }
}

/// The paragraph line skip: the maximum of the runs' line skips, at least 0.
pub open spec fn max_lineskip(skips: Seq<i32>) -> int
    decreases skips.len(),
{
    if skips.len() == 0 {
        0
    } else {
        let rest = max_lineskip(skips.drop_last());
        if skips.last() > rest {
            skips.last() as int
        } else {
            rest
        }
    }
}

/// The paragraph line skip is never negative.
pub proof fn lemma_max_lineskip_nonneg(skips: Seq<i32>)
    ensures
        0 <= max_lineskip(skips),
    decreases skips.len(),
{
    if skips.len() > 0 {
        lemma_max_lineskip_nonneg(skips.drop_last());
    }
}

/// True when every glyph's run-local cluster offset points into its run's
/// text, and clusters are non-decreasing within each run (horizontal
/// left-to-right layout).
pub open spec fn run_glyphs_wf(runs: Seq<Run>, rg: Seq<Seq<ShapedGlyph>>) -> bool {
    &&& rg.len() == runs.len()
    &&& forall|i: int, j: int|
        0 <= i < rg.len() && 0 <= j < rg[i].len() ==> (#[trigger] rg[i][j]).cluster < runs[i].end
            - runs[i].begin
    &&& forall|i: int, j1: int, j2: int|
        0 <= i < rg.len() && 0 <= j1 <= j2 < rg[i].len() ==> (#[trigger] rg[i][j1]).cluster <= (
        #[trigger] rg[i][j2]).cluster
}

/// Glyph cluster offsets are non-decreasing along a sequence.
pub open spec fn clusters_sorted(s: Seq<ShapedGlyph>) -> bool {
    forall|k1: int, k2: int|
        0 <= k1 <= k2 < s.len() ==> (#[trigger] s[k1]).cluster <= (#[trigger] s[k2]).cluster
}

/// Rebases every run's shaped glyphs into paragraph coordinates,
/// concatenates them, and pairs the result with boundary offsets (each
/// glyph's cluster, closed by the text length) and the paragraph's line
/// skip: the maximum of the per-run line skips.
///
/// Cluster monotonicity holds of the result: the rebased, concatenated
/// cluster offsets are non-decreasing across run boundaries
/// (`clusters_sorted`), so the glyph segmentation is well formed.
pub fn shape_styled_paragraph(
    para: &StyledParagraph,
    run_glyphs: &Vec<Vec<ShapedGlyph>>,
    run_lineskips: &Vec<i32>,
) -> (r: (Segmentation<ShapedGlyph>, i32))
    requires
        para.wf(),
        run_glyphs@.len() == para.runs@.len(),
        run_lineskips@.len() == para.runs@.len(),
        run_glyphs_wf(para.runs@, run_glyphs@.map_values(|v: Vec<ShapedGlyph>| v@)),
    ensures
        r.0.wf(),
        r.0.data@ == concat_rebased(para.runs@, run_glyphs@.map_values(|v: Vec<ShapedGlyph>| v@)),
        clusters_sorted(r.0.data@),
        forall|k: int|
            0 <= k < r.0.data@.len() ==> r.0.index@[k] == (#[trigger] r.0.data@[k]).cluster,
        r.0.index@.len() == r.0.data@.len() + 1,
        r.0.index@.last() == para.text@.len(),
        r.1 == max_lineskip(run_lineskips@),
{
    let ghost rgv = run_glyphs@.map_values(|v: Vec<ShapedGlyph>| v@);
    let ghost runs = para.runs@;
    let mut data: Vec<ShapedGlyph> = Vec::new();
    let mut skip: i32 = 0;
    let nruns = run_glyphs.len();
    let mut i: usize = 0;
    proof {
        assert(rgv.take(0) =~= Seq::<Seq<ShapedGlyph>>::empty());
    }
    while i < nruns
        invariant
            para.wf(),
            runs == para.runs@,
            nruns == runs.len(),
            run_glyphs@.len() == nruns,
            run_lineskips@.len() == nruns,
            rgv == run_glyphs@.map_values(|v: Vec<ShapedGlyph>| v@),
            run_glyphs_wf(runs, rgv),
            i <= nruns,
            data@ == concat_rebased(runs, rgv.take(i as int)),
            clusters_sorted(data@),
            i == 0 ==> data@.len() == 0,
            i > 0 ==> forall|k: int|
                0 <= k < data@.len() ==> (#[trigger] data@[k]).cluster < runs[i - 1].end,
            skip == max_lineskip(run_lineskips@.take(i as int)),
        decreases nruns - i,
    {
        let base = para.runs[i].begin;
        let glyphs = &run_glyphs[i];
        let mut j: usize = 0;
        let ghost data0 = data@;
        let ghost reb = rebased_run(rgv[i as int], base);
        while j < glyphs.len()
            invariant
                para.wf(),
                runs == para.runs@,
                0 <= i < rgv.len(),
                rgv.len() == runs.len(),
                run_glyphs_wf(runs, rgv),
                glyphs@ == rgv[i as int],
                base == runs[i as int].begin,
                reb == rebased_run(rgv[i as int], base),
                j <= glyphs@.len(),
                data@ == data0 + reb.subrange(0, j as int),
                clusters_sorted(data0),
                i == 0 ==> data0.len() == 0,
                i > 0 ==> forall|k: int|
                    0 <= k < data0.len() ==> (#[trigger] data0[k]).cluster < runs[i - 1].end,
                i > 0 ==> runs[i - 1].end == runs[i as int].begin,
                clusters_sorted(data@),
                forall|k: int|
                    data0.len() <= k < data@.len() ==> base <= (#[trigger] data@[k]).cluster
                        < runs[i as int].end,
            decreases glyphs@.len() - j,
        {
            let g = glyphs[j];
            proof {
                assert(rgv[i as int][j as int].cluster < runs[i as int].end - runs[i as int].begin);
            }
            let ng = ShapedGlyph {
                glyph_id: g.glyph_id,
                cluster: g.cluster + base,
                x_advance: g.x_advance,
                y_advance: g.y_advance,
                x_offset: g.x_offset,
                y_offset: g.y_offset,
            };
            let ghost pre = data@;
            data.push(ng);
            proof {
                assert(ng == rebase_glyph(rgv[i as int][j as int], base));
                assert(reb[j as int] == rebase_glyph(rgv[i as int][j as int], base));
                assert(data0 + reb.subrange(0, j + 1) =~= (data0 + reb.subrange(0, j as int)).push(
                    reb[j as int],
                ));
                assert forall|k1: int, k2: int| 0 <= k1 <= k2 < data@.len() implies (
                #[trigger] data@[k1]).cluster <= (#[trigger] data@[k2]).cluster by {
                    if k2 == data@.len() - 1 && k1 < k2 {
                        if k1 >= data0.len() {
                            let j1 = k1 - data0.len();
                            assert(rgv[i as int][j1].cluster <= rgv[i as int][j as int].cluster);
                            assert(pre[k1] == rebase_glyph(rgv[i as int][j1], base));
                        }
                    } else if k2 < data@.len() - 1 {
                        assert(pre[k1].cluster <= pre[k2].cluster);
                    }
                }
            }
            j = j + 1;
        }
        let s = run_lineskips[i];
        if s > skip {
            skip = s;
        }
        proof {
            assert(reb.subrange(0, reb.len() as int) =~= reb);
            assert(rgv.take(i + 1).drop_last() =~= rgv.take(i as int));
            assert(rgv.take(i + 1).last() =~= rgv[i as int]);
            assert(data@ == concat_rebased(runs, rgv.take(i + 1)));
            assert(run_lineskips@.take(i + 1).drop_last() =~= run_lineskips@.take(i as int));
            assert forall|k: int| 0 <= k < data@.len() implies (#[trigger] data@[k]).cluster
                < runs[i as int].end by {
                if k < data0.len() {
                    assert(data0[k].cluster < runs[i as int].begin);
                }
            }
        }
        i = i + 1;
    }
    proof {
        assert(rgv.take(nruns as int) =~= rgv);
        assert(run_lineskips@.take(nruns as int) =~= run_lineskips@);
    }
    let mut index: Vec<u32> = Vec::new();
    let mut k: usize = 0;
    while k < data.len()
        invariant
            data@ == concat_rebased(runs, rgv),
            clusters_sorted(data@),
            k <= data@.len(),
            index@.len() == k,
            forall|q: int| 0 <= q < k ==> index@[q] == (#[trigger] data@[q]).cluster,
        decreases data@.len() - k,
    {
        index.push(data[k].cluster);
        k = k + 1;
    }
    let last = para.text.len() as u32;
    let ghost nglyphs = data@.len();
    proof {
        if nglyphs > 0 {
            assert(data@[nglyphs - 1].cluster < runs[nruns - 1].end);
        }
        assert forall|p: int, q: int| 0 <= p <= q < index@.push(last).len() implies index@.push(
            last,
        )[p] <= index@.push(last)[q] by {
            if q < nglyphs {
                assert(data@[p].cluster <= data@[q].cluster);
            } else if p < nglyphs {
                assert(data@[p].cluster <= data@[nglyphs - 1].cluster);
            }
        }
    }
    index.push(last);
    (Segmentation { data, index }, skip)
}

/// The style-run segmentation: span `i` is run `i`'s byte span, carrying
/// the run's index as payload.
pub fn gen_style_segmentation(para: &StyledParagraph) -> (r: Segmentation<usize>)
    requires
        para.wf(),
    ensures
        r.wf(),
        r.data@.len() == para.runs@.len(),
        forall|i: int| 0 <= i < r.data@.len() ==> r.data@[i] == i,
        forall|i: int| 0 <= i < para.runs@.len() ==> r.index@[i] == (#[trigger] para.runs@[i]).begin,
        r.index@.last() == para.text@.len(),
{
    let mut data: Vec<usize> = Vec::new();
    let mut index: Vec<u32> = Vec::new();
    let n = para.runs.len();
    let mut i: usize = 0;
    while i < n
        invariant
            para.wf(),
            n == para.runs@.len(),
            i <= n,
            data@.len() == i,
            index@.len() == i,
            forall|q: int| 0 <= q < i ==> data@[q] == q,
            forall|q: int| 0 <= q < i ==> index@[q] == (#[trigger] para.runs@[q]).begin,
            boundaries_sorted(index@),
            i > 0 ==> index@.last() == para.runs@[i - 1].begin,
        decreases n - i,
    {
        data.push(i);
        proof {
            if i > 0 {
                assert(para.runs@[i - 1].begin <= para.runs@[i - 1].end);
                assert(para.runs@[i - 1].end == para.runs@[i as int].begin);
            }
            lemma_sorted_push(index@, para.runs@[i as int].begin);
        }
        index.push(para.runs[i].begin);
        i = i + 1;
    }
    let last = para.text.len() as u32;
    proof {
        if n > 0 {
            assert(para.runs@[n - 1].begin <= para.runs@[n - 1].end);
        }
        lemma_sorted_push(index@, last);
    }
    index.push(last);
    Segmentation { data, index }
}

} // verus!
