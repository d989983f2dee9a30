//! The line breaker: measures the shaped advance width of each line-break
//! candidate span, then greedily assigns word/whitespace span pairs to
//! lines under a maximum width.

use vstd::prelude::*;
use crate::paragraph::StyledParagraph;
use crate::segmentation::{boundaries_sorted, Segmentation};
use crate::shape::ShapedGlyph;
use crate::unicode::{lb_boundaries, ws_trimmed_end_len};

verus! {

/// The advance sum of glyphs `g..` of the sequence.
pub open spec fn sum_adv_from(glyphs: Seq<ShapedGlyph>, g: int) -> int
    decreases glyphs.len() - g,
{
    if g < 0 || g >= glyphs.len() {
        0
    } else {
        glyphs[g].x_advance + sum_adv_from(glyphs, g + 1)
    }
}

/// The advance sum of a glyph suffix is nonnegative when every advance is.
pub proof fn lemma_sum_adv_nonneg(glyphs: Seq<ShapedGlyph>, g: int)
    requires
        forall|k: int| 0 <= k < glyphs.len() ==> 0 <= (#[trigger] glyphs[k]).x_advance,
    ensures
        0 <= sum_adv_from(glyphs, g),
    decreases glyphs.len() - g,
{
    if 0 <= g < glyphs.len() {
        lemma_sum_adv_nonneg(glyphs, g + 1);
    }
}

/// The width of one candidate span ending at boundary `r`, measured from
/// glyph `g` on: advances accumulate until a glyph whose span end reaches
/// `r` is consumed. Yields the width and the next unconsumed glyph.
pub open spec fn span_measure(
    shaped_index: Seq<u32>,
    glyphs: Seq<ShapedGlyph>,
    g: int,
    r: u32,
) -> (int, int)
    decreases glyphs.len() - g,
{
    if g < 0 || g >= glyphs.len() {
        (0, g)
    } else if shaped_index[g + 1] >= r {
        (glyphs[g].x_advance as int, g + 1)
    } else {
        let rec = span_measure(shaped_index, glyphs, g + 1, r);
        (glyphs[g].x_advance + rec.0, rec.1)
    }
}

/// The widths of candidate spans `s..`, measured left to right with one
/// shared walk over the shaped glyphs starting at glyph `g`.
pub open spec fn measure_all(
    cand_index: Seq<u32>,
    shaped_index: Seq<u32>,
    glyphs: Seq<ShapedGlyph>,
    s: int,
    g: int,
) -> Seq<int>
    decreases cand_index.len() - s,
{
    if s < 0 || s >= cand_index.len() - 1 {
        Seq::empty()
    } else {
        let m = span_measure(shaped_index, glyphs, g, cand_index[s + 1]);
        seq![m.0] + measure_all(cand_index, shaped_index, glyphs, s + 1, m.1)
    }
}

/// Measures the advance width of every line-break candidate span of the
/// paragraph: the returned segmentation carries the candidate boundaries of
/// `StyledParagraph::linebreak_candidates` and, per span, the summed
/// advance of the shaped glyphs assigned to it. Widths are nonnegative and
/// their total never exceeds the total shaped advance.
pub fn line_break_lengths(
    para: &StyledParagraph,
    shaped: &Segmentation<ShapedGlyph>,
) -> (r: Segmentation<i32>)
    requires
        para.wf(),
        shaped.wf(),
        forall|k: int| 0 <= k < shaped.data@.len() ==> 0 <= (#[trigger] shaped.data@[k]).x_advance,
        sum_adv_from(shaped.data@, 0) <= i32::MAX,
    ensures
        boundaries_sorted(r.index@),
        r.data@.len() == (if r.index@.len() == 0 { 0int } else { r.index@.len() - 1 }),
        forall|i: int| 0 <= i < r.index@.len() ==> r.index@[i] <= para.text@.len(),
        ({
            let bs = lb_boundaries(para.text@.subrange(0, ws_trimmed_end_len(para.text@)));
            &&& r.index@.len() == 2 * (bs.len() - 1)
            &&& forall|i: int|
                0 <= i < bs.len() - 1 ==> r.index@[2 * i] == #[trigger] bs[i] && r.index@[2 * i
                    + 1] == bs[i] + ws_trimmed_end_len(
                    para.text@.subrange(bs[i] as int, bs[i + 1] as int),
                )
        }),
        r.data@.map_values(|w: i32| w as int) == measure_all(
            r.index@,
            shaped.index@,
            shaped.data@,
            0,
            0,
        ),
        forall|k: int| 0 <= k < r.data@.len() ==> 0 <= #[trigger] r.data@[k],
        sum_widths_from(r.data@, 0) <= sum_adv_from(shaped.data@, 0),
{
    let linebreaks = para.linebreak_candidates();
    let index = linebreaks.index;
    let nspans = if index.len() == 0 {
        0
    } else {
        index.len() - 1
    };
    let nglyphs = shaped.data.len();
    let ghost glyphs = shaped.data@;
    let ghost sidx = shaped.index@;
    let ghost total = sum_adv_from(glyphs, 0);
    let mut data: Vec<i32> = Vec::new();
    let mut g: usize = 0;
    let mut s: usize = 0;
    proof {
        assert(data@.map_values(|w: i32| w as int) =~= Seq::<int>::empty());
        lemma_sum_adv_nonneg(glyphs, 0);
    }
    while s < nspans
        invariant
            shaped.wf(),
            glyphs == shaped.data@,
            sidx == shaped.index@,
            nglyphs == glyphs.len(),
            forall|k: int| 0 <= k < glyphs.len() ==> 0 <= (#[trigger] glyphs[k]).x_advance,
            total == sum_adv_from(glyphs, 0),
            total <= i32::MAX,
            index@.len() >= 1 ==> nspans == index@.len() - 1,
            index@.len() == 0 ==> nspans == 0,
            s <= nspans,
            g <= nglyphs,
            data@.len() == s,
            forall|k: int| 0 <= k < data@.len() ==> 0 <= #[trigger] data@[k],
            data@.map_values(|w: i32| w as int) + measure_all(index@, sidx, glyphs, s as int, g as int)
                == measure_all(index@, sidx, glyphs, 0, 0),
            0 <= sum_widths_from(data@, 0),
            sum_widths_from(data@, 0) + sum_adv_from(glyphs, g as int) <= total,
        decreases nspans - s,
    {
        let rr = index[s + 1];
        let mut length: i32 = 0;
        let ghost g0 = g;
        while g < nglyphs && shaped.index[g + 1] < rr
            invariant
                shaped.wf(),
                glyphs == shaped.data@,
                sidx == shaped.index@,
                nglyphs == glyphs.len(),
                forall|k: int| 0 <= k < glyphs.len() ==> 0 <= (#[trigger] glyphs[k]).x_advance,
                total == sum_adv_from(glyphs, 0),
                total <= i32::MAX,
                g0 <= g <= nglyphs,
                0 <= length,
                span_measure(sidx, glyphs, g0 as int, rr).0 == length + span_measure(
                    sidx,
                    glyphs,
                    g as int,
                    rr,
                ).0,
                span_measure(sidx, glyphs, g0 as int, rr).1 == span_measure(
                    sidx,
                    glyphs,
                    g as int,
                    rr,
                ).1,
                sum_widths_from(data@, 0) + length + sum_adv_from(glyphs, g as int) <= total,
                0 <= sum_widths_from(data@, 0),
            decreases nglyphs - g,
        {
            proof {
                lemma_sum_adv_nonneg(glyphs, g + 1);
            }
            length = length + shaped.data[g].x_advance;
            g = g + 1;
        }
        if g < nglyphs {
            proof {
                lemma_sum_adv_nonneg(glyphs, g + 1);
            }
            length = length + shaped.data[g].x_advance;
            g = g + 1;
        }
        let ghost ms = measure_all(index@, sidx, glyphs, s as int, g0 as int);
        proof {
            assert(ms == seq![span_measure(sidx, glyphs, g0 as int, rr).0] + measure_all(
                index@,
                sidx,
                glyphs,
                s + 1,
                span_measure(sidx, glyphs, g0 as int, rr).1,
            ));
            assert(span_measure(sidx, glyphs, g0 as int, rr).0 == length);
            assert(span_measure(sidx, glyphs, g0 as int, rr).1 == g as int);
        }
        let ghost dpre = data@;
        data.push(length);
        proof {
            assert(data@.map_values(|w: i32| w as int) =~= dpre.map_values(|w: i32| w as int).push(
                length as int,
            ));
            assert(dpre.map_values(|w: i32| w as int) + (seq![length as int] + measure_all(
                index@,
                sidx,
                glyphs,
                s + 1,
                g as int,
            )) =~= data@.map_values(|w: i32| w as int) + measure_all(
                index@,
                sidx,
                glyphs,
                s + 1,
                g as int,
            ));
            lemma_sum_widths_push(dpre, length);
        }
        s = s + 1;
    }
    proof {
        assert(measure_all(index@, sidx, glyphs, nspans as int, g as int) =~= Seq::<int>::empty());
        assert(data@.map_values(|w: i32| w as int) + Seq::<int>::empty() =~= data@.map_values(
            |w: i32| w as int,
        ));
        lemma_sum_adv_nonneg(glyphs, g as int);
    }
    Segmentation { data, index }
}

/// The width sum of spans `k..` of the measured data.
pub open spec fn sum_widths_from(data: Seq<i32>, k: int) -> int
    decreases data.len() - k,
{
    if k < 0 || k >= data.len() {
        0
    } else {
        data[k] + sum_widths_from(data, k + 1)
    }
}

/// Appending a width adds it to the sum.
proof fn lemma_sum_widths_push(data: Seq<i32>, w: i32)
    ensures
        sum_widths_from(data.push(w), 0) == sum_widths_from(data, 0) + w,
{
    lemma_sum_widths_push_from(data, w, 0);
}

proof fn lemma_sum_widths_push_from(data: Seq<i32>, w: i32, k: int)
    requires
        0 <= k <= data.len(),
    ensures
        sum_widths_from(data.push(w), k) == sum_widths_from(data, k) + w,
    decreases data.len() - k,
{
    if k < data.len() {
        lemma_sum_widths_push_from(data, w, k + 1);
    } else {
        assert(data.push(w)[k] == w);
        assert(sum_widths_from(data.push(w), k + 1) == 0);
    }
}

/// The width sum of a slice of the measured data is nonnegative when every
/// width is.
proof fn lemma_sum_widths_nonneg(data: Seq<i32>, k: int)
    requires
        forall|q: int| 0 <= q < data.len() ==> 0 <= #[trigger] data[q],
    ensures
        0 <= sum_widths_from(data, k),
    decreases data.len() - k,
{
    if 0 <= k < data.len() {
        lemma_sum_widths_nonneg(data, k + 1);
    }
}

/// The word/whitespace span pairs of a measured candidate segmentation:
/// per pair, the boundary at which its word starts, the word width and the
/// whitespace width. A trailing word without whitespace gets a zero-width
/// whitespace, keeping the pairing invariant.
pub open spec fn width_pairs(index: Seq<u32>, data: Seq<i32>) -> Seq<(u32, int, int)> {
    Seq::new(
        ((data.len() + 1) / 2) as nat,
        |p: int|
            (
                index[2 * p],
                data[2 * p] as int,
                if 2 * p + 1 < data.len() {
                    data[2 * p + 1] as int
                } else {
                    0
                },
            ),
    )
}

/// The accumulated width (words and whitespace) of pairs `[from, to)`.
pub open spec fn pair_sum(pairs: Seq<(u32, int, int)>, from: int, to: int) -> int
    decreases to - from,
{
    if from >= to || from < 0 || to > pairs.len() {
        0
    } else {
        pairs[from].1 + pairs[from].2 + pair_sum(pairs, from + 1, to)
    }
}

/// Extending the summed range by one pair adds that pair's width.
proof fn lemma_pair_sum_snoc(pairs: Seq<(u32, int, int)>, from: int, to: int)
    requires
        0 <= from <= to < pairs.len(),
    ensures
        pair_sum(pairs, from, to + 1) == pair_sum(pairs, from, to) + pairs[to].1 + pairs[to].2,
    decreases to - from,
{
    if from < to {
        lemma_pair_sum_snoc(pairs, from + 1, to);
    } else {
        assert(pair_sum(pairs, to + 1, to + 1) == 0);
    }
}

/// The break points the greedy (first-fit) wrap chooses, as pair indices:
/// processing pairs from `p` on with the current line started at pair `b`,
/// a break is placed before any pair whose word would push the line past
/// `max`, and that pair starts the next line.
pub open spec fn greedy_idxs(pairs: Seq<(u32, int, int)>, max: int, b: int, p: int) -> Seq<int>
    decreases pairs.len() - p,
{
    if p < 0 || p >= pairs.len() || b < 0 || b > p {
        Seq::empty()
    } else if pair_sum(pairs, b, p) + pairs[p].1 > max {
        seq![p] + greedy_idxs(pairs, max, p, p + 1)
    } else {
        greedy_idxs(pairs, max, b, p + 1)
    }
}

/// Greedy wrap invariant: the chosen break points, processed from state
/// `(b, p)`, are strictly increasing pair indices, and between consecutive
/// breaks every accepted pair keeps its line's accumulated width, measured
/// through that pair's word, within `max`. Only a pair that itself starts a
/// line - the first of the paragraph or one a break was placed before -
/// may overflow (a single word wider than the line is never split).
pub proof fn lemma_greedy_wrap(pairs: Seq<(u32, int, int)>, max: int, b: int, p: int)
    requires
        0 <= b <= p <= pairs.len(),
    ensures
        ({
            let bs = greedy_idxs(pairs, max, b, p);
            &&& forall|k: int| 0 <= k < bs.len() ==> p <= #[trigger] bs[k] < pairs.len()
            &&& forall|k1: int, k2: int| 0 <= k1 < k2 < bs.len() ==> bs[k1] < bs[k2]
            &&& forall|q: int|
                p <= q < pairs.len() && (bs.len() == 0 || q < bs[0]) ==> pair_sum(pairs, b, q)
                    + pairs[q].1 <= max
            &&& forall|k: int, q: int|
                0 <= k < bs.len() && bs[k] < q < pairs.len() && (k == bs.len() - 1 || q < bs[k
                    + 1]) ==> pair_sum(pairs, bs[k], q) + pairs[q].1 <= max
        }),
    decreases pairs.len() - p,
{
    let bs = greedy_idxs(pairs, max, b, p);
    if p < pairs.len() {
        if pair_sum(pairs, b, p) + pairs[p].1 > max {
            lemma_greedy_wrap(pairs, max, p, p + 1);
            let bs2 = greedy_idxs(pairs, max, p, p + 1);
            assert(bs == seq![p] + bs2);
            assert(bs[0] == p);
            assert forall|k: int| 0 <= k < bs.len() implies p <= #[trigger] bs[k]
                < pairs.len() by {
                if k > 0 {
                    assert(bs[k] == bs2[k - 1]);
                }
            }
            assert forall|k1: int, k2: int| 0 <= k1 < k2 < bs.len() implies bs[k1] < bs[k2] by {
                assert(bs[k2] == bs2[k2 - 1]);
                if k1 > 0 {
                    assert(bs[k1] == bs2[k1 - 1]);
                }
            }
            assert forall|k: int, q: int|
                0 <= k < bs.len() && bs[k] < q < pairs.len() && (k == bs.len() - 1 || q < bs[k
                    + 1]) implies pair_sum(pairs, bs[k], q) + pairs[q].1 <= max by {
                if k == 0 {
                    assert(bs[0] == p);
                    if bs2.len() > 0 {
                        assert(bs[1] == bs2[0]);
                    }
                } else {
                    assert(bs[k] == bs2[k - 1]);
                    if k < bs.len() - 1 {
                        assert(bs[k + 1] == bs2[k]);
                    }
                }
            }
        } else {
            lemma_greedy_wrap(pairs, max, b, p + 1);
            let bs2 = greedy_idxs(pairs, max, b, p + 1);
            assert(bs == bs2);
            assert forall|q: int|
                p <= q < pairs.len() && (bs.len() == 0 || q < bs[0]) implies pair_sum(
                pairs,
                b,
                q,
            ) + pairs[q].1 <= max by {
                if q > p {
                    assert(p + 1 <= q < pairs.len() && (bs2.len() == 0 || q < bs2[0]));
                }
            }
        }
    }
}

/// Chooses the greedy line breaks for the measured word/whitespace pairs:
/// the returned boundaries are the text offsets at which each new line
/// starts, in order.
pub fn greedy_breaks(widths: &Segmentation<i32>, max_line_width: i32) -> (r: Vec<u32>)
    requires
        widths.data@.len() < usize::MAX,
        widths.data@.len() == (if widths.index@.len() == 0 { 0int } else { widths.index@.len() - 1 }),
        forall|k: int| 0 <= k < widths.data@.len() ==> 0 <= #[trigger] widths.data@[k],
        sum_widths_from(widths.data@, 0) <= i32::MAX,
    ensures
        ({
            let pairs = width_pairs(widths.index@, widths.data@);
            let bs = greedy_idxs(pairs, max_line_width as int, 0, 0);
            &&& r@.len() == bs.len()
            &&& forall|k: int| 0 <= k < bs.len() ==> 0 <= #[trigger] bs[k] < pairs.len()
            &&& forall|k: int| 0 <= k < bs.len() ==> #[trigger] r@[k] == pairs[bs[k]].0
        }),
{
    let ghost pairs = width_pairs(widths.index@, widths.data@);
    let ghost max = max_line_width as int;
    let ghost total = sum_widths_from(widths.data@, 0);
    let npairs = (widths.data.len() + 1) / 2;
    let mut r: Vec<u32> = Vec::new();
    let ghost mut idxs: Seq<int> = Seq::empty();
    let mut length_so_far: i32 = 0;
    let ghost mut b: int = 0;
    let mut p: usize = 0;
    proof {
        assert(Seq::<int>::empty() + greedy_idxs(pairs, max, 0, 0) =~= greedy_idxs(
            pairs,
            max,
            0,
            0,
        ));
    }
    while p < npairs
        invariant
            pairs == width_pairs(widths.index@, widths.data@),
            max == max_line_width as int,
            total == sum_widths_from(widths.data@, 0),
            total <= i32::MAX,
            widths.data@.len() == (if widths.index@.len() == 0 {
                0int
            } else {
                widths.index@.len() - 1
            }),
            forall|k: int| 0 <= k < widths.data@.len() ==> 0 <= #[trigger] widths.data@[k],
            npairs == pairs.len(),
            npairs == (widths.data@.len() + 1) / 2,
            widths.data@.len() < usize::MAX,
            p <= npairs,
            0 <= b <= p,
            length_so_far == pair_sum(pairs, b, p as int),
            0 <= length_so_far,
            length_so_far + sum_widths_from(widths.data@, 2 * p as int) <= total,
            idxs + greedy_idxs(pairs, max, b, p as int) == greedy_idxs(pairs, max, 0, 0),
            r@.len() == idxs.len(),
            forall|k: int| 0 <= k < idxs.len() ==> 0 <= #[trigger] idxs[k] < pairs.len(),
            forall|k: int| 0 <= k < idxs.len() ==> #[trigger] r@[k] == pairs[idxs[k]].0,
        decreases npairs - p,
    {
        proof {
            assert(2 * (p as int) + 1 <= widths.data@.len());
        }
        let word = widths.data[2 * p];
        let space = if 2 * p + 1 < widths.data.len() {
            widths.data[2 * p + 1]
        } else {
            0
        };
        proof {
            assert(pairs[p as int] == (
                widths.index@[2 * p as int],
                widths.data@[2 * p as int] as int,
                if 2 * p as int + 1 < widths.data@.len() {
                    widths.data@[2 * p as int + 1] as int
                } else {
                    0int
                },
            ));
            lemma_sum_widths_nonneg(widths.data@, 2 * p as int + 2);
            lemma_sum_widths_nonneg(widths.data@, 2 * p as int + 1);
            assert(sum_widths_from(widths.data@, 2 * p as int) == word + space + sum_widths_from(
                widths.data@,
                2 * p as int + 2,
            ));
            lemma_pair_sum_snoc(pairs, b, p as int);
        }
        if length_so_far + word > max_line_width {
            let ghost idxs0 = idxs;
            let ghost r0 = r@;
            r.push(widths.index[2 * p]);
            proof {
                assert(r@ == r0.push(widths.index@[2 * (p as int)]));
                assert(greedy_idxs(pairs, max, b, p as int) == seq![p as int] + greedy_idxs(
                    pairs,
                    max,
                    p as int,
                    p as int + 1,
                ));
                assert(idxs + greedy_idxs(pairs, max, b, p as int) =~= idxs.push(p as int)
                    + greedy_idxs(pairs, max, p as int, p as int + 1));
                idxs = idxs.push(p as int);
                b = p as int;
                assert(idxs == idxs0.push(p as int));
                assert(pairs[p as int].0 == widths.index@[2 * (p as int)]);
                assert forall|k: int| 0 <= k < idxs.len() implies 0 <= #[trigger] idxs[k]
                    < pairs.len() && r@[k] == pairs[idxs[k]].0 by {
                    if k < idxs.len() - 1 {
                        assert(idxs[k] == idxs0[k]);
                        assert(r@[k] == r0[k]);
                    } else {
                        assert(idxs[k] == p as int);
                        assert(r@[k] == widths.index@[2 * (p as int)]);
                    }
                }
                assert(pair_sum(pairs, b, b) == 0);
                lemma_pair_sum_snoc(pairs, b, p as int);
            }
            length_so_far = word + space;
        } else {
            length_so_far = length_so_far + word + space;
        }
        p = p + 1;
    }
    proof {
        assert(greedy_idxs(pairs, max, b, npairs as int) =~= Seq::<int>::empty());
        assert(idxs + Seq::<int>::empty() =~= idxs);
    }
    r
}

} // verus!
