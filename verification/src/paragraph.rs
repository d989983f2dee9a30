//! Styled paragraphs: an ordered list of `(locale, style, byte span)` runs
//! over one shared, NFD-normalized text buffer, and the discovery of
//! line-break candidate boundaries over that text.

use vstd::prelude::*;
use vstd::utf8::{is_char_boundary, valid_utf8};
use crate::geom::Color;
use crate::script::Locale;
use crate::segmentation::{boundaries_sorted, lemma_sorted_push, Segmentation};
use crate::unicode::{
    lb_boundaries, line_break_boundaries, nfd_bytes, nfd_str, trim_start_ws, trimmed_end_len,
    ws_trimmed_end_len, ws_trimmed_start,
};

verus! {

/// Per-run rendering parameters. `subpixel` is the subpixel-resolution
/// denominator (number of discrete horizontal phases, legal range 1 to 64);
/// `weight` is the variable-font weight-axis coordinate on a 0 to 1000
/// scale; `features` holds packed OpenType feature tags (see `make_tag`).
#[derive(Debug)]
pub struct Style {
    pub font_idx: u32,
    pub size: u32,
    pub weight: u32,
    pub color: Color,
    pub autohint: bool,
    pub subpixel: i32,
    pub features: Vec<u32>,
}

impl Style {
    /// The configuration a style must satisfy: a subpixel denominator in
    /// its legal range.
    pub open spec fn wf(&self) -> bool {
        1 <= self.subpixel <= 64
    }
}

impl Clone for Style {
    /// An exact copy of the style, with its feature list.
    fn clone(&self) -> (r: Self)
        ensures
            r.font_idx == self.font_idx,
            r.size == self.size,
            r.weight == self.weight,
            r.color == self.color,
            r.autohint == self.autohint,
            r.subpixel == self.subpixel,
            r.features@ == self.features@,
    {
        let mut features: Vec<u32> = Vec::new();
        let mut i: usize = 0;
        while i < self.features.len()
            invariant
                i <= self.features@.len(),
                features@ == self.features@.subrange(0, i as int),
            decreases self.features@.len() - i,
        {
            features.push(self.features[i]);
            i = i + 1;
        }
        proof {
            assert(features@ =~= self.features@);
        }
        Style {
            font_idx: self.font_idx,
            size: self.size,
            weight: self.weight,
            color: self.color,
            autohint: self.autohint,
            subpixel: self.subpixel,
            features,
        }
    }
}

/// One style run: a locale and style applied to the byte span
/// `[begin, end)` of the paragraph text.
#[derive(Debug, Clone)]
pub struct Run {
    pub locale: Locale,
    pub style: Style,
    pub begin: u32,
    pub end: u32,
}

/// True when the runs tile `[0, total)` in order without gaps.
pub open spec fn runs_contiguous(runs: Seq<Run>, total: int) -> bool {
    &&& forall|i: int| 0 <= i < runs.len() ==> #[trigger] runs[i].begin <= runs[i].end
    &&& forall|i: int| 0 <= i < runs.len() - 1 ==> #[trigger] runs[i].end == runs[i + 1].begin
    &&& if runs.len() == 0 {
        total == 0
    } else {
        runs[0].begin == 0 && runs[runs.len() - 1].end == total
    }
}

/// A paragraph: an append-only list of style runs over one shared text
/// buffer, held as NFD-normalized UTF-8 bytes. The first run's leading
/// whitespace is stripped when it is added.
#[derive(Debug)]
pub struct StyledParagraph {
    pub text: Vec<u8>,
    pub runs: Vec<Run>,
}

impl StyledParagraph {
    /// The paragraph invariant: valid UTF-8 text whose length fits the
    /// `u32` span arithmetic, tiled by contiguous runs with well-formed
    /// styles.
    pub open spec fn wf(&self) -> bool {
        &&& valid_utf8(self.text@)
        &&& self.text@.len() <= u32::MAX
        &&& runs_contiguous(self.runs@, self.text@.len() as int)
        &&& forall|i: int| 0 <= i < self.runs@.len() ==> (#[trigger] self.runs@[i].style).wf()
    }

    /// An empty paragraph.
    pub fn new() -> (p: StyledParagraph)
        ensures
            p.wf(),
            p.text@.len() == 0,
            p.runs@.len() == 0,
    {
        StyledParagraph { text: Vec::new(), runs: Vec::new() }
    }

    /// Appends one run: `input` is canonically decomposed (NFD) and added
    /// to the text buffer, and the new run records its byte span. For the
    /// first run, leading whitespace is stripped first. Returns `false`
    /// and leaves the paragraph unchanged when the grown text would
    /// overflow the `u32` span range.
    pub fn add(&mut self, locale: Locale, style: Style, input: &str) -> (ok: bool)
        requires
            old(self).wf(),
            style.wf(),
        ensures
            final(self).wf(),
            ({
                let appended = if old(self).text@.len() == 0 {
                    nfd_bytes(ws_trimmed_start(input@))
                } else {
                    nfd_bytes(input@)
                };
                if old(self).text@.len() + appended.len() <= u32::MAX {
                    &&& ok
                    &&& final(self).text@ == old(self).text@ + appended
                    &&& final(self).runs@ == old(self).runs@.push(
                        Run {
                            locale,
                            style,
                            begin: old(self).text@.len() as u32,
                            end: (old(self).text@.len() + appended.len()) as u32,
                        },
                    )
                } else {
                    &&& !ok
                    &&& final(self).text@ == old(self).text@
                    &&& final(self).runs@ == old(self).runs@
                }
            }),
    {
        let begin = self.text.len();
        let chunk: Vec<u8> = if begin == 0 {
            nfd_str(trim_start_ws(input))
        } else {
            nfd_str(input)
        };
        if chunk.len() > u32::MAX as usize - begin {
            return false;
        }
        let mut i: usize = 0;
        proof {
            assert(self.text@ + chunk@.subrange(0, 0) =~= self.text@);
        }
        while i < chunk.len()
            invariant
                i <= chunk@.len(),
                self.text@ == old(self).text@ + chunk@.subrange(0, i as int),
                self.runs@ == old(self).runs@,
            decreases chunk@.len() - i,
        {
            self.text.push(chunk[i]);
            proof {
                assert(old(self).text@ + chunk@.subrange(0, i + 1) =~= (old(self).text@
                    + chunk@.subrange(0, i as int)).push(chunk@[i as int]));
            }
            i = i + 1;
        }
        proof {
            assert(chunk@.subrange(0, chunk@.len() as int) =~= chunk@);
            vstd::utf8::valid_utf8_concat(old(self).text@, chunk@);
        }
        let end = self.text.len();
        self.runs.push(Run { locale, style, begin: begin as u32, end: end as u32 });
        true
    }

    /// The line-break candidate boundaries of the paragraph text: the UAX
    /// #14 boundaries of the end-trimmed text, each candidate span split at
    /// the end of its trailing whitespace. Even-position boundaries start a
    /// breakable span ("word"), odd-position boundaries start its trailing
    /// whitespace, so the list pairs word and whitespace sub-spans.
    pub fn linebreak_candidates(&self) -> (r: Segmentation<()>)
        requires
            self.wf(),
        ensures
            r.data@.len() == 0,
            boundaries_sorted(r.index@),
            forall|i: int| 0 <= i < r.index@.len() ==> r.index@[i] <= self.text@.len(),
            ({
                let bs = lb_boundaries(self.text@.subrange(0, ws_trimmed_end_len(self.text@)));
                &&& r.index@.len() == 2 * (bs.len() - 1)
                &&& forall|i: int|
                    0 <= i < bs.len() - 1 ==> r.index@[2 * i] == #[trigger] bs[i] && r.index@[2 * i
                        + 1] == bs[i] + ws_trimmed_end_len(
                        self.text@.subrange(bs[i] as int, bs[i + 1] as int),
                    )
            }),
    {
        let n = self.text.len();
        proof {
            vstd::utf8::is_char_boundary_start_end_of_seq(self.text@);
        }
        let t_end = trimmed_end_len(self.text.as_slice(), 0, n);
        proof {
            assert(self.text@.subrange(0, n as int) =~= self.text@);
        }
        let bs = line_break_boundaries(self.text.as_slice(), t_end);
        let ghost bss = lb_boundaries(self.text@.subrange(0, ws_trimmed_end_len(self.text@)));
        let mut index: Vec<u32> = Vec::new();
        let count = bs.len() - 1;
        let mut i: usize = 0;
        while i < count
            invariant
                self.wf(),
                bs@ == bss,
                count == bs@.len() - 1,
                i <= count,
                bs@[0] == 0,
                forall|p: int, q: int| 0 <= p < q < bs@.len() ==> bs@[p] < bs@[q],
                forall|p: int|
                    0 <= p < bs@.len() ==> bs@[p] <= self.text@.len() && is_char_boundary(
                        self.text@,
                        bs@[p] as int,
                    ),
                index@.len() == 2 * i,
                boundaries_sorted(index@),
                forall|k: int|
                    0 <= k < i ==> index@[2 * k] == #[trigger] bs@[k] && index@[2 * k + 1] == bs@[k]
                        + ws_trimmed_end_len(self.text@.subrange(bs@[k] as int, bs@[k + 1] as int)),
                forall|k: int| 0 <= k < index@.len() ==> index@[k] <= self.text@.len(),
                index@.len() > 0 ==> index@.last() <= bs@[i as int],
            decreases count - i,
        {
            let l = bs[i];
            let rr = bs[i + 1];
            let m = trimmed_end_len(self.text.as_slice(), l as usize, rr as usize);
            proof {
                lemma_sorted_push(index@, l);
            }
            index.push(l);
            proof {
                lemma_sorted_push(index@, (l + m as u32) as u32);
            }
            index.push(l + m as u32);
            i = i + 1;
        }
        Segmentation { data: Vec::new(), index }
    }

    /// The end of the byte span `[begin, end)` with its trailing whitespace
    /// removed. Both ends must lie on character boundaries.
    pub fn trim_end_idx(&self, begin: u32, end: u32) -> (r: u32)
        requires
            self.wf(),
            begin <= end <= self.text@.len(),
            is_char_boundary(self.text@, begin as int),
            is_char_boundary(self.text@, end as int),
        ensures
            r == begin + ws_trimmed_end_len(self.text@.subrange(begin as int, end as int)),
            begin <= r <= end,
    {
        let m = trimmed_end_len(self.text.as_slice(), begin as usize, end as usize);
        begin + m as u32
    }
}

} // verus!
