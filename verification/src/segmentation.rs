//! A generic interval index over a byte range: `index` holds N+1 boundaries
//! defining N spans, `data` holds one payload per span (or is empty when only
//! the boundaries matter, as for line-break candidates).

use vstd::prelude::*;

verus! {

/// Disjoint, ordered spans `[index[i], index[i+1])` with payloads `data[i]`.
pub struct Segmentation<T> {
    pub data: Vec<T>,
    pub index: Vec<u32>,
}

/// True when the boundary list is sorted (non-decreasing).
pub open spec fn boundaries_sorted(index: Seq<u32>) -> bool {
    forall|i: int, j: int| 0 <= i <= j < index.len() ==> index[i] <= index[j]
}

/// Appending a boundary no smaller than the last keeps the list sorted.
pub proof fn lemma_sorted_push(index: Seq<u32>, v: u32)
    requires
        boundaries_sorted(index),
        index.len() > 0 ==> index.last() <= v,
    ensures
        boundaries_sorted(index.push(v)),
{
    let s = index.push(v);
    assert forall|i: int, j: int| 0 <= i <= j < s.len() implies s[i] <= s[j] by {
        if j < index.len() {
            assert(index[i] <= index[j]);
        } else if i < index.len() {
            assert(index[i] <= index[index.len() - 1]);
        }
    }
}

impl<T> Segmentation<T> {
    /// A segmentation with payloads: one payload per span.
    pub open spec fn wf(&self) -> bool {
        &&& self.index@.len() == self.data@.len() + 1
        &&& boundaries_sorted(self.index@)
    }

    /// The `i`-th span, as a half-open byte range.
    pub open spec fn spec_span(&self, i: int) -> (u32, u32)
        recommends
            0 <= i < self.index@.len() - 1,
    {
        (self.index@[i], self.index@[i + 1])
    }

    /// The number of spans (one less than the boundary count; zero when the
    /// boundary list is empty).
    pub fn span_count(&self) -> (n: usize)
        ensures
            n == if self.index@.len() == 0 { 0int } else { self.index@.len() - 1 },
    {
        if self.index.len() == 0 {
            0
        } else {
            self.index.len() - 1
        }
    }

    /// All spans in order, each as a `(start, end)` pair.
    pub fn iter_index(&self) -> (r: Vec<(u32, u32)>)
        requires
            self.index@.len() >= 1,
        ensures
            r@.len() == self.index@.len() - 1,
            forall|i: int| 0 <= i < r@.len() ==> r@[i] == self.spec_span(i),
    {
        let n = self.index.len() - 1;
        let mut r: Vec<(u32, u32)> = Vec::new();
        let mut i: usize = 0;
        while i < n
            invariant
                n == self.index@.len() - 1,
                i <= n,
                r@.len() == i,
                forall|k: int| 0 <= k < i ==> r@[k] == self.spec_span(k),
            decreases n - i,
        {
            r.push((self.index[i], self.index[i + 1]));
            i = i + 1;
        }
        r
    }
}

impl<T: Copy> Segmentation<T> {
    /// All spans in order, paired with their payloads.
    pub fn iter(&self) -> (r: Vec<((u32, u32), T)>)
        requires
            self.wf(),
        ensures
            r@.len() == self.data@.len(),
            forall|i: int| 0 <= i < r@.len() ==> r@[i] == (self.spec_span(i), self.data@[i]),
    {
        let mut r: Vec<((u32, u32), T)> = Vec::new();
        let mut i: usize = 0;
        while i < self.data.len()
            invariant
                self.wf(),
                i <= self.data@.len(),
                r@.len() == i,
                forall|k: int| 0 <= k < i ==> r@[k] == (self.spec_span(k), self.data@[k]),
            decreases self.data@.len() - i,
        {
            r.push(((self.index[i], self.index[i + 1]), self.data[i]));
            i = i + 1;
        }
        r
    }

    /// Consecutive span pairs: for each even `i`, the merged boundaries
    /// `[start_i, end_i, end_{i+1}]` and the two payloads. Used to walk
    /// word/whitespace pairs in the line breaker; a trailing unpaired span
    /// is left out.
    pub fn chunk2(&self) -> (r: Vec<([u32; 3], [T; 2])>)
        requires
            self.wf(),
        ensures
            r@.len() == self.data@.len() / 2,
            forall|i: int| 0 <= i < r@.len() ==> r@[i] == (
                [self.index@[2 * i], self.index@[2 * i + 1], self.index@[2 * i + 2]],
                [self.data@[2 * i], self.data@[2 * i + 1]],
            ),
    {
        let pairs = self.data.len() / 2;
        let mut r: Vec<([u32; 3], [T; 2])> = Vec::new();
        let mut k: usize = 0;
        while k < pairs
            invariant
                self.wf(),
                pairs == self.data@.len() / 2,
                2 * (pairs as int) <= self.data@.len(),
                self.data@.len() <= usize::MAX,
                k <= pairs,
                r@.len() == k,
                forall|j: int| 0 <= j < k ==> r@[j] == (
                    [self.index@[2 * j], self.index@[2 * j + 1], self.index@[2 * j + 2]],
                    [self.data@[2 * j], self.data@[2 * j + 1]],
                ),
            decreases pairs - k,
        {
            let i = 2 * k;
            r.push((
                [self.index[i], self.index[i + 1], self.index[i + 2]],
                [self.data[i], self.data[i + 1]],
            ));
            k = k + 1;
        }
        r
    }
}

} // verus!
