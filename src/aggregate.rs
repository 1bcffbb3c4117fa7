//! Offset-wise aggregation over aligned promoter windows.
use vstd::prelude::*;
use crate::gc_content::{gc_count, get_gc_content};
use crate::error::Error;
use crate::gtf::Strand;
use crate::motif::{Motif, motif_len, motif_spans_from};
use crate::promoter::{PROMOTER_LEN, PromotorRegion, UPSTREAM, normalized};

verus! {

/// Length of the signal read for each promoter.
pub const SIGNAL_LEN: u32 = 1100;

/// Bases of signal read on each side of a motif center.
pub const TFBS_FLANK: u32 = 500;

/// Length of the signal read around each motif center.
pub const TFBS_SIGNAL_LEN: u32 = 1001;

/// Window of the promoter GC curve.
pub const GC_WINDOW: usize = 150;

/// Number of points of the promoter GC curve.
pub const GC_POINTS: usize = 952;

/// Values in strand order: as given on the plus strand, reversed on the minus strand.
pub fn oriented<T: Copy>(values: &[T], strand: Strand) -> (r: Vec<T>)
    ensures
        r@.len() == values@.len(),
        forall|i: int|
            0 <= i < values@.len() ==> #[trigger] r@[i] == match strand {
                Strand::Plus => values@[i],
                Strand::Minus => values@[values@.len() - 1 - i],
            },
{
    let n = values.len();
    let mut out: Vec<T> = Vec::with_capacity(n);
    let mut i: usize = 0;
    while i < n
        invariant
            n == values@.len(),
            i <= n,
            out@.len() == i,
            forall|j: int|
                0 <= j < i ==> #[trigger] out@[j] == match strand {
                    Strand::Plus => values@[j],
                    Strand::Minus => values@[n - 1 - j],
                },
        decreases n - i,
    {
        let v = match strand {
            Strand::Plus => values[i],
            Strand::Minus => values[n - 1 - i],
        };
        out.push(v);
        i = i + 1;
    }
    out
}

/// The signal interval `[location, location + SIGNAL_LEN)` of a promoter, when it fits
/// in 32-bit coordinates.
pub open spec fn promoter_interval(p: PromotorRegion) -> Option<(u32, u32)> {
    if p.location + SIGNAL_LEN as int <= u32::MAX as int {
        Some((p.location as u32, (p.location + SIGNAL_LEN as int) as u32))
    } else {
        None
    }
}

/// The signal interval `[c - TFBS_FLANK, c + TFBS_FLANK + 1)` around a motif center `c`,
/// when it starts inside the chromosome and fits in 32-bit coordinates.
pub open spec fn interval_around(c: int) -> Option<(u32, u32)> {
    if TFBS_FLANK as int <= c && c + TFBS_FLANK as int + 1 <= u32::MAX as int {
        Some(((c - TFBS_FLANK as int) as u32, (c + TFBS_FLANK as int + 1) as u32))
    } else {
        None
    }
}

impl PromotorRegion {
    /// The signal interval of the window; `None` when it leaves 32-bit coordinates.
    pub fn signal_interval(&self) -> (r: Option<(u32, u32)>)
        ensures
            r == promoter_interval(*self),
    {
        if self.location > (u32::MAX - SIGNAL_LEN) as usize {
            None
        } else {
            let lo = self.location as u32;
            Some((lo, lo + SIGNAL_LEN))
        }
    }
}

/// The signal interval around a motif center; `None` when it would start before the
/// chromosome or leave 32-bit coordinates.
pub fn tfbs_interval(center: usize) -> (r: Option<(u32, u32)>)
    ensures
        r == interval_around(center as int),
{
    if center < TFBS_FLANK as usize || center > (u32::MAX - TFBS_FLANK - 1) as usize {
        None
    } else {
        let c = center as u32;
        Some((c - TFBS_FLANK, c + TFBS_FLANK + 1))
    }
}

/// The signal interval of every promoter, in order; fails when one of them leaves
/// 32-bit coordinates.
pub fn promoter_signal_intervals(promoters: &[PromotorRegion]) -> (r: Result<Vec<(u32, u32)>, Error>)
    ensures
        match r {
            Ok(v) => v@.len() == promoters@.len() && forall|k: int|
                0 <= k < v@.len() ==> promoter_interval(promoters@[k]) == Some(#[trigger] v@[k]),
            Err(e) => e == Error::WindowOutOfBounds && exists|k: int|
                0 <= k < promoters@.len() && promoter_interval(#[trigger] promoters@[k]) is None,
        },
{
    let mut out: Vec<(u32, u32)> = Vec::with_capacity(promoters.len());
    let mut i: usize = 0;
    while i < promoters.len()
        invariant
            i <= promoters@.len(),
            out@.len() == i,
            forall|k: int| 0 <= k < i ==> promoter_interval(promoters@[k]) == Some(#[trigger] out@[k]),
        decreases promoters@.len() - i,
    {
        match promoters[i].signal_interval() {
            Some(iv) => out.push(iv),
            None => return Err(Error::WindowOutOfBounds),
        }
        i = i + 1;
    }
    Ok(out)
}

/// The motif centers of one promoter: one per occurrence, at the window's location plus
/// half the motif's length.
pub open spec fn centers_of(p: PromotorRegion, m: Motif) -> Seq<int> {
    Seq::new(motif_spans_from(m, p.sequence@, 0).len(), |k: int| p.location + motif_len(m) / 2)
}

/// The motif centers of all promoters, promoter by promoter.
pub open spec fn all_centers(ps: Seq<PromotorRegion>, m: Motif) -> Seq<int>
    decreases ps.len(),
{
    if ps.len() == 0 {
        Seq::empty()
    } else {
        all_centers(ps.drop_last(), m) + centers_of(ps.last(), m)
    }
}

/// The signal interval around every motif occurrence of every promoter, in order;
/// fails when one of them starts before the chromosome or leaves 32-bit coordinates.
pub fn tfbs_signal_intervals(promoters: &[PromotorRegion], motif: Motif) -> (r: Result<
    Vec<(u32, u32)>,
    Error,
>)
    requires
        forall|k: int| 0 <= k < promoters@.len() ==> (#[trigger] promoters@[k]).location + 3 <= usize::MAX,
    ensures
        match r {
            Ok(v) => {
                let cs = all_centers(promoters@, motif);
                &&& v@.len() == cs.len()
                &&& forall|k: int| 0 <= k < v@.len() ==> interval_around(cs[k]) == Some(#[trigger] v@[k])
            },
            Err(e) => e == Error::WindowOutOfBounds && exists|i: int, k: int|
                0 <= i < promoters@.len() && 0 <= k < centers_of(promoters@[i], motif).len()
                    && interval_around(#[trigger] centers_of(promoters@[i], motif)[k]) is None,
        },
{
    let mut out: Vec<(u32, u32)> = Vec::new();
    let mut i: usize = 0;
    while i < promoters.len()
        invariant
            i <= promoters@.len(),
            forall|k: int| 0 <= k < promoters@.len() ==> (#[trigger] promoters@[k]).location + 3 <= usize::MAX,
            out@.len() == all_centers(promoters@.take(i as int), motif).len(),
            forall|k: int|
                0 <= k < out@.len() ==> interval_around(all_centers(promoters@.take(i as int), motif)[k])
                    == Some(#[trigger] out@[k]),
        decreases promoters@.len() - i,
    {
        let ghost before = all_centers(promoters@.take(i as int), motif);
        let centers = promoters[i].tfbs_centers(motif);
        let ghost cs = centers_of(promoters@[i as int], motif);
        proof {
            assert(promoters@.take(i + 1).drop_last() =~= promoters@.take(i as int));
            assert(promoters@.take(i + 1).last() == promoters@[i as int]);
            assert(all_centers(promoters@.take(i + 1), motif) == before + cs);
        }
        let mut j: usize = 0;
        while j < centers.len()
            invariant
                i < promoters@.len(),
                j <= centers@.len() == cs.len(),
                cs == centers_of(promoters@[i as int], motif),
                forall|k: int| 0 <= k < centers@.len() ==> #[trigger] centers@[k] == cs[k],
                out@.len() == before.len() + j,
                forall|k: int| 0 <= k < out@.len() ==> interval_around((before + cs)[k]) == Some(#[trigger] out@[k]),
            decreases centers@.len() - j,
        {
            match tfbs_interval(centers[j]) {
                Some(iv) => out.push(iv),
                None => {
                    proof {
                        assert(interval_around(centers_of(promoters@[i as int], motif)[j as int]) is None);
                    }
                    return Err(Error::WindowOutOfBounds);
                },
            }
            j = j + 1;
        }
        i = i + 1;
    }
    proof {
        assert(promoters@.take(promoters@.len() as int) =~= promoters@);
    }
    Ok(out)
}

/// The counts after one more window: each observed offset counts once more.
pub open spec fn observed_counts(before: Seq<u64>, observed: Seq<bool>) -> Seq<u64> {
    Seq::new(
        before.len(),
        |i: int|
            if observed[i] {
                (before[i] + 1) as u64
            } else {
                before[i]
            },
    )
}

/// For each offset of an aligned window, how many windows had a value there.
/// The mean at an offset is defined exactly where its count is positive.
pub struct Coverage {
    pub counts: Vec<u64>,
}

impl Coverage {
    pub fn new(len: usize) -> (r: Coverage)
        ensures
            r.counts@ == Seq::new(len as nat, |i: int| 0u64),
    {
        let mut counts: Vec<u64> = Vec::with_capacity(len);
        let mut i: usize = 0;
        while i < len
            invariant
                i <= len,
                counts@ == Seq::new(i as nat, |j: int| 0u64),
            decreases len - i,
        {
            counts.push(0);
            i = i + 1;
        }
        Coverage { counts }
    }

    /// Counts one window, `observed[i]` telling whether it had a value at offset `i`.
    pub fn observe(&mut self, observed: &[bool])
        requires
            old(self).counts@.len() == observed@.len(),
            forall|i: int| 0 <= i < old(self).counts@.len() ==> #[trigger] old(self).counts@[i] < u64::MAX,
        ensures
            final(self).counts@ == observed_counts(old(self).counts@, observed@),
    {
        let n = self.counts.len();
        let ghost before = self.counts@;
        let mut i: usize = 0;
        while i < n
            invariant
                n == before.len() == observed@.len() == self.counts@.len(),
                i <= n,
                forall|j: int| 0 <= j < n ==> #[trigger] before[j] < u64::MAX,
                forall|j: int|
                    0 <= j < n ==> #[trigger] self.counts@[j] == if j < i {
                        observed_counts(before, observed@)[j]
                    } else {
                        before[j]
                    },
            decreases n - i,
        {
            if observed[i] {
                let c = self.counts[i];
                self.counts.set(i, c + 1);
            }
            i = i + 1;
        }
        assert(self.counts@ =~= observed_counts(before, observed@));
    }

    /// Whether the mean at `offset` is defined: some window had a value there.
    pub fn is_defined(&self, offset: usize) -> (r: bool)
        requires
            offset < self.counts@.len(),
        ensures
            r == (self.counts@[offset as int] > 0),
    {
        self.counts[offset] > 0
    }
}

/// Counting a window that has a value at an offset makes the mean there defined,
/// and no count ever decreases.
pub proof fn lemma_observed_offset_is_defined(before: Seq<u64>, observed: Seq<bool>, i: int)
    requires
        before.len() == observed.len(),
        0 <= i < before.len(),
        forall|j: int| 0 <= j < before.len() ==> #[trigger] before[j] < u64::MAX,
    ensures
        observed[i] ==> observed_counts(before, observed)[i] > 0,
        observed_counts(before, observed)[i] >= before[i],
{
}

/// The G and C bytes of the window of `GC_WINDOW` bases at offset `i`, summed over the
/// strand-normalized sequences of `ps`.
pub open spec fn gc_total(ps: Seq<PromotorRegion>, i: int) -> nat
    decreases ps.len(),
{
    if ps.len() == 0 {
        0
    } else {
        gc_total(ps.drop_last(), i) + gc_count(
            normalized(ps.last().sequence@, ps.last().strand).subrange(i, i + GC_WINDOW),
        )
    }
}

/// The promoter GC curve: for each window of `GC_WINDOW` bases of the strand-normalized
/// promoters, its center relative to the start codon and the number of `G` and `C`
/// bases in it, summed over all promoters. The mean GC fraction at that point is the
/// total over `GC_WINDOW` times the number of promoters.
pub fn promoter_gc_totals(promoters: &[PromotorRegion]) -> (r: Vec<(i64, u64)>)
    requires
        promoters@.len() <= u32::MAX,
        forall|k: int| 0 <= k < promoters@.len() ==> (#[trigger] promoters@[k]).sequence@.len() == PROMOTER_LEN,
    ensures
        r@.len() == GC_POINTS,
        forall|i: int|
            0 <= i < GC_POINTS ==> (#[trigger] r@[i]).0 == i + GC_WINDOW / 2 - UPSTREAM && r@[i].1
                == gc_total(promoters@, i),
{
    let mut totals: Vec<u64> = Vec::with_capacity(GC_POINTS);
    let mut i: usize = 0;
    while i < GC_POINTS
        invariant
            i <= GC_POINTS,
            totals@.len() == i,
            forall|j: int| 0 <= j < i ==> #[trigger] totals@[j] == 0,
        decreases GC_POINTS - i,
    {
        totals.push(0);
        i = i + 1;
    }
    let mut k: usize = 0;
    while k < promoters.len()
        invariant
            k <= promoters@.len() <= u32::MAX,
            totals@.len() == GC_POINTS,
            forall|m: int| 0 <= m < promoters@.len() ==> (#[trigger] promoters@[m]).sequence@.len() == PROMOTER_LEN,
            forall|j: int|
                0 <= j < GC_POINTS ==> #[trigger] totals@[j] == gc_total(promoters@.take(k as int), j)
                    && totals@[j] <= k * GC_WINDOW,
        decreases promoters@.len() - k,
    {
        let seq = promoters[k].strand_normalized_sequence();
        let gc = get_gc_content(seq.as_slice(), GC_WINDOW, 1);
        proof {
            assert(promoters@.take(k + 1).drop_last() =~= promoters@.take(k as int));
            assert(promoters@.take(k + 1).last() == promoters@[k as int]);
            assert(gc@.len() == GC_POINTS);
        }
        let ghost before = totals@;
        let mut j: usize = 0;
        while j < GC_POINTS
            invariant
                k < promoters@.len() <= u32::MAX,
                j <= GC_POINTS,
                totals@.len() == GC_POINTS,
                gc@.len() == GC_POINTS,
                seq@ == normalized(promoters@[k as int].sequence@, promoters@[k as int].strand),
                forall|m: int|
                    0 <= m < gc@.len() ==> (#[trigger] gc@[m]).1 == gc_count(seq@.subrange(m * 1, m * 1 + GC_WINDOW))
                        && gc@[m].1 <= GC_WINDOW,
                forall|m: int|
                    0 <= m < GC_POINTS ==> #[trigger] before[m] == gc_total(promoters@.take(k as int), m)
                        && before[m] <= k * GC_WINDOW,
                forall|m: int|
                    0 <= m < GC_POINTS ==> #[trigger] totals@[m] == if m < j {
                        before[m] + gc@[m].1
                    } else {
                        before[m] as int
                    },
            decreases GC_POINTS - j,
        {
            proof {
                assert(gc@[j as int].1 <= GC_WINDOW);
                assert(before[j as int] <= k * GC_WINDOW);
                assert(k * GC_WINDOW + GC_WINDOW <= u64::MAX) by (nonlinear_arith)
                    requires
                        k < u32::MAX,
                ;
            }
            let t = totals[j];
            totals.set(j, t + gc[j].1 as u64);
            j = j + 1;
        }
        proof {
            assert forall|m: int| 0 <= m < GC_POINTS implies #[trigger] totals@[m] == gc_total(promoters@.take(k + 1), m)
                && totals@[m] <= (k + 1) * GC_WINDOW by {
                assert(m * 1 == m);
                assert((k + 1) * GC_WINDOW == k * GC_WINDOW + GC_WINDOW) by (nonlinear_arith);
            }
        }
        k = k + 1;
    }
    proof {
        assert(promoters@.take(promoters@.len() as int) =~= promoters@);
    }
    let mut out: Vec<(i64, u64)> = Vec::with_capacity(GC_POINTS);
    let mut i: usize = 0;
    while i < GC_POINTS
        invariant
            i <= GC_POINTS,
            out@.len() == i,
            totals@.len() == GC_POINTS,
            forall|j: int| 0 <= j < GC_POINTS ==> #[trigger] totals@[j] == gc_total(promoters@, j),
            forall|j: int|
                0 <= j < i ==> (#[trigger] out@[j]).0 == j + GC_WINDOW / 2 - UPSTREAM && out@[j].1
                    == gc_total(promoters@, j),
        decreases GC_POINTS - i,
    {
        let offset = i as i64 + (GC_WINDOW / 2) as i64 - UPSTREAM as i64;
        out.push((offset, totals[i]));
        i = i + 1;
    }
    out
}

} // verus!
