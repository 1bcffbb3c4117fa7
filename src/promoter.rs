//! Fixed-length promoter windows anchored at start codons.
use vstd::prelude::*;
use crate::nucleotide::{BASE_A, BASE_C, BASE_G, BASE_T};
use crate::error::Error;
use crate::gtf::{FeatureType, GTFRecord, RecordView, Strand, record_views};

verus! {

/// Length of every promoter window.
pub const PROMOTER_LEN: usize = 1101;

/// Offset of the start codon in a strand-normalized window: the bases upstream of it.
pub const UPSTREAM: usize = 1000;

/// On the plus strand a window starts this many bases before the codon's start.
pub const PLUS_STRAND_LEAD: usize = 1001;

/// On the minus strand a window starts this many bases before the codon's end.
pub const MINUS_STRAND_LEAD: usize = 101;

/// The DNA complement of one base; any other byte stays as it is.
pub open spec fn complement(b: u8) -> u8 {
    if b == BASE_A {
        BASE_T
    } else if b == BASE_T {
        BASE_A
    } else if b == BASE_G {
        BASE_C
    } else if b == BASE_C {
        BASE_G
    } else {
        b
    }
}

/// The sequence read backwards, each base complemented.
pub open spec fn reverse_complement(s: Seq<u8>) -> Seq<u8> {
    Seq::new(s.len(), |i: int| complement(s[s.len() - 1 - i]))
}

/// Reverse-complementing twice gives back the sequence.
pub proof fn lemma_reverse_complement_involution(s: Seq<u8>)
    ensures
        reverse_complement(reverse_complement(s)) == s,
{
    assert(reverse_complement(reverse_complement(s)) =~= s);
}

/// Reverse complement swaps `A` with `T` and `G` with `C` and keeps every other byte,
/// each at the mirrored position.
pub proof fn lemma_reverse_complement_mirrors(s: Seq<u8>, i: int)
    requires
        0 <= i < s.len(),
    ensures
        reverse_complement(s).len() == s.len(),
        s[s.len() - 1 - i] == BASE_A ==> reverse_complement(s)[i] == BASE_T,
        s[s.len() - 1 - i] == BASE_T ==> reverse_complement(s)[i] == BASE_A,
        s[s.len() - 1 - i] == BASE_G ==> reverse_complement(s)[i] == BASE_C,
        s[s.len() - 1 - i] == BASE_C ==> reverse_complement(s)[i] == BASE_G,
        !(s[s.len() - 1 - i] == BASE_A || s[s.len() - 1 - i] == BASE_T || s[s.len() - 1 - i] == BASE_G || s[s.len() - 1
            - i] == BASE_C) ==> reverse_complement(s)[i] == s[s.len() - 1 - i],
{
}

/// A window of the chromosome around a start codon.
#[derive(Debug, Clone)]
pub struct PromotorRegion {
    /// The bases in chromosome order, whatever the strand.
    pub sequence: Vec<u8>,
    /// Offset of the window's first base in the chromosome, ignoring direction.
    pub location: usize,
    pub strand: Strand,
}

fn complement_base(b: u8) -> (r: u8)
    ensures
        r == complement(b),
{
    if b == BASE_A {
        BASE_T
    } else if b == BASE_T {
        BASE_A
    } else if b == BASE_G {
        BASE_C
    } else if b == BASE_C {
        BASE_G
    } else {
        b
    }
}

impl PromotorRegion {
    /// The window read 5' to 3' on the opposite strand.
    pub fn get_opposite_sequence(&self) -> (r: Vec<u8>)
        ensures
            r@ == reverse_complement(self.sequence@),
    {
        let n = self.sequence.len();
        let mut out: Vec<u8> = Vec::with_capacity(n);
        let mut i: usize = 0;
        while i < n
            invariant
                n == self.sequence@.len(),
                i <= n,
                out@.len() == i,
                forall|j: int| 0 <= j < i ==> #[trigger] out@[j] == complement(self.sequence@[n - 1 - j]),
            decreases n - i,
        {
            out.push(complement_base(self.sequence[n - 1 - i]));
            i = i + 1;
        }
        assert(out@ =~= reverse_complement(self.sequence@));
        out
    }

    /// The window read 5' to 3' on its own strand, so that the start codon sits at
    /// offset `UPSTREAM` whatever the strand.
    pub fn strand_normalized_sequence(&self) -> (r: Vec<u8>)
        ensures
            r@ == normalized(self.sequence@, self.strand),
    {
        match self.strand {
            Strand::Plus => vstd::slice::slice_to_vec(self.sequence.as_slice()),
            Strand::Minus => self.get_opposite_sequence(),
        }
    }
}

pub open spec fn normalized(s: Seq<u8>, strand: Strand) -> Seq<u8> {
    match strand {
        Strand::Plus => s,
        Strand::Minus => reverse_complement(s),
    }
}

/// `t` is the transcript identifier of one of the selected records.
pub open spec fn is_selected(transcripts: Seq<&GTFRecord>, t: Seq<char>) -> bool {
    exists|k: int| 0 <= k < transcripts.len() && (#[trigger] transcripts[k])@.transcript_id == t
}

/// A start codon of a selected transcript.
pub open spec fn is_chosen_codon(transcripts: Seq<&GTFRecord>, r: RecordView) -> bool {
    r.feature_type == FeatureType::StartCodon && is_selected(transcripts, r.transcript_id)
}

/// The start codons of selected transcripts, in record order.
pub open spec fn chosen_codons(recs: Seq<RecordView>, transcripts: Seq<&GTFRecord>) -> Seq<RecordView>
    decreases recs.len(),
{
    if recs.len() == 0 {
        Seq::empty()
    } else {
        let prev = chosen_codons(recs.drop_last(), transcripts);
        if is_chosen_codon(transcripts, recs.last()) {
            prev.push(recs.last())
        } else {
            prev
        }
    }
}

/// First offset of the window of a start codon: 1001 bases before its start on the
/// plus strand, 101 bases before its end on the minus strand.
pub open spec fn window_start(c: RecordView) -> int {
    match c.strand {
        Strand::Plus => c.start - PLUS_STRAND_LEAD,
        Strand::Minus => c.end - MINUS_STRAND_LEAD,
    }
}

/// The window of a start codon lies inside a chromosome of `len` bases.
pub open spec fn window_fits(c: RecordView, len: int) -> bool {
    0 <= window_start(c) && window_start(c) + PROMOTER_LEN <= len
}

fn window_of(sequence: &[u8], c: &GTFRecord) -> (r: Result<PromotorRegion, Error>)
    ensures
        match r {
            Ok(p) => window_fits(c@, sequence@.len() as int) && p.location == window_start(c@)
                && p.strand == c.strand && p.sequence@ == sequence@.subrange(
                window_start(c@),
                window_start(c@) + PROMOTER_LEN,
            ),
            Err(e) => e == Error::WindowOutOfBounds && !window_fits(c@, sequence@.len() as int),
        },
{
    let n = sequence.len();
    let lo = match c.strand {
        Strand::Plus => {
            if c.start < PLUS_STRAND_LEAD {
                return Err(Error::WindowOutOfBounds);
            }
            c.start - PLUS_STRAND_LEAD
        },
        Strand::Minus => {
            if c.end < MINUS_STRAND_LEAD {
                return Err(Error::WindowOutOfBounds);
            }
            c.end - MINUS_STRAND_LEAD
        },
    };
    if lo > n || n - lo < PROMOTER_LEN {
        return Err(Error::WindowOutOfBounds);
    }
    let bases = vstd::slice::slice_to_vec(&sequence[lo..lo + PROMOTER_LEN]);
    Ok(PromotorRegion { sequence: bases, location: lo, strand: c.strand })
}

fn is_selected_id(transcripts: &Vec<&GTFRecord>, t: &String) -> (r: bool)
    ensures
        r == is_selected(transcripts@, t@),
{
    let mut k: usize = 0;
    while k < transcripts.len()
        invariant
            k <= transcripts@.len(),
            forall|j: int| 0 <= j < k ==> (#[trigger] transcripts@[j])@.transcript_id != t@,
        decreases transcripts@.len() - k,
    {
        if transcripts[k].attributes.transcript_id == *t {
            return true;
        }
        k = k + 1;
    }
    false
}

/// Carves the promoter window of every start codon whose transcript was selected,
/// in record order; fails when one of them does not fit in the chromosome.
pub fn find_promotor_regions(
    sequence: &[u8],
    records: &[GTFRecord],
    transcripts: Vec<&GTFRecord>,
) -> (r: Result<Vec<PromotorRegion>, Error>)
    ensures
        match r {
            Ok(ps) => {
                let cs = chosen_codons(record_views(records@), transcripts@);
                &&& ps@.len() == cs.len()
                &&& forall|k: int|
                    0 <= k < ps@.len() ==> {
                        &&& window_fits(cs[k], sequence@.len() as int)
                        &&& (#[trigger] ps@[k]).sequence@.len() == PROMOTER_LEN
                        &&& ps@[k].location == window_start(cs[k])
                        &&& ps@[k].strand == cs[k].strand
                        &&& ps@[k].sequence@ == sequence@.subrange(
                            window_start(cs[k]),
                            window_start(cs[k]) + PROMOTER_LEN,
                        )
                    }
            },
            Err(e) => e == Error::WindowOutOfBounds && exists|j: int|
                0 <= j < records@.len() && is_chosen_codon(transcripts@, #[trigger] records@[j]@)
                    && !window_fits(records@[j]@, sequence@.len() as int),
        },
{
    let ghost recs = record_views(records@);
    let n = records.len();
    let mut out: Vec<PromotorRegion> = Vec::new();
    let mut i: usize = 0;
    while i < n
        invariant
            n == records@.len() == recs.len(),
            recs == record_views(records@),
            i <= n,
            out@.len() == chosen_codons(recs.take(i as int), transcripts@).len(),
            forall|k: int|
                0 <= k < out@.len() ==> {
                    let c = chosen_codons(recs.take(i as int), transcripts@)[k];
                    &&& window_fits(c, sequence@.len() as int)
                    &&& (#[trigger] out@[k]).location == window_start(c)
                    &&& out@[k].strand == c.strand
                    &&& out@[k].sequence@ == sequence@.subrange(
                        window_start(c),
                        window_start(c) + PROMOTER_LEN,
                    )
                },
        decreases n - i,
    {
        proof {
            assert(recs.take(i + 1).drop_last() =~= recs.take(i as int));
            assert(recs.take(i + 1).last() == records@[i as int]@);
        }
        let r = &records[i];
        if r.feature_type == FeatureType::StartCodon && is_selected_id(&transcripts, &r.attributes.transcript_id) {
            match window_of(sequence, r) {
                Ok(p) => {
                    out.push(p);
                },
                Err(e) => {
                    return Err(e);
                },
            }
        }
        i = i + 1;
    }
    proof {
        assert(recs.take(n as int) =~= recs);
    }
    Ok(out)
}

} // verus!
