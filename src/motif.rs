//! Transcription-factor binding-site motifs inside promoter windows.
use vstd::prelude::*;
use crate::nucleotide::{BASE_A, BASE_C, BASE_G, BASE_T};
use crate::promoter::PromotorRegion;

verus! {

/// The two motifs whose surroundings are aggregated.
#[derive(Debug, Clone, Copy, PartialEq, Eq, Structural)]
pub enum Motif {
    /// AP-1: `TGA`, then `C` or `G`, then `TCA`.
    Ap1,
    /// NF-Y: `CCAAT` or its reverse complement `ATTGG`.
    NfY,
}

pub open spec fn motif_pattern(m: Motif) -> Seq<char> {
    match m {
        Motif::Ap1 => "TGA(C|G)TCA"@,
        Motif::NfY => "(CCAAT|ATTGG)"@,
    }
}

pub open spec fn motif_len(m: Motif) -> int {
    match m {
        Motif::Ap1 => 7,
        Motif::NfY => 5,
    }
}

/// The motif occurs in `t` at offset `i`.
pub open spec fn motif_at(m: Motif, t: Seq<u8>, i: int) -> bool {
    &&& 0 <= i
    &&& i + motif_len(m) <= t.len()
    &&& match m {
        Motif::Ap1 => t[i] == BASE_T && t[i + 1] == BASE_G && t[i + 2] == BASE_A && (t[i + 3] == BASE_C || t[i + 3]
            == BASE_G) && t[i + 4] == BASE_T && t[i + 5] == BASE_C && t[i + 6] == BASE_A,
        Motif::NfY => (t[i] == BASE_C && t[i + 1] == BASE_C && t[i + 2] == BASE_A && t[i + 3] == BASE_A && t[i + 4]
            == BASE_T) || (t[i] == BASE_A && t[i + 1] == BASE_T && t[i + 2] == BASE_T && t[i + 3] == BASE_G && t[i + 4]
            == BASE_G),
    }
}

/// The occurrences of `m` in `t` from offset `pos` on, found left to right and never
/// overlapping, as `(start, end)` pairs.
pub open spec fn motif_spans_from(m: Motif, t: Seq<u8>, pos: int) -> Seq<(usize, usize)>
    decreases t.len() - pos,
{
    if pos < 0 || pos + motif_len(m) > t.len() {
        Seq::empty()
    } else if motif_at(m, t, pos) {
        seq![(pos as usize, (pos + motif_len(m)) as usize)] + motif_spans_from(
            m,
            t,
            pos + motif_len(m),
        )
    } else {
        motif_spans_from(m, t, pos + 1)
    }
}

proof fn lemma_spans_have_motif_len(m: Motif, t: Seq<u8>, pos: int)
    requires
        t.len() <= usize::MAX,
    ensures
        forall|k: int|
            0 <= k < motif_spans_from(m, t, pos).len() ==> (#[trigger] motif_spans_from(m, t, pos)[k]).1
                - motif_spans_from(m, t, pos)[k].0 == motif_len(m),
    decreases t.len() - pos,
{
    if pos < 0 || pos + motif_len(m) > t.len() {
    } else if motif_at(m, t, pos) {
        lemma_spans_have_motif_len(m, t, pos + motif_len(m));
        let rest = motif_spans_from(m, t, pos + motif_len(m));
        assert(motif_spans_from(m, t, pos) == seq![(pos as usize, (pos + motif_len(m)) as usize)] + rest);
        assert forall|k: int| 0 <= k < motif_spans_from(m, t, pos).len() implies (
        #[trigger] motif_spans_from(m, t, pos)[k]).1 - motif_spans_from(m, t, pos)[k].0 == motif_len(m) by {
            if k > 0 {
                assert(motif_spans_from(m, t, pos)[k] == rest[k - 1]);
            } else {
                assert(motif_spans_from(m, t, pos)[0] == (pos as usize, (pos + motif_len(m)) as usize));
            }
        }
    } else {
        lemma_spans_have_motif_len(m, t, pos + 1);
        assert(motif_spans_from(m, t, pos) == motif_spans_from(m, t, pos + 1));
    }
}

/// Relies on `regex::bytes::Regex::find_iter`: the leftmost-first matches of a
/// pattern, none overlapping, in order. Both motif patterns compile.
#[verifier::external_body]
fn find_motif_spans(pattern: &str, text: &[u8]) -> (r: Vec<(usize, usize)>)
    requires
        pattern@ == motif_pattern(Motif::Ap1) || pattern@ == motif_pattern(Motif::NfY),
    ensures
        pattern@ == motif_pattern(Motif::Ap1) ==> r@ == motif_spans_from(Motif::Ap1, text@, 0),
        pattern@ == motif_pattern(Motif::NfY) ==> r@ == motif_spans_from(Motif::NfY, text@, 0),
{
    let re = regex::bytes::Regex::new(pattern).unwrap();
    re.find_iter(text).map(|m| (m.start(), m.end())).collect()
}

impl Motif {
    /// The motif as a regular expression.
    pub fn pattern(&self) -> (r: &'static str)
        ensures
            r@ == motif_pattern(*self),
    {
        match self {
            Motif::Ap1 => "TGA(C|G)TCA",
            Motif::NfY => "(CCAAT|ATTGG)",
        }
    }

    /// The name used for the motif's plot.
    pub fn name(&self) -> &'static str {
        match self {
            Motif::Ap1 => "AP-1",
            Motif::NfY => "NF-Y",
        }
    }
}

impl PromotorRegion {
    /// One chromosomal position per occurrence of `motif` in the window's stored
    /// sequence: the window's location plus half the length of the occurrence.
    pub fn tfbs_centers(&self, motif: Motif) -> (r: Vec<usize>)
        requires
            self.location + 3 <= usize::MAX,
        ensures
            r@.len() == motif_spans_from(motif, self.sequence@, 0).len(),
            forall|k: int| 0 <= k < r@.len() ==> #[trigger] r@[k] == self.location + motif_len(motif) / 2,
    {
        let text = self.sequence.as_slice();
        let spans = find_motif_spans(motif.pattern(), text);
        let len = text.len();
        proof {
            assert(self.sequence@.len() == len);
            lemma_spans_have_motif_len(motif, self.sequence@, 0);
        }
        let mut out: Vec<usize> = Vec::new();
        let mut k: usize = 0;
        while k < spans.len()
            invariant
                k <= spans@.len(),
                out@.len() == k,
                spans@ == motif_spans_from(motif, self.sequence@, 0),
                self.location + 3 <= usize::MAX,
                forall|j: int| 0 <= j < spans@.len() ==> (#[trigger] spans@[j]).1 - spans@[j].0 == motif_len(motif),
                forall|j: int| 0 <= j < k ==> #[trigger] out@[j] == self.location + motif_len(motif) / 2,
            decreases spans@.len() - k,
        {
            let (start, end) = spans[k];
            assert(end - start == motif_len(motif));
            out.push(self.location + (end - start) / 2);
            k = k + 1;
        }
        out
    }
}

} // verus!
