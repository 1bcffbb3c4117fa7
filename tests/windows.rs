use promotor_stats::aggregate::{
    oriented, promoter_gc_totals, promoter_signal_intervals, tfbs_interval, tfbs_signal_intervals, Coverage,
};
use promotor_stats::error::Error;
use promotor_stats::gc_content::get_gc_content;
use promotor_stats::gtf::{Attributes, FeatureType, GTFRecord, Strand};
use promotor_stats::motif::Motif;
use promotor_stats::promoter::{find_promotor_regions, PromotorRegion};

fn fractions(seq: &[u8], w: usize, step: usize) -> Vec<(usize, f64)> {
    get_gc_content(seq, w, step).into_iter().map(|(c, n)| (c, n as f64 / w as f64)).collect()
}

fn codon(strand: Strand, start: usize, end: usize, transcript: &str) -> GTFRecord {
    GTFRecord {
        feature_type: FeatureType::StartCodon,
        start,
        end,
        strand,
        attributes: Attributes { gene_id: "ENSGX".to_string(), transcript_id: transcript.to_string() },
    }
}

fn transcript(id: &str) -> GTFRecord {
    GTFRecord {
        feature_type: FeatureType::Transcript,
        start: 0,
        end: 10,
        strand: Strand::Plus,
        attributes: Attributes { gene_id: "ENSGX".to_string(), transcript_id: id.to_string() },
    }
}

fn chromosome(len: usize) -> Vec<u8> {
    (0..len).map(|i| b"ACGT"[i % 4]).collect()
}

#[test]
fn gc_of_split_sequence() {
    assert_eq!(fractions(b"AAAACCCC", 4, 4), vec![(2, 0.0), (6, 1.0)]);
}

#[test]
fn gc_of_overlapping_windows() {
    assert_eq!(fractions(b"GCGCGCGC", 4, 2), vec![(2, 1.0), (4, 1.0), (6, 1.0)]);
}

#[test]
fn gc_of_all_gc_is_one_at_every_step() {
    for step in 1..=8 {
        for (_, f) in fractions(b"GCGCGCGC", 4, step) {
            assert_eq!(f, 1.0);
        }
    }
}

#[test]
fn gc_fractions_stay_in_unit_interval() {
    let seq = b"ATGCGGCANNTTACGCGC";
    for (_, f) in fractions(seq, 5, 3) {
        assert!((0.0..=1.0).contains(&f));
    }
}

#[test]
fn gc_of_short_sequence_is_empty() {
    assert!(get_gc_content(b"GCG", 4, 1).is_empty());
    assert_eq!(get_gc_content(b"GCGC", 4, 1), vec![(2, 4)]);
}

#[test]
fn reverse_complement_of_example() {
    let p = PromotorRegion { sequence: b"ATGCN".to_vec(), location: 0, strand: Strand::Minus };
    assert_eq!(p.get_opposite_sequence(), b"NGCAT".to_vec());
}

#[test]
fn reverse_complement_twice_is_identity() {
    let p = PromotorRegion { sequence: b"AACGTTNXGGCA".to_vec(), location: 0, strand: Strand::Plus };
    let once = PromotorRegion { sequence: p.get_opposite_sequence(), location: 0, strand: Strand::Plus };
    assert_eq!(once.get_opposite_sequence(), p.sequence);
}

#[test]
fn normalized_sequence_follows_strand() {
    let plus = PromotorRegion { sequence: b"AAGC".to_vec(), location: 0, strand: Strand::Plus };
    let minus = PromotorRegion { sequence: b"AAGC".to_vec(), location: 0, strand: Strand::Minus };
    assert_eq!(plus.strand_normalized_sequence(), b"AAGC".to_vec());
    assert_eq!(minus.strand_normalized_sequence(), b"GCTT".to_vec());
}

#[test]
fn plus_strand_window() {
    let seq = chromosome(10_000);
    let recs = vec![transcript("ENST1"), codon(Strand::Plus, 2000, 2002, "ENST1")];
    let kept = vec![&recs[0]];
    let ps = find_promotor_regions(&seq, &recs, kept).unwrap();
    assert_eq!(ps.len(), 1);
    assert_eq!(ps[0].location, 999);
    assert_eq!(ps[0].sequence.len(), 1101);
    assert_eq!(ps[0].sequence, seq[999..2100].to_vec());
    assert_eq!(ps[0].strand, Strand::Plus);
    assert_eq!(&ps[0].strand_normalized_sequence()[1000..1003], &seq[1999..2002]);
}

#[test]
fn minus_strand_window() {
    let seq = chromosome(10_000);
    let recs = vec![transcript("ENST1"), codon(Strand::Minus, 4998, 5000, "ENST1")];
    let kept = vec![&recs[0]];
    let ps = find_promotor_regions(&seq, &recs, kept).unwrap();
    assert_eq!(ps.len(), 1);
    assert_eq!(ps[0].location, 4899);
    assert_eq!(ps[0].sequence, seq[4899..6000].to_vec());
    assert_eq!(ps[0].strand, Strand::Minus);
}

#[test]
fn only_selected_start_codons_give_windows() {
    let seq = chromosome(10_000);
    let recs = vec![
        transcript("ENST1"),
        codon(Strand::Plus, 3000, 3002, "ENST2"),
        codon(Strand::Plus, 4000, 4002, "ENST1"),
        codon(Strand::Plus, 5000, 5002, "ENST1"),
    ];
    let kept = vec![&recs[0]];
    let ps = find_promotor_regions(&seq, &recs, kept).unwrap();
    assert_eq!(ps.iter().map(|p| p.location).collect::<Vec<_>>(), vec![2999, 3999]);
    assert!(ps.iter().all(|p| p.sequence.len() == 1101));
}

#[test]
fn window_past_the_ends_is_an_error() {
    let seq = chromosome(3000);
    let recs = vec![transcript("ENST1"), codon(Strand::Plus, 500, 502, "ENST1")];
    let kept = vec![&recs[0]];
    assert_eq!(find_promotor_regions(&seq, &recs, kept).unwrap_err(), Error::WindowOutOfBounds);
    let recs = vec![transcript("ENST1"), codon(Strand::Minus, 2500, 2502, "ENST1")];
    let kept = vec![&recs[0]];
    assert_eq!(find_promotor_regions(&seq, &recs, kept).unwrap_err(), Error::WindowOutOfBounds);
}

#[test]
fn motif_centers_use_half_the_motif_length() {
    let p = PromotorRegion { sequence: b"AATGACTCAGGTGAGTCA".to_vec(), location: 1000, strand: Strand::Plus };
    assert_eq!(p.tfbs_centers(Motif::Ap1), vec![1003, 1003]);
    assert!(p.tfbs_centers(Motif::NfY).is_empty());
}

#[test]
fn nf_y_matches_do_not_overlap() {
    let p = PromotorRegion { sequence: b"CCAATTGGxxATTGG".to_vec(), location: 10, strand: Strand::Plus };
    assert_eq!(p.tfbs_centers(Motif::NfY), vec![12, 12]);
    assert_eq!(Motif::NfY.name(), "NF-Y");
    assert_eq!(Motif::Ap1.pattern(), "TGA(C|G)TCA");
}

#[test]
fn signal_intervals() {
    let p = PromotorRegion { sequence: vec![], location: 999, strand: Strand::Plus };
    assert_eq!(p.signal_interval(), Some((999, 2099)));
    let far = PromotorRegion { sequence: vec![], location: u32::MAX as usize, strand: Strand::Plus };
    assert_eq!(far.signal_interval(), None);
    assert_eq!(tfbs_interval(1003), Some((503, 1504)));
    assert_eq!(tfbs_interval(499), None);
}

#[test]
fn orientation_reverses_minus_strand_values() {
    assert_eq!(oriented(&[1, 2, 3], Strand::Plus), vec![1, 2, 3]);
    assert_eq!(oriented(&[1, 2, 3], Strand::Minus), vec![3, 2, 1]);
}

#[test]
fn coverage_counts_observed_offsets() {
    let mut c = Coverage::new(3);
    assert!(!c.is_defined(0));
    c.observe(&[true, false, true]);
    c.observe(&[true, false, false]);
    assert_eq!(c.counts, vec![2, 0, 1]);
    assert!(c.is_defined(0));
    assert!(!c.is_defined(1));
    assert!(c.is_defined(2));
}

#[test]
fn promoter_gc_curve() {
    let all_g = PromotorRegion { sequence: vec![b'G'; 1101], location: 0, strand: Strand::Plus };
    let mut half = vec![b'A'; 1101];
    for b in half.iter_mut().take(150) {
        *b = b'C';
    }
    let minus = PromotorRegion { sequence: half, location: 0, strand: Strand::Minus };
    let totals = promoter_gc_totals(&[all_g, minus]);
    assert_eq!(totals.len(), 952);
    assert_eq!(totals[0], (-925, 150));
    assert_eq!(totals[951], (26, 300));
    assert_eq!(totals[800], (-125, 150));
}

#[test]
fn signal_intervals_of_all_promoters() {
    let a = PromotorRegion { sequence: vec![], location: 10, strand: Strand::Plus };
    let b = PromotorRegion { sequence: vec![], location: 2000, strand: Strand::Minus };
    assert_eq!(promoter_signal_intervals(&[a.clone(), b]).unwrap(), vec![(10, 1110), (2000, 3100)]);
    let far = PromotorRegion { sequence: vec![], location: u32::MAX as usize - 10, strand: Strand::Plus };
    assert_eq!(promoter_signal_intervals(&[a, far]).unwrap_err(), Error::WindowOutOfBounds);
}

#[test]
fn tfbs_intervals_follow_promoters_and_occurrences() {
    let a = PromotorRegion { sequence: b"TGACTCAxTGAGTCA".to_vec(), location: 1000, strand: Strand::Plus };
    let b = PromotorRegion { sequence: b"GGTGACTCA".to_vec(), location: 5000, strand: Strand::Minus };
    let none = PromotorRegion { sequence: b"AAAA".to_vec(), location: 7, strand: Strand::Plus };
    assert_eq!(
        tfbs_signal_intervals(&[a, none.clone(), b], Motif::Ap1).unwrap(),
        vec![(503, 1504), (503, 1504), (4503, 5504)]
    );
    let near = PromotorRegion { sequence: b"CCAAT".to_vec(), location: 100, strand: Strand::Plus };
    assert_eq!(tfbs_signal_intervals(&[none.clone(), near], Motif::NfY).unwrap_err(), Error::WindowOutOfBounds);
    assert!(tfbs_signal_intervals(&[none], Motif::NfY).unwrap().is_empty());
}
