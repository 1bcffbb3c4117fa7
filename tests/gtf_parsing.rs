use promotor_stats::error::Error;
use promotor_stats::gtf::{
    get_longest_transcripts, is_candidate_line, read_gtf_line, Attributes, FeatureType, GTFRecord, Strand,
};

fn record(feature_type: FeatureType, start: usize, end: usize, gene: &str, transcript: &str) -> GTFRecord {
    GTFRecord {
        feature_type,
        start,
        end,
        strand: Strand::Plus,
        attributes: Attributes { gene_id: gene.to_string(), transcript_id: transcript.to_string() },
    }
}

#[test]
fn parses_start_codon_line() {
    let line = "chr1\tHAVANA\tstart_codon\t1001\t1003\t.\t+\t0\tgene_id \"ENSG001\"; transcript_id \"ENST001\";";
    let r = GTFRecord::from_str(line).unwrap();
    assert_eq!(r.feature_type, FeatureType::StartCodon);
    assert_eq!(r.start, 1001);
    assert_eq!(r.end, 1003);
    assert_eq!(r.strand, Strand::Plus);
    assert_eq!(r.attributes.gene_id, "ENSG001");
    assert_eq!(r.attributes.transcript_id, "ENST001");
}

#[test]
fn parses_minus_strand_transcript_with_more_attributes() {
    let line = "chr1\tENSEMBL\ttranscript\t+20\t500\t.\t-\t.\tgene_id \"ENSG00000186092.7\"; transcript_id \"ENST00000641515.2\"; gene_type \"protein_coding\";";
    let r = GTFRecord::from_str(line).unwrap();
    assert_eq!(r.feature_type, FeatureType::Transcript);
    assert_eq!(r.start, 20);
    assert_eq!(r.end, 500);
    assert_eq!(r.strand, Strand::Minus);
    assert_eq!(r.attributes.gene_id, "ENSG00000186092.7");
    assert_eq!(r.attributes.transcript_id, "ENST00000641515.2");
    assert_eq!(r.len(), 480);
}

#[test]
fn comment_line_is_rejected() {
    assert_eq!(GTFRecord::from_str("##description: evidence-based annotation").unwrap_err(), Error::Comment);
}

#[test]
fn too_few_columns_is_malformed() {
    assert_eq!(GTFRecord::from_str("chr1\tHAVANA\ttranscript\t10").unwrap_err(), Error::MalformedRecord);
    assert_eq!(GTFRecord::from_str("chr1\tHAVANA").unwrap_err(), Error::MalformedRecord);
}

#[test]
fn non_numeric_coordinate_is_malformed() {
    let line = "chr1\tHAVANA\ttranscript\tabc\t20\t.\t+\t.\tgene_id \"ENSG1\"; transcript_id \"ENST1\";";
    assert_eq!(GTFRecord::from_str(line).unwrap_err(), Error::MalformedRecord);
}

#[test]
fn unknown_feature_type_is_malformed() {
    let line = "chr1\tHAVANA\tpromoter\t10\t20\t.\t+\t.\tgene_id \"ENSG1\"; transcript_id \"ENST1\";";
    assert_eq!(GTFRecord::from_str(line).unwrap_err(), Error::MalformedRecord);
}

#[test]
fn bad_strand_is_reported() {
    let line = "chr1\tHAVANA\ttranscript\t10\t20\t.\t.\t.\tgene_id \"ENSG1\"; transcript_id \"ENST1\";";
    assert_eq!(GTFRecord::from_str(line).unwrap_err(), Error::MalformedStrand);
    assert_eq!(Strand::from_str("x").unwrap_err(), Error::MalformedStrand);
}

#[test]
fn missing_attribute_is_reported() {
    let line = "chr1\tHAVANA\ttranscript\t10\t20\t.\t+\t.\tgene_id \"ENSG1\";";
    assert_eq!(GTFRecord::from_str(line).unwrap_err(), Error::AttributeMissing);
    assert_eq!(Attributes::from_str("transcript_id \"ENST1\";").unwrap_err(), Error::AttributeMissing);
    assert_eq!(Attributes::from_str("gene_id \"XYZ1\"; transcript_id \"ENST1\";").unwrap_err(), Error::AttributeMissing);
}

#[test]
fn attributes_take_first_match() {
    let a = Attributes::from_str("gene_id \"ENSGA\"; gene_id \"ENSGB\"; transcript_id \"ENSTX\";").unwrap();
    assert_eq!(a.gene_id, "ENSGA");
    assert_eq!(a.transcript_id, "ENSTX");
}

#[test]
fn feature_types_parse() {
    assert_eq!(FeatureType::from_str("gene").unwrap(), FeatureType::Gene);
    assert_eq!(FeatureType::from_str("exon").unwrap(), FeatureType::Exon);
    assert_eq!(FeatureType::from_str("CDS").unwrap(), FeatureType::CDS);
    assert_eq!(FeatureType::from_str("UTR").unwrap(), FeatureType::UTR);
    assert_eq!(FeatureType::from_str("stop_codon").unwrap(), FeatureType::StopCodon);
    assert_eq!(FeatureType::from_str("Selenocysteine").unwrap(), FeatureType::Selenocysteine);
    assert_eq!(FeatureType::from_str("Gene").unwrap_err(), Error::MalformedRecord);
}

#[test]
fn candidate_lines_are_filtered() {
    let keep = "chr1\tHAVANA\ttranscript\t10\t20\t.\t+\t.\tgene_id \"ENSG1\"; gene_type \"protein_coding\"; transcript_id \"ENST1\";";
    assert!(is_candidate_line(keep));
    let keep2 = "chr1\tENSEMBL\tstart_codon\t10\t12\t.\t-\t0\tgene_id \"ENSG1\"; gene_type \"protein_coding\";";
    assert!(is_candidate_line(keep2));
    assert!(!is_candidate_line("chr2\tHAVANA\ttranscript\t10\t20\t.\t+\t.\tgene_type \"protein_coding\";"));
    assert!(!is_candidate_line("chr1\tHAVANA\texon\t10\t20\t.\t+\t.\tgene_type \"protein_coding\";"));
    assert!(!is_candidate_line("chr1\tHAVANA\ttranscript\t10\t20\t.\t+\t.\tgene_type \"lncRNA\";"));
    assert!(!is_candidate_line("#chr1\tHAVANA\ttranscript\tgene_type \"protein_coding\";"));
}

#[test]
fn longest_transcript_wins() {
    let recs = vec![
        record(FeatureType::Transcript, 1000, 1100, "ENSGG", "ENST1"),
        record(FeatureType::Transcript, 1000, 1500, "ENSGG", "ENST2"),
        record(FeatureType::Transcript, 1000, 1300, "ENSGG", "ENST3"),
    ];
    let kept = get_longest_transcripts(&recs).unwrap();
    assert_eq!(kept.len(), 1);
    assert_eq!(kept[0].attributes.transcript_id, "ENST2");
    assert_eq!(kept[0].len(), 500);
}

#[test]
fn selection_keeps_first_of_ties_and_one_per_gene() {
    let recs = vec![
        record(FeatureType::Transcript, 0, 300, "ENSGA", "ENST1"),
        record(FeatureType::StartCodon, 0, 1000, "ENSGA", "ENST9"),
        record(FeatureType::Transcript, 100, 400, "ENSGA", "ENST2"),
        record(FeatureType::Transcript, 0, 50, "ENSGB", "ENST3"),
    ];
    let kept = get_longest_transcripts(&recs).unwrap();
    let mut ids: Vec<&str> = kept.iter().map(|r| r.attributes.transcript_id.as_str()).collect();
    ids.sort();
    assert_eq!(ids, vec!["ENST1", "ENST3"]);
}

#[test]
fn selection_of_nothing_is_empty() {
    let recs: Vec<GTFRecord> = vec![record(FeatureType::Exon, 0, 10, "ENSGA", "ENST1")];
    assert!(get_longest_transcripts(&recs).unwrap().is_empty());
}

#[test]
fn reading_lines_keeps_parsed_candidates_in_order() {
    let mut records = Vec::new();
    let t = "chr1\tHAVANA\ttranscript\t100\t900\t.\t+\t.\tgene_id \"ENSG1\"; transcript_id \"ENST1\"; gene_type \"protein_coding\";";
    let c = "chr1\tHAVANA\tstart_codon\t2000\t2002\t.\t+\t0\tgene_id \"ENSG1\"; transcript_id \"ENST1\"; gene_type \"protein_coding\";";
    assert_eq!(read_gtf_line(&mut records, "#!genome-build GRCh38"), Ok(()));
    assert_eq!(read_gtf_line(&mut records, t), Ok(()));
    assert_eq!(read_gtf_line(&mut records, "chr1\tHAVANA\texon\t1\t2\t.\t+\t.\tgene_type \"protein_coding\";"), Ok(()));
    assert_eq!(read_gtf_line(&mut records, c), Ok(()));
    assert_eq!(records.len(), 2);
    assert_eq!(records[0].feature_type, FeatureType::Transcript);
    assert_eq!(records[1].feature_type, FeatureType::StartCodon);
    let bad = "chr1\tHAVANA\ttranscript\t1\t2\t.\t*\t.\tgene_id \"ENSG1\"; transcript_id \"ENST1\"; gene_type \"protein_coding\";";
    assert_eq!(read_gtf_line(&mut records, bad), Err(Error::MalformedStrand));
    assert_eq!(records.len(), 2);
}
