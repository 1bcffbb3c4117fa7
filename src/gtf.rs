//! The part of the GENCODE GTF format that the promoter analysis reads.
use vstd::prelude::*;
use crate::error::Error;
use crate::matching::{
    first_capture, gene_id_of, lemma_filtered_lines_start_with_chromosome, matches_line_filter,
    passes_line_filter, transcript_id_of,
};
use crate::text::{
    decimal_usize, parse_usize, same_text, split_tabs, starts_with_char, starts_with_text, tab_fields,
};

verus! {

/// The strand a feature lies on.
#[derive(Debug, Clone, Copy, PartialEq, Eq, Structural)]
pub enum Strand {
    Plus,
    Minus,
}

/// The kind of feature a line annotates.
#[derive(Debug, Clone, Copy, PartialEq, Eq, Structural)]
pub enum FeatureType {
    Gene,
    Transcript,
    Exon,
    CDS,
    UTR,
    StartCodon,
    StopCodon,
    Selenocysteine,
}

/// The strand written `+` or `-`.
pub open spec fn strand_of(s: Seq<char>) -> Option<Strand> {
    if s == "+"@ {
        Some(Strand::Plus)
    } else if s == "-"@ {
        Some(Strand::Minus)
    } else {
        None
    }
}

/// The feature type that the third column names.
pub open spec fn feature_type_of(s: Seq<char>) -> Option<FeatureType> {
    if s == "gene"@ {
        Some(FeatureType::Gene)
    } else if s == "transcript"@ {
        Some(FeatureType::Transcript)
    } else if s == "exon"@ {
        Some(FeatureType::Exon)
    } else if s == "CDS"@ {
        Some(FeatureType::CDS)
    } else if s == "UTR"@ {
        Some(FeatureType::UTR)
    } else if s == "start_codon"@ {
        Some(FeatureType::StartCodon)
    } else if s == "stop_codon"@ {
        Some(FeatureType::StopCodon)
    } else if s == "Selenocysteine"@ {
        Some(FeatureType::Selenocysteine)
    } else {
        None
    }
}

impl Strand {
    /// Reads the strand column.
    pub fn from_str(s: &str) -> (r: Result<Strand, Error>)
        ensures
            match strand_of(s@) {
                Some(st) => r == Ok::<Strand, Error>(st),
                None => r == Err::<Strand, Error>(Error::MalformedStrand),
            },
    {
        if same_text(s, "+") {
            Ok(Strand::Plus)
        } else if same_text(s, "-") {
            Ok(Strand::Minus)
        } else {
            Err(Error::MalformedStrand)
        }
    }
}

impl FeatureType {
    /// Reads the feature column.
    pub fn from_str(s: &str) -> (r: Result<FeatureType, Error>)
        ensures
            match feature_type_of(s@) {
                Some(f) => r == Ok::<FeatureType, Error>(f),
                None => r == Err::<FeatureType, Error>(Error::MalformedRecord),
            },
    {
        if same_text(s, "gene") {
            Ok(FeatureType::Gene)
        } else if same_text(s, "transcript") {
            Ok(FeatureType::Transcript)
        } else if same_text(s, "exon") {
            Ok(FeatureType::Exon)
        } else if same_text(s, "CDS") {
            Ok(FeatureType::CDS)
        } else if same_text(s, "UTR") {
            Ok(FeatureType::UTR)
        } else if same_text(s, "start_codon") {
            Ok(FeatureType::StartCodon)
        } else if same_text(s, "stop_codon") {
            Ok(FeatureType::StopCodon)
        } else if same_text(s, "Selenocysteine") {
            Ok(FeatureType::Selenocysteine)
        } else {
            Err(Error::MalformedRecord)
        }
    }
}

/// The identifiers read from the attribute column.
#[derive(Debug, Clone)]
pub struct Attributes {
    pub gene_id: String,
    pub transcript_id: String,
}

/// The gene and transcript identifiers of an attribute column, when both are present.
pub open spec fn attributes_of(s: Seq<char>) -> Option<(Seq<char>, Seq<char>)> {
    match (gene_id_of(s), transcript_id_of(s)) {
        (Some(g), Some(t)) => Some((g, t)),
        _ => None,
    }
}

impl View for Attributes {
    type V = (Seq<char>, Seq<char>);

    open spec fn view(&self) -> (Seq<char>, Seq<char>) {
        (self.gene_id@, self.transcript_id@)
    }
}

impl Attributes {
    /// Reads the first `gene_id "ENSG…"` and the first `transcript_id "ENST…"` of an
    /// attribute column.
    pub fn from_str(s: &str) -> (r: Result<Attributes, Error>)
        ensures
            match attributes_of(s@) {
                Some(a) => r is Ok && r->Ok_0@ == a,
                None => r == Err::<Attributes, Error>(Error::AttributeMissing),
            },
    {
        let gene_id = first_capture("gene_id \"(ENSG[^\"]+)\"", s);
        let transcript_id = first_capture("transcript_id \"(ENST[^\"]+)\"", s);
        match (gene_id, transcript_id) {
            (Some(gene_id), Some(transcript_id)) => Ok(Attributes { gene_id, transcript_id }),
            _ => Err(Error::AttributeMissing),
        }
    }
}

/// One annotation line, reduced to what the analysis reads.
#[derive(Debug, Clone)]
pub struct GTFRecord {
    pub feature_type: FeatureType,
    pub start: usize,
    pub end: usize,
    pub strand: Strand,
    pub attributes: Attributes,
}

/// A record as plain values.
pub struct RecordView {
    pub feature_type: FeatureType,
    pub start: usize,
    pub end: usize,
    pub strand: Strand,
    pub gene_id: Seq<char>,
    pub transcript_id: Seq<char>,
}

impl View for GTFRecord {
    type V = RecordView;

    open spec fn view(&self) -> RecordView {
        RecordView {
            feature_type: self.feature_type,
            start: self.start,
            end: self.end,
            strand: self.strand,
            gene_id: self.attributes.gene_id@,
            transcript_id: self.attributes.transcript_id@,
        }
    }
}

/// What a line parses to: columns 3, 4, 5, 7 and 9 (counting from one) give the feature
/// type, start, end, strand and attributes; the first failure in that order decides the error.
pub open spec fn parse_record(line: Seq<char>) -> Result<RecordView, Error> {
    let f = tab_fields(line);
    if line.len() > 0 && line[0] == '#' {
        Err(Error::Comment)
    } else if f.len() < 3 || feature_type_of(f[2]) is None {
        Err(Error::MalformedRecord)
    } else if f.len() < 4 || decimal_usize(f[3]) is None {
        Err(Error::MalformedRecord)
    } else if f.len() < 5 || decimal_usize(f[4]) is None {
        Err(Error::MalformedRecord)
    } else if f.len() < 7 {
        Err(Error::MalformedRecord)
    } else if strand_of(f[6]) is None {
        Err(Error::MalformedStrand)
    } else if f.len() < 9 {
        Err(Error::MalformedRecord)
    } else if attributes_of(f[8]) is None {
        Err(Error::AttributeMissing)
    } else {
        Ok(
            RecordView {
                feature_type: feature_type_of(f[2])->Some_0,
                start: decimal_usize(f[3])->Some_0,
                end: decimal_usize(f[4])->Some_0,
                strand: strand_of(f[6])->Some_0,
                gene_id: attributes_of(f[8])->Some_0.0,
                transcript_id: attributes_of(f[8])->Some_0.1,
            },
        )
    }
}

/// Distance between the two coordinates of a record.
pub open spec fn record_len(r: RecordView) -> nat {
    if r.end >= r.start {
        (r.end - r.start) as nat
    } else {
        (r.start - r.end) as nat
    }
}

impl GTFRecord {
    /// Parses one annotation line; comments are refused.
    pub fn from_str(s: &str) -> (r: Result<GTFRecord, Error>)
        ensures
            match r {
                Ok(rec) => parse_record(s@) == Ok::<RecordView, Error>(rec@),
                Err(e) => parse_record(s@) == Err::<RecordView, Error>(e),
            },
    {
        if starts_with_char(s, '#') {
            return Err(Error::Comment);
        }
        let cols = split_tabs(s);
        proof {
            assert forall|i: int| 0 <= i < cols@.len() implies tab_fields(s@)[i] == cols@[i]@ by {
                assert(cols.deep_view()[i] == cols@[i].deep_view());
            }
        }
        if cols.len() < 3 {
            return Err(Error::MalformedRecord);
        }
        let feature_type = match FeatureType::from_str(cols[2].as_str()) {
            Ok(f) => f,
            Err(e) => return Err(e),
        };
        if cols.len() < 4 {
            return Err(Error::MalformedRecord);
        }
        let start = match parse_usize(cols[3].as_str()) {
            Some(n) => n,
            None => return Err(Error::MalformedRecord),
        };
        if cols.len() < 5 {
            return Err(Error::MalformedRecord);
        }
        let end = match parse_usize(cols[4].as_str()) {
            Some(n) => n,
            None => return Err(Error::MalformedRecord),
        };
        if cols.len() < 7 {
            return Err(Error::MalformedRecord);
        }
        let strand = match Strand::from_str(cols[6].as_str()) {
            Ok(st) => st,
            Err(e) => return Err(e),
        };
        if cols.len() < 9 {
            return Err(Error::MalformedRecord);
        }
        let attributes = match Attributes::from_str(cols[8].as_str()) {
            Ok(a) => a,
            Err(e) => return Err(e),
        };
        Ok(GTFRecord { feature_type, start, end, strand, attributes })
    }

    /// The distance between start and end, used to rank transcripts of a gene.
    pub fn len(&self) -> (r: usize)
        ensures
            r == record_len(self@),
    {
        if self.end >= self.start {
            self.end - self.start
        } else {
            self.start - self.end
        }
    }
}

/// Not a comment, and a line that the coarse filter lets through.
pub open spec fn is_candidate(line: Seq<char>) -> bool {
    !(line.len() > 0 && line[0] == '#') && passes_line_filter(line)
}

/// Whether an annotation line is worth parsing: not a comment, and a chromosome 1
/// transcript or start codon of a protein-coding gene from HAVANA or ENSEMBL.
pub fn is_candidate_line(line: &str) -> (r: bool)
    ensures
        r == is_candidate(line@),
{
    if starts_with_char(line, '#') {
        return false;
    }
    if !starts_with_text(line, "chr1\t") {
        proof {
            if passes_line_filter(line@) {
                lemma_filtered_lines_start_with_chromosome(line@);
            }
        }
        return false;
    }
    matches_line_filter(
        "^chr1\t(?:HAVANA|ENSEMBL)\t(?:transcript|start_codon).*gene_type \"protein_coding\";",
        line,
    )
}


/// Takes one line of an annotation file: a line that is no candidate is skipped; a
/// candidate line is parsed and its record appended, or its error returned.
pub fn read_gtf_line(records: &mut Vec<GTFRecord>, line: &str) -> (r: Result<(), Error>)
    ensures
        !is_candidate(line@) ==> r is Ok && final(records)@ == old(records)@,
        is_candidate(line@) ==> match parse_record(line@) {
            Ok(v) => r is Ok && final(records)@.len() == old(records)@.len() + 1
                && final(records)@.drop_last() == old(records)@ && final(records)@.last()@ == v,
            Err(e) => r == Err::<(), Error>(e) && final(records)@ == old(records)@,
        },
{
    if !is_candidate_line(line) {
        return Ok(());
    }
    match GTFRecord::from_str(line) {
        Ok(rec) => {
            records.push(rec);
            proof {
                assert(records@.drop_last() =~= old(records)@);
            }
            Ok(())
        },
        Err(e) => Err(e),
    }
}

/// The records as plain values.
pub open spec fn record_views(recs: Seq<GTFRecord>) -> Seq<RecordView> {
    recs.map_values(|r: GTFRecord| r@)
}

/// `recs[j]` is a transcript of gene `gene`.
pub open spec fn is_transcript_of(recs: Seq<RecordView>, j: int, gene: Seq<char>) -> bool {
    &&& 0 <= j < recs.len()
    &&& recs[j].feature_type == FeatureType::Transcript
    &&& recs[j].gene_id == gene
}

/// Among the first `n` records, `recs[i]` is the transcript kept for its gene: every
/// earlier transcript of the gene is strictly shorter, and no later one is longer.
pub open spec fn longest_within(recs: Seq<RecordView>, n: int, i: int) -> bool {
    &&& 0 <= i < n <= recs.len()
    &&& recs[i].feature_type == FeatureType::Transcript
    &&& forall|j: int|
        0 <= j < i && #[trigger] is_transcript_of(recs, j, recs[i].gene_id) ==> record_len(recs[j])
            < record_len(recs[i])
    &&& forall|j: int|
        i < j < n && #[trigger] is_transcript_of(recs, j, recs[i].gene_id) ==> record_len(recs[j])
            <= record_len(recs[i])
}

/// `recs[i]` is the longest transcript of its gene, the first one among equally long ones.
pub open spec fn is_longest_transcript(recs: Seq<RecordView>, i: int) -> bool {
    longest_within(recs, recs.len() as int, i)
}

proof fn lemma_longest_unique(recs: Seq<RecordView>, n: int, i1: int, i2: int)
    requires
        longest_within(recs, n, i1),
        longest_within(recs, n, i2),
        recs[i1].gene_id == recs[i2].gene_id,
    ensures
        i1 == i2,
{
    if i1 < i2 {
        assert(is_transcript_of(recs, i1, recs[i2].gene_id));
        assert(is_transcript_of(recs, i2, recs[i1].gene_id));
    } else if i2 < i1 {
        assert(is_transcript_of(recs, i2, recs[i1].gene_id));
        assert(is_transcript_of(recs, i1, recs[i2].gene_id));
    }
}

/// After the first `i` records, `best` holds one index per gene seen so far: that of
/// its longest transcript.
#[verifier::opaque]
pub open spec fn selection_state(recs: Seq<RecordView>, i: int, best: Seq<usize>) -> bool {
    &&& 0 <= i <= recs.len()
    &&& forall|k: int| 0 <= k < best.len() ==> longest_within(recs, i, #[trigger] best[k] as int)
    &&& forall|k1: int, k2: int|
        0 <= k1 < best.len() && 0 <= k2 < best.len() && k1 != k2 ==> recs[#[trigger] best[k1] as int].gene_id
            != recs[#[trigger] best[k2] as int].gene_id
    &&& forall|j: int| 0 <= j < i && #[trigger] is_transcript_at(recs, j) ==> gene_seen(recs, best, recs[j].gene_id)
}

pub open spec fn is_transcript_at(recs: Seq<RecordView>, j: int) -> bool {
    recs[j].feature_type == FeatureType::Transcript
}

/// Some index in `best` is a record of gene `gene`.
pub open spec fn gene_seen(recs: Seq<RecordView>, best: Seq<usize>, gene: Seq<char>) -> bool {
    exists|k: int| 0 <= k < best.len() && recs[#[trigger] best[k] as int].gene_id == gene
}

proof fn lemma_skip(recs: Seq<RecordView>, i: int, best: Seq<usize>)
    requires
        selection_state(recs, i, best),
        i < recs.len(),
        recs[i].feature_type != FeatureType::Transcript,
    ensures
        selection_state(recs, i + 1, best),
        forall|k: int| 0 <= k < best.len() ==> #[trigger] best[k] <= i,
{
    reveal(selection_state);
    assert forall|k2: int| 0 <= k2 < best.len() implies longest_within(recs, i + 1, #[trigger] best[k2] as int) by {
        assert(longest_within(recs, i, best[k2] as int));
        assert(!is_transcript_of(recs, i, recs[best[k2] as int].gene_id));
    }
}

proof fn lemma_keep(recs: Seq<RecordView>, i: int, best: Seq<usize>, k: int)
    requires
        selection_state(recs, i, best),
        i < recs.len(),
        recs[i].feature_type == FeatureType::Transcript,
        0 <= k < best.len(),
        recs[best[k] as int].gene_id == recs[i].gene_id,
        record_len(recs[i]) <= record_len(recs[best[k] as int]),
    ensures
        selection_state(recs, i + 1, best),
        forall|k: int| 0 <= k < best.len() ==> #[trigger] best[k] <= i,
{
    reveal(selection_state);
    assert forall|k2: int| 0 <= k2 < best.len() implies longest_within(recs, i + 1, #[trigger] best[k2] as int) by {
        assert(longest_within(recs, i, best[k2] as int));
        if k2 != k {
            assert(best[k2] != best[k]);
            assert(!is_transcript_of(recs, i, recs[best[k2] as int].gene_id));
        }
    }
    assert forall|j: int|
        0 <= j < i + 1 && #[trigger] is_transcript_at(recs, j) implies gene_seen(recs, best, recs[j].gene_id) by {
        if j == i {
            assert(recs[best[k] as int].gene_id == recs[j].gene_id);
        }
    }
}

proof fn lemma_replace(recs: Seq<RecordView>, i: int, best: Seq<usize>, k: int)
    requires
        selection_state(recs, i, best),
        i < recs.len(),
        i <= usize::MAX,
        recs[i].feature_type == FeatureType::Transcript,
        0 <= k < best.len(),
        recs[best[k] as int].gene_id == recs[i].gene_id,
        record_len(recs[i]) > record_len(recs[best[k] as int]),
    ensures
        selection_state(recs, i + 1, best.update(k, i as usize)),
        forall|k2: int| 0 <= k2 < best.len() ==> #[trigger] best.update(k, i as usize)[k2] <= i,
{
    reveal(selection_state);
    let cur = best[k] as int;
    let nb = best.update(k, i as usize);
    assert(longest_within(recs, i, cur));
    assert forall|k2: int| 0 <= k2 < nb.len() implies longest_within(recs, i + 1, #[trigger] nb[k2] as int) by {
        if k2 == k {
            assert forall|j: int| 0 <= j < i && #[trigger] is_transcript_of(recs, j, recs[i].gene_id) implies record_len(recs[j]) < record_len(recs[i]) by {
                if j < cur {
                    assert(is_transcript_of(recs, j, recs[cur].gene_id));
                } else if j > cur {
                    assert(is_transcript_of(recs, j, recs[cur].gene_id));
                }
            }
        } else {
            assert(longest_within(recs, i, best[k2] as int));
            assert(best[k2] != best[k]);
            assert(!is_transcript_of(recs, i, recs[best[k2] as int].gene_id));
        }
    }
    assert forall|k1: int, k2: int|
        0 <= k1 < nb.len() && 0 <= k2 < nb.len() && k1 != k2 implies recs[#[trigger] nb[k1] as int].gene_id
            != recs[#[trigger] nb[k2] as int].gene_id by {
        assert(best[k1] != best[k2]);
    }
    assert forall|j: int|
        0 <= j < i + 1 && #[trigger] is_transcript_at(recs, j) implies gene_seen(recs, nb, recs[j].gene_id) by {
        if j == i {
            assert(recs[nb[k] as int].gene_id == recs[j].gene_id);
        } else {
            assert(gene_seen(recs, best, recs[j].gene_id));
            let k3 = choose|k3: int| 0 <= k3 < best.len() && recs[#[trigger] best[k3] as int].gene_id == recs[j].gene_id;
            if k3 == k {
                assert(recs[nb[k] as int].gene_id == recs[j].gene_id);
            } else {
                assert(recs[nb[k3] as int].gene_id == recs[j].gene_id);
            }
        }
    }
}

proof fn lemma_add(recs: Seq<RecordView>, i: int, best: Seq<usize>)
    requires
        selection_state(recs, i, best),
        i < recs.len(),
        i <= usize::MAX,
        recs[i].feature_type == FeatureType::Transcript,
        forall|k: int| 0 <= k < best.len() ==> recs[#[trigger] best[k] as int].gene_id != recs[i].gene_id,
    ensures
        selection_state(recs, i + 1, best.push(i as usize)),
        forall|k2: int| 0 <= k2 < best.len() + 1 ==> #[trigger] best.push(i as usize)[k2] <= i,
{
    reveal(selection_state);
    let nb = best.push(i as usize);
    assert(forall|j: int| 0 <= j < i && #[trigger] is_transcript_at(recs, j) ==> gene_seen(recs, best, recs[j].gene_id));
    assert forall|k2: int| 0 <= k2 < nb.len() implies longest_within(recs, i + 1, #[trigger] nb[k2] as int) by {
        if k2 < best.len() {
            assert(nb[k2] == best[k2]);
            assert(longest_within(recs, i, best[k2] as int));
            assert(!is_transcript_of(recs, i, recs[best[k2] as int].gene_id));
        } else {
            assert forall|j: int| 0 <= j < i && #[trigger] is_transcript_of(recs, j, recs[i].gene_id) implies record_len(recs[j]) < record_len(recs[i]) by {
                assert(is_transcript_at(recs, j));
                assert(gene_seen(recs, best, recs[j].gene_id));
                let k3 = choose|k3: int| 0 <= k3 < best.len() && recs[#[trigger] best[k3] as int].gene_id == recs[j].gene_id;
                assert(recs[best[k3] as int].gene_id != recs[i].gene_id);
            }
        }
    }
    assert forall|k1: int, k2: int|
        0 <= k1 < nb.len() && 0 <= k2 < nb.len() && k1 != k2 implies recs[#[trigger] nb[k1] as int].gene_id
            != recs[#[trigger] nb[k2] as int].gene_id by {
        if k1 < best.len() && k2 < best.len() {
            assert(nb[k1] == best[k1] && nb[k2] == best[k2]);
        } else if k1 < best.len() {
            assert(nb[k1] == best[k1]);
        } else {
            assert(nb[k2] == best[k2]);
        }
    }
    assert forall|j: int|
        0 <= j < i + 1 && #[trigger] is_transcript_at(recs, j) implies gene_seen(recs, nb, recs[j].gene_id) by {
        if j == i {
            assert(recs[nb[best.len() as int] as int].gene_id == recs[j].gene_id);
        } else {
            assert(gene_seen(recs, best, recs[j].gene_id));
            let k3 = choose|k3: int| 0 <= k3 < best.len() && recs[#[trigger] best[k3] as int].gene_id == recs[j].gene_id;
            assert(recs[nb[k3] as int].gene_id == recs[j].gene_id);
        }
    }
}

proof fn lemma_state_facts(recs: Seq<RecordView>, i: int, best: Seq<usize>)
    requires
        selection_state(recs, i, best),
    ensures
        forall|k: int| 0 <= k < best.len() ==> longest_within(recs, i, #[trigger] best[k] as int),
        forall|k1: int, k2: int|
            0 <= k1 < best.len() && 0 <= k2 < best.len() && k1 != k2 ==> recs[#[trigger] best[k1] as int].gene_id
                != recs[#[trigger] best[k2] as int].gene_id,
        forall|j: int| 0 <= j < i && #[trigger] is_transcript_at(recs, j) ==> gene_seen(recs, best, recs[j].gene_id),
{
    reveal(selection_state);
}

proof fn lemma_empty_state(recs: Seq<RecordView>)
    ensures
        selection_state(recs, 0, Seq::<usize>::empty()),
{
    reveal(selection_state);
}

/// `v` is the record of a transcript that is the longest of its gene.
pub open spec fn is_longest_of(recs: Seq<RecordView>, v: RecordView) -> bool {
    exists|i: int| is_longest_transcript(recs, i) && v == recs[i]
}

/// The selected records as plain values.
pub open spec fn kept_views(kept: Seq<&GTFRecord>) -> Seq<RecordView> {
    kept.map_values(|r: &GTFRecord| r@)
}

/// `kept` is a selection of `recs`: the longest transcript of every gene, the first
/// among equally long ones, each gene once.
pub open spec fn is_selection_of(recs: Seq<RecordView>, kept: Seq<RecordView>) -> bool {
    &&& forall|k: int| 0 <= k < kept.len() ==> is_longest_of(recs, #[trigger] kept[k])
    &&& forall|i: int|
        #[trigger] is_longest_transcript(recs, i) ==> exists|k: int| 0 <= k < kept.len() && #[trigger] kept[k] == recs[i]
    &&& forall|k1: int, k2: int|
        0 <= k1 < kept.len() && 0 <= k2 < kept.len() && k1 != k2 ==> (#[trigger] kept[k1]).gene_id
            != (#[trigger] kept[k2]).gene_id
}

/// Selection keeps at most one transcript per gene, and the one it keeps is at least as
/// long as every transcript of that gene.
pub proof fn lemma_selection_one_longest_per_gene(recs: Seq<RecordView>, kept: Seq<RecordView>)
    requires
        is_selection_of(recs, kept),
    ensures
        forall|k1: int, k2: int|
            0 <= k1 < kept.len() && 0 <= k2 < kept.len() && (#[trigger] kept[k1]).gene_id == (
            #[trigger] kept[k2]).gene_id ==> k1 == k2,
        forall|k: int| 0 <= k < kept.len() ==> (#[trigger] kept[k]).feature_type == FeatureType::Transcript,
        forall|k: int, j: int|
            0 <= k < kept.len() && #[trigger] is_transcript_of(recs, j, (#[trigger] kept[k]).gene_id)
                ==> record_len(recs[j]) <= record_len(kept[k]),
{
    assert forall|k: int| 0 <= k < kept.len() implies (#[trigger] kept[k]).feature_type == FeatureType::Transcript by {
        assert(is_longest_of(recs, kept[k]));
    }
    assert forall|k: int, j: int|
        0 <= k < kept.len() && #[trigger] is_transcript_of(recs, j, (#[trigger] kept[k]).gene_id)
            implies record_len(recs[j]) <= record_len(kept[k]) by {
        assert(is_longest_of(recs, kept[k]));
        let i = choose|i: int| is_longest_transcript(recs, i) && kept[k] == recs[i];
        assert(longest_within(recs, recs.len() as int, i));
        if j < i {
            assert(is_transcript_of(recs, j, recs[i].gene_id));
        } else if j > i {
            assert(is_transcript_of(recs, j, recs[i].gene_id));
        }
    }
}

/// Picks one transcript per gene: the longest, and of equally long ones the first.
pub fn get_longest_transcripts(gtf_records: &[GTFRecord]) -> (r: Result<Vec<&GTFRecord>, Error>)
    ensures
        r is Ok,
        is_selection_of(record_views(gtf_records@), kept_views(r->Ok_0@)),
{
    let ghost recs = record_views(gtf_records@);
    let n = gtf_records.len();
    let mut best: Vec<usize> = Vec::new();
    let mut i: usize = 0;
    proof {
        lemma_empty_state(recs);
    }
    while i < n
        invariant
            n == gtf_records@.len() == recs.len(),
            recs == record_views(gtf_records@),
            i <= n,
            selection_state(recs, i as int, best@),
        decreases n - i,
    {
        let ghost old_best = best@;
        proof {
            lemma_state_facts(recs, i as int, best@);
        }
        if gtf_records[i].feature_type == FeatureType::Transcript {
            let mut k: usize = 0;
            let mut found = false;
            while k < best.len() && !found
                invariant
                    0 <= k <= best@.len(),
                    i < n == gtf_records@.len() == recs.len(),
                    recs == record_views(gtf_records@),
                    best@ == old_best,
                    selection_state(recs, i as int, best@),
                    forall|k2: int| 0 <= k2 < best@.len() ==> longest_within(recs, i as int, #[trigger] best@[k2] as int),
                    !found ==> forall|k2: int| 0 <= k2 < k ==> recs[#[trigger] best@[k2] as int].gene_id != recs[i as int].gene_id,
                    found ==> k < best@.len() && recs[best@[k as int] as int].gene_id == recs[i as int].gene_id,
                decreases best@.len() - k + if found { 0int } else { 1int },
            {
                proof {
                    assert(longest_within(recs, i as int, best@[k as int] as int));
                }
                if gtf_records[best[k]].attributes.gene_id == gtf_records[i].attributes.gene_id {
                    found = true;
                } else {
                    k = k + 1;
                }
            }
            if found {
                let cur = best[k];
                proof {
                    assert(longest_within(recs, i as int, cur as int));
                }
                if gtf_records[i].len() > gtf_records[cur].len() {
                    proof {
                        lemma_replace(recs, i as int, best@, k as int);
                    }
                    best.set(k, i);
                } else {
                    proof {
                        lemma_keep(recs, i as int, best@, k as int);
                    }
                }
            } else {
                proof {
                    lemma_add(recs, i as int, best@);
                }
                best.push(i);
            }
        } else {
            proof {
                lemma_skip(recs, i as int, best@);
            }
        }
        i = i + 1;
    }
    let mut out: Vec<&GTFRecord> = Vec::new();
    let mut k: usize = 0;
    proof {
        lemma_state_facts(recs, n as int, best@);
    }
    while k < best.len()
        invariant
            0 <= k <= best@.len(),
            out@.len() == k,
            n == gtf_records@.len() == recs.len(),
            selection_state(recs, n as int, best@),
            forall|k2: int| 0 <= k2 < best@.len() ==> longest_within(recs, n as int, #[trigger] best@[k2] as int),
            forall|k2: int| 0 <= k2 < k ==> #[trigger] out@[k2]@ == recs[best@[k2] as int],
            recs == record_views(gtf_records@),
        decreases best@.len() - k,
    {
        proof {
            assert(longest_within(recs, n as int, best@[k as int] as int));
        }
        out.push(&gtf_records[best[k]]);
        k = k + 1;
    }
    proof {
        let kv = kept_views(out@);
        assert forall|k2: int| 0 <= k2 < kv.len() implies is_longest_of(recs, #[trigger] kv[k2]) by {
            assert(kv[k2] == out@[k2]@);
            assert(longest_within(recs, n as int, best@[k2] as int));
            assert(is_longest_transcript(recs, best@[k2] as int) && out@[k2]@ == recs[best@[k2] as int]);
        }
        assert forall|i2: int| #[trigger] is_longest_transcript(recs, i2) implies exists|k2: int|
            0 <= k2 < kv.len() && #[trigger] kv[k2] == recs[i2] by {
            assert(is_transcript_at(recs, i2));
            assert(gene_seen(recs, best@, recs[i2].gene_id));
            let k3 = choose|k3: int| 0 <= k3 < best@.len() && recs[#[trigger] best@[k3] as int].gene_id == recs[i2].gene_id;
            assert(longest_within(recs, n as int, best@[k3] as int));
            lemma_longest_unique(recs, n as int, i2, best@[k3] as int);
            assert(kv[k3] == out@[k3]@);
            assert(kv[k3] == recs[i2]);
        }
        assert forall|k1: int, k2: int|
            0 <= k1 < kv.len() && 0 <= k2 < kv.len() && k1 != k2 implies (#[trigger] kv[k1]).gene_id
                != (#[trigger] kv[k2]).gene_id by {
            assert(kv[k1] == out@[k1]@);
            assert(kv[k2] == out@[k2]@);
            assert(recs[best@[k1] as int].gene_id != recs[best@[k2] as int].gene_id);
        }
    }
    Ok(out)
}

} // verus!
