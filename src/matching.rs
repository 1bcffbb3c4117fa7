//! Regular-expression matching of annotation lines, resting on the `regex` crate.
use vstd::prelude::*;

verus! {

/// The pattern that picks the `gene_id "ENSG…"` attribute.
pub open spec fn gene_id_pattern() -> Seq<char> {
    "gene_id \"(ENSG[^\"]+)\""@
}

/// The pattern that picks the `transcript_id "ENST…"` attribute.
pub open spec fn transcript_id_pattern() -> Seq<char> {
    "transcript_id \"(ENST[^\"]+)\""@
}

/// The coarse pattern that an annotation line must match to be parsed at all.
pub open spec fn line_filter_pattern() -> Seq<char> {
    "^chr1\t(?:HAVANA|ENSEMBL)\t(?:transcript|start_codon).*gene_type \"protein_coding\";"@
}

/// At `i`, `t` holds `name`, then `prefix`, then at least one character that is
/// not a double quote, and a double quote somewhere after it.
pub open spec fn quoted_at(t: Seq<char>, name: Seq<char>, prefix: Seq<char>, i: int) -> bool {
    let k = i + name.len() + prefix.len();
    &&& 0 <= i
    &&& k < t.len()
    &&& t.subrange(i, i + name.len()) == name
    &&& t.subrange(i + name.len(), k) == prefix
    &&& t[k] != '"'
    &&& exists|j: int| k < j < t.len() && t[j] == '"'
}

/// The position of the first double quote in `t` at or after `k`.
pub open spec fn next_quote(t: Seq<char>, k: int) -> int {
    choose|j: int| k <= j < t.len() && t[j] == '"' && forall|m: int| k <= m < j ==> t[m] != '"'
}

/// The text quoted by the leftmost `name prefix…"` in `t`: `prefix` and what follows
/// it up to the closing double quote.
#[verifier::opaque]
pub open spec fn first_quoted(t: Seq<char>, name: Seq<char>, prefix: Seq<char>) -> Option<
    Seq<char>,
> {
    if exists|i: int| quoted_at(t, name, prefix, i) {
        let i = choose|i: int|
            quoted_at(t, name, prefix, i) && forall|m: int| 0 <= m < i ==> !quoted_at(t, name, prefix, m);
        Some(t.subrange(i + name.len(), next_quote(t, i + name.len() + prefix.len())))
    } else {
        None
    }
}

pub open spec fn gene_id_of(t: Seq<char>) -> Option<Seq<char>> {
    first_quoted(t, "gene_id \""@, "ENSG"@)
}

pub open spec fn transcript_id_of(t: Seq<char>) -> Option<Seq<char>> {
    first_quoted(t, "transcript_id \""@, "ENST"@)
}

pub open spec fn text_option(r: Option<String>) -> Option<Seq<char>> {
    match r {
        Some(v) => Some(v@),
        None => None,
    }
}

/// `t` starts with `head`, and `tail` follows later with no line break in between.
pub open spec fn head_then_tail(t: Seq<char>, head: Seq<char>, tail: Seq<char>) -> bool {
    &&& head.len() <= t.len()
    &&& t.subrange(0, head.len() as int) == head
    &&& exists|k: int|
        head.len() <= k && k + tail.len() <= t.len() && #[trigger] t.subrange(k, k + tail.len()) == tail
            && forall|m: int| head.len() <= m < k ==> t[m] != '\n'
}

/// A line of chromosome 1, from HAVANA or ENSEMBL, for a transcript or a start codon,
/// that names a protein-coding gene.
pub open spec fn passes_line_filter(t: Seq<char>) -> bool {
    let tail = "gene_type \"protein_coding\";"@;
    ||| head_then_tail(t, "chr1\tHAVANA\ttranscript"@, tail)
    ||| head_then_tail(t, "chr1\tHAVANA\tstart_codon"@, tail)
    ||| head_then_tail(t, "chr1\tENSEMBL\ttranscript"@, tail)
    ||| head_then_tail(t, "chr1\tENSEMBL\tstart_codon"@, tail)
}

/// Every line that the filter lets through starts with `chr1` and a tab.
pub proof fn lemma_filtered_lines_start_with_chromosome(t: Seq<char>)
    requires
        passes_line_filter(t),
    ensures
        5 <= t.len() && t.subrange(0, 5) == "chr1\t"@,
{
    reveal_strlit("chr1\t");
    reveal_strlit("chr1\tHAVANA\ttranscript");
    reveal_strlit("chr1\tHAVANA\tstart_codon");
    reveal_strlit("chr1\tENSEMBL\ttranscript");
    reveal_strlit("chr1\tENSEMBL\tstart_codon");
    let heads = seq![
        "chr1\tHAVANA\ttranscript"@,
        "chr1\tHAVANA\tstart_codon"@,
        "chr1\tENSEMBL\ttranscript"@,
        "chr1\tENSEMBL\tstart_codon"@,
    ];
    let tail = "gene_type \"protein_coding\";"@;
    assert(exists|h: int| 0 <= h < 4 && head_then_tail(t, #[trigger] heads[h], tail));
    let h = choose|h: int| 0 <= h < 4 && head_then_tail(t, #[trigger] heads[h], tail);
    assert(t.subrange(0, 5) =~= heads[h].subrange(0, 5));
    assert(heads[h].subrange(0, 5) =~= "chr1\t"@);
}

/// Relies on `regex::Regex::captures`: the first capture group of the leftmost match
/// of one of the two attribute patterns, which both compile.
#[verifier::external_body]
pub(crate) fn first_capture(pattern: &str, text: &str) -> (r: Option<String>)
    requires
        pattern@ == gene_id_pattern() || pattern@ == transcript_id_pattern(),
    ensures
        pattern@ == gene_id_pattern() ==> text_option(r) == gene_id_of(text@),
        pattern@ == transcript_id_pattern() ==> text_option(r) == transcript_id_of(text@),
{
    let re = regex::Regex::new(pattern).unwrap();
    re.captures(text).and_then(|c| c.get(1)).map(|m| m.as_str().to_string())
}

/// Relies on `regex::Regex::is_match` with the line filter pattern, which compiles.
#[verifier::external_body]
pub(crate) fn matches_line_filter(pattern: &str, text: &str) -> (r: bool)
    requires
        pattern@ == line_filter_pattern(),
    ensures
        r == passes_line_filter(text@),
{
    regex::Regex::new(pattern).unwrap().is_match(text)
}

} // verus!
