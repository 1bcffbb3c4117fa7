//! Promoter windows, GC content and annotation parsing for a single chromosome.
pub mod aggregate;
pub mod error;
pub mod gc_content;
pub mod gtf;
pub mod matching;
pub mod motif;
pub mod nucleotide;
pub mod promoter;
pub mod text;
