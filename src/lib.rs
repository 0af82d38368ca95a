//! Pairs the methylation calls of a motif with those of its partner motif on
//! the opposite strand: IUPAC motifs, pileup chunking, contig scanning, record
//! pairing and the per-pair statistics.

pub mod error;
pub mod iupac;
pub mod modtype;
pub mod strand;
pub mod text;
pub mod motif;
pub mod pileup;
pub mod sequence;
pub mod evaluate;
pub mod cli;
pub mod data;
