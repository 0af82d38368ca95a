use vstd::prelude::*;

verus! {

/// Why a motif, a motif pair or one of their parts was refused.
#[derive(Debug, Clone, Copy, PartialEq, Eq, Structural)]
pub enum MotifError {
    /// A character that is not one of the fifteen IUPAC nucleotide symbols.
    InvalidBase(char),
    /// A modification type that is not recognised.
    InvalidModType,
    /// A modified position outside the motif's sequence.
    PositionOutOfRange,
    /// A motif pair specification without exactly five `_`-separated parts.
    InvalidPairString,
    /// A position field that is not a number from 0 to 255.
    InvalidPosition,
    /// A partner motif whose sequence is not the reverse complement of the
    /// forward motif's.
    IncompatiblePair,
}

/// Why records could not be merged into a workspace.
#[derive(Debug, Clone, Copy, PartialEq, Eq, Structural)]
pub enum WorkspaceError {
    /// No reference sequence was found for a chunk's reference.
    MissingReference,
}

} // verus!
