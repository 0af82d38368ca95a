use vstd::prelude::*;

use crate::error::MotifError;

verus! {

/// One of the fifteen IUPAC nucleotide symbols.
#[derive(Debug, PartialEq, Eq, Structural, Clone, Copy, Hash)]
pub enum IupacBase {
    A,
    C,
    G,
    T,
    R,
    Y,
    S,
    W,
    K,
    M,
    B,
    D,
    H,
    V,
    N,
}

/// The letter that writes `b`.
pub open spec fn base_symbol(b: IupacBase) -> char {
    match b {
        IupacBase::A => 'A',
        IupacBase::C => 'C',
        IupacBase::G => 'G',
        IupacBase::T => 'T',
        IupacBase::R => 'R',
        IupacBase::Y => 'Y',
        IupacBase::S => 'S',
        IupacBase::W => 'W',
        IupacBase::K => 'K',
        IupacBase::M => 'M',
        IupacBase::B => 'B',
        IupacBase::D => 'D',
        IupacBase::H => 'H',
        IupacBase::V => 'V',
        IupacBase::N => 'N',
    }
}

/// The symbol that the letter `c` writes, if any (upper case only).
pub open spec fn base_of_symbol(c: char) -> Option<IupacBase> {
    match c {
        'A' => Some(IupacBase::A),
        'C' => Some(IupacBase::C),
        'G' => Some(IupacBase::G),
        'T' => Some(IupacBase::T),
        'R' => Some(IupacBase::R),
        'Y' => Some(IupacBase::Y),
        'S' => Some(IupacBase::S),
        'W' => Some(IupacBase::W),
        'K' => Some(IupacBase::K),
        'M' => Some(IupacBase::M),
        'B' => Some(IupacBase::B),
        'D' => Some(IupacBase::D),
        'H' => Some(IupacBase::H),
        'V' => Some(IupacBase::V),
        'N' => Some(IupacBase::N),
        _ => None,
    }
}

/// The regex that matches one nucleotide of the set that `b` stands for.
pub open spec fn base_regex(b: IupacBase) -> Seq<char> {
    match b {
        IupacBase::A => seq!['A'],
        IupacBase::C => seq!['C'],
        IupacBase::G => seq!['G'],
        IupacBase::T => seq!['T'],
        IupacBase::R => seq!['[', 'A', 'G', ']'],
        IupacBase::Y => seq!['[', 'C', 'T', ']'],
        IupacBase::S => seq!['[', 'G', 'C', ']'],
        IupacBase::W => seq!['[', 'A', 'T', ']'],
        IupacBase::K => seq!['[', 'G', 'T', ']'],
        IupacBase::M => seq!['[', 'A', 'C', ']'],
        IupacBase::B => seq!['[', 'C', 'G', 'T', ']'],
        IupacBase::D => seq!['[', 'A', 'G', 'T', ']'],
        IupacBase::H => seq!['[', 'A', 'C', 'T', ']'],
        IupacBase::V => seq!['[', 'A', 'C', 'G', ']'],
        IupacBase::N => seq!['.'],
    }
}

/// The Watson-Crick complement of `b`, extended over the degenerate symbols.
pub open spec fn base_complement(b: IupacBase) -> IupacBase {
    match b {
        IupacBase::A => IupacBase::T,
        IupacBase::C => IupacBase::G,
        IupacBase::G => IupacBase::C,
        IupacBase::T => IupacBase::A,
        IupacBase::R => IupacBase::Y,
        IupacBase::Y => IupacBase::R,
        IupacBase::S => IupacBase::S,
        IupacBase::W => IupacBase::W,
        IupacBase::K => IupacBase::M,
        IupacBase::M => IupacBase::K,
        IupacBase::B => IupacBase::V,
        IupacBase::D => IupacBase::H,
        IupacBase::H => IupacBase::D,
        IupacBase::V => IupacBase::B,
        IupacBase::N => IupacBase::N,
    }
}

/// Complementing twice gives the symbol back; S, W and N are their own
/// complement, and they are the only symbols that are.
pub proof fn lemma_complement_involution(b: IupacBase)
    ensures
        base_complement(base_complement(b)) == b,
        base_complement(b) == b <==> (b == IupacBase::S || b == IupacBase::W || b
            == IupacBase::N),
{
}

impl IupacBase {
    /// The regex character class of the symbol.
    pub fn to_regex(&self) -> (r: &'static str)
        ensures
            r@ == base_regex(*self),
    {
        match self {
            IupacBase::A => {
                proof { reveal_strlit("A"); }
                "A"
            },
            IupacBase::C => {
                proof { reveal_strlit("C"); }
                "C"
            },
            IupacBase::G => {
                proof { reveal_strlit("G"); }
                "G"
            },
            IupacBase::T => {
                proof { reveal_strlit("T"); }
                "T"
            },
            IupacBase::R => {
                proof { reveal_strlit("[AG]"); }
                "[AG]"
            },
            IupacBase::Y => {
                proof { reveal_strlit("[CT]"); }
                "[CT]"
            },
            IupacBase::S => {
                proof { reveal_strlit("[GC]"); }
                "[GC]"
            },
            IupacBase::W => {
                proof { reveal_strlit("[AT]"); }
                "[AT]"
            },
            IupacBase::K => {
                proof { reveal_strlit("[GT]"); }
                "[GT]"
            },
            IupacBase::M => {
                proof { reveal_strlit("[AC]"); }
                "[AC]"
            },
            IupacBase::B => {
                proof { reveal_strlit("[CGT]"); }
                "[CGT]"
            },
            IupacBase::D => {
                proof { reveal_strlit("[AGT]"); }
                "[AGT]"
            },
            IupacBase::H => {
                proof { reveal_strlit("[ACT]"); }
                "[ACT]"
            },
            IupacBase::V => {
                proof { reveal_strlit("[ACG]"); }
                "[ACG]"
            },
            IupacBase::N => {
                proof { reveal_strlit("."); }
                "."
            },
        }
    }

    /// The complementary symbol.
    pub fn complement(&self) -> (r: IupacBase)
        ensures
            r == base_complement(*self),
    {
        match self {
            IupacBase::A => IupacBase::T,
            IupacBase::C => IupacBase::G,
            IupacBase::G => IupacBase::C,
            IupacBase::T => IupacBase::A,
            IupacBase::R => IupacBase::Y,
            IupacBase::Y => IupacBase::R,
            IupacBase::S => IupacBase::S,
            IupacBase::W => IupacBase::W,
            IupacBase::K => IupacBase::M,
            IupacBase::M => IupacBase::K,
            IupacBase::B => IupacBase::V,
            IupacBase::D => IupacBase::H,
            IupacBase::H => IupacBase::D,
            IupacBase::V => IupacBase::B,
            IupacBase::N => IupacBase::N,
        }
    }

    /// The letter of the symbol, as a string.
    pub fn to_string(&self) -> (r: &'static str)
        ensures
            r@ == seq![base_symbol(*self)],
    {
        match self {
            IupacBase::A => {
                proof { reveal_strlit("A"); }
                "A"
            },
            IupacBase::C => {
                proof { reveal_strlit("C"); }
                "C"
            },
            IupacBase::G => {
                proof { reveal_strlit("G"); }
                "G"
            },
            IupacBase::T => {
                proof { reveal_strlit("T"); }
                "T"
            },
            IupacBase::R => {
                proof { reveal_strlit("R"); }
                "R"
            },
            IupacBase::Y => {
                proof { reveal_strlit("Y"); }
                "Y"
            },
            IupacBase::S => {
                proof { reveal_strlit("S"); }
                "S"
            },
            IupacBase::W => {
                proof { reveal_strlit("W"); }
                "W"
            },
            IupacBase::K => {
                proof { reveal_strlit("K"); }
                "K"
            },
            IupacBase::M => {
                proof { reveal_strlit("M"); }
                "M"
            },
            IupacBase::B => {
                proof { reveal_strlit("B"); }
                "B"
            },
            IupacBase::D => {
                proof { reveal_strlit("D"); }
                "D"
            },
            IupacBase::H => {
                proof { reveal_strlit("H"); }
                "H"
            },
            IupacBase::V => {
                proof { reveal_strlit("V"); }
                "V"
            },
            IupacBase::N => {
                proof { reveal_strlit("N"); }
                "N"
            },
        }
    }

    /// Reads one IUPAC letter (upper case only).
    pub fn from_char(c: char) -> (r: Result<IupacBase, MotifError>)
        ensures
            r == (match base_of_symbol(c) {
                Some(b) => Ok(b),
                None => Err(MotifError::InvalidBase(c)),
            }),
    {
        match c {
            'A' => Ok(IupacBase::A),
            'C' => Ok(IupacBase::C),
            'G' => Ok(IupacBase::G),
            'T' => Ok(IupacBase::T),
            'R' => Ok(IupacBase::R),
            'Y' => Ok(IupacBase::Y),
            'S' => Ok(IupacBase::S),
            'W' => Ok(IupacBase::W),
            'K' => Ok(IupacBase::K),
            'M' => Ok(IupacBase::M),
            'B' => Ok(IupacBase::B),
            'D' => Ok(IupacBase::D),
            'H' => Ok(IupacBase::H),
            'V' => Ok(IupacBase::V),
            'N' => Ok(IupacBase::N),
            _ => Err(MotifError::InvalidBase(c)),
        }
    }
}

} // verus!
