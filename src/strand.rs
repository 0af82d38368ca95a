use vstd::prelude::*;

verus! {

/// The strand a call was made on.
#[derive(Debug, PartialEq, Eq, Structural, Clone, Copy, Hash)]
pub enum Strand {
    Positive,
    Negative,
}

/// The strand written by `text` in a pileup column: `+` or `-`.
pub open spec fn strand_of_code(text: Seq<u8>) -> Option<Strand> {
    if text == seq![43u8] {
        Some(Strand::Positive)
    } else if text == seq![45u8] {
        Some(Strand::Negative)
    } else {
        None
    }
}

impl Strand {
    /// Reads a strand symbol.
    pub fn from_bytes(text: &[u8]) -> (r: Option<Strand>)
        ensures
            r == strand_of_code(text@),
    {
        if text.len() == 1 && text[0] == 43u8 {
            assert(text@ =~= seq![43u8]);
            Some(Strand::Positive)
        } else if text.len() == 1 && text[0] == 45u8 {
            assert(text@ =~= seq![45u8]);
            Some(Strand::Negative)
        } else {
            None
        }
    }

    /// The symbol of the strand.
    pub fn to_string(&self) -> (r: &'static str)
        ensures
            r@ == (if *self == Strand::Positive { seq!['+'] } else { seq!['-'] }),
    {
        match self {
            Strand::Positive => {
                proof { reveal_strlit("+"); }
                "+"
            },
            Strand::Negative => {
                proof { reveal_strlit("-"); }
                "-"
            },
        }
    }
}

} // verus!
