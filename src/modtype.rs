use vstd::prelude::*;

verus! {

/// A base modification.
#[derive(Debug, PartialEq, Eq, Structural, Clone, Copy, Hash)]
pub enum ModType {
    /// N6-methyladenine, pileup code `a`.
    SixMA,
    /// 5-methylcytosine, pileup code `m`.
    FiveMC,
    /// N4-methylcytosine, pileup code `21839`.
    FourMC,
}

/// The modification that `text` names: its pileup code or its short name.
pub open spec fn mod_type_of_code(text: Seq<u8>) -> Option<ModType> {
    if text == seq![97u8] || text == seq![54u8, 109u8, 65u8] {
        Some(ModType::SixMA)
    } else if text == seq![109u8] || text == seq![53u8, 109u8, 67u8] {
        Some(ModType::FiveMC)
    } else if text == seq![50u8, 49u8, 56u8, 51u8, 57u8] || text == seq![52u8, 109u8, 67u8] {
        Some(ModType::FourMC)
    } else {
        None
    }
}

impl ModType {
    /// Reads a modification code (`a`, `m`, `21839`) or name (`6mA`, `5mC`, `4mC`).
    pub fn from_bytes(text: &[u8]) -> (r: Option<ModType>)
        ensures
            r == mod_type_of_code(text@),
    {
        let n = text.len();
        if n == 1 && text[0] == 97u8 {
            assert(text@ =~= seq![97u8]);
            Some(ModType::SixMA)
        } else if n == 3 && text[0] == 54u8 && text[1] == 109u8 && text[2] == 65u8 {
            assert(text@ =~= seq![54u8, 109u8, 65u8]);
            Some(ModType::SixMA)
        } else if n == 1 && text[0] == 109u8 {
            assert(text@ =~= seq![109u8]);
            Some(ModType::FiveMC)
        } else if n == 3 && text[0] == 53u8 && text[1] == 109u8 && text[2] == 67u8 {
            assert(text@ =~= seq![53u8, 109u8, 67u8]);
            Some(ModType::FiveMC)
        } else if n == 5 && text[0] == 50u8 && text[1] == 49u8 && text[2] == 56u8 && text[3]
            == 51u8 && text[4] == 57u8 {
            assert(text@ =~= seq![50u8, 49u8, 56u8, 51u8, 57u8]);
            Some(ModType::FourMC)
        } else if n == 3 && text[0] == 52u8 && text[1] == 109u8 && text[2] == 67u8 {
            assert(text@ =~= seq![52u8, 109u8, 67u8]);
            Some(ModType::FourMC)
        } else {
            proof {
                if text@.len() == 1 {
                    assert(text@ != seq![97u8] ==> text@[0] != 97u8);
                }
            }
            None
        }
    }

    /// The short name of the modification.
    pub fn to_string(&self) -> (r: &'static str)
        ensures
            r@ == (match *self {
                ModType::SixMA => seq!['6', 'm', 'A'],
                ModType::FiveMC => seq!['5', 'm', 'C'],
                ModType::FourMC => seq!['4', 'm', 'C'],
            }),
    {
        match self {
            ModType::SixMA => {
                proof { reveal_strlit("6mA"); }
                "6mA"
            },
            ModType::FiveMC => {
                proof { reveal_strlit("5mC"); }
                "5mC"
            },
            ModType::FourMC => {
                proof { reveal_strlit("4mC"); }
                "4mC"
            },
        }
    }
}

} // verus!
