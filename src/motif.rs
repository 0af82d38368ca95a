use vstd::prelude::*;
use vstd::utf8::encode_utf8;
use vstd::string::{StrSliceExecFns, StringExecFns, StringSliceAdditionalSpecFns};

use crate::error::MotifError;
use crate::iupac::{
    base_complement, base_of_symbol, base_regex, base_symbol, lemma_complement_involution, IupacBase,
};
use crate::modtype::{mod_type_of_code, ModType};
use crate::text::{decimal_u8, parse_u8, split_on, split_underscores};

verus! {

/// A degenerate sequence with one modified position on it.
#[derive(Debug, Clone, PartialEq, Eq)]
pub struct Motif {
    pub sequence: Vec<IupacBase>,
    pub mod_type: ModType,
    pub position: usize,
}

/// What a motif is: its symbols, its modification and the index of the
/// modified symbol.
pub struct MotifView {
    pub sequence: Seq<IupacBase>,
    pub mod_type: ModType,
    pub position: int,
}

impl View for Motif {
    type V = MotifView;

    open spec fn view(&self) -> MotifView {
        MotifView { sequence: self.sequence@, mod_type: self.mod_type, position: self.position as int }
    }
}

/// `s` read backwards, each symbol complemented.
pub open spec fn reverse_complement_of(s: Seq<IupacBase>) -> Seq<IupacBase> {
    Seq::new(s.len(), |i: int| base_complement(s[s.len() - 1 - i]))
}

/// The regex pattern of a symbol sequence: the classes of its symbols in order.
pub open spec fn pattern_of(s: Seq<IupacBase>) -> Seq<char>
    decreases s.len(),
{
    if s.len() == 0 {
        Seq::empty()
    } else {
        pattern_of(s.drop_last()) + base_regex(s.last())
    }
}

impl MotifView {
    /// The modified position lies on the sequence.
    pub open spec fn wf(self) -> bool {
        0 <= self.position < self.sequence.len()
    }

    /// The same motif read on the opposite strand.
    pub open spec fn reverse_complement(self) -> MotifView {
        MotifView {
            sequence: reverse_complement_of(self.sequence),
            mod_type: self.mod_type,
            position: self.sequence.len() - 1 - self.position,
        }
    }
}

/// The letters that write the symbols of `s`.
pub open spec fn letters_of(s: Seq<IupacBase>) -> Seq<char> {
    Seq::new(s.len(), |i: int| base_symbol(s[i]))
}

/// The symbols that the letters of `s` write, where every letter is a symbol.
pub open spec fn bases_of(s: Seq<char>) -> Seq<IupacBase> {
    Seq::new(s.len(), |i: int| base_of_symbol(s[i])->Some_0)
}

/// The motif that `Motif::new` builds from its three parts.
pub open spec fn motif_from_parts(sequence: Seq<char>, mod_type: Seq<u8>, position: int) -> Result<
    MotifView,
    MotifError,
> {
    if exists|i: int| 0 <= i < sequence.len() && base_of_symbol(#[trigger] sequence[i]) is None {
        let i = choose|i: int|
            0 <= i < sequence.len() && base_of_symbol(#[trigger] sequence[i]) is None && forall|
                j: int,
            | 0 <= j < i ==> base_of_symbol(#[trigger] sequence[j]) is Some;
        Err(MotifError::InvalidBase(sequence[i]))
    } else if mod_type_of_code(mod_type) is None {
        Err(MotifError::InvalidModType)
    } else if position >= sequence.len() {
        Err(MotifError::PositionOutOfRange)
    } else {
        Ok(
            MotifView {
                sequence: bases_of(sequence),
                mod_type: mod_type_of_code(mod_type)->Some_0,
                position,
            },
        )
    }
}

/// Reverse complementing twice gives the motif back: the same sequence, the
/// same modification and the same modified position.
pub proof fn lemma_reverse_complement_involution(m: MotifView)
    requires
        m.wf(),
    ensures
        m.reverse_complement().wf(),
        m.reverse_complement().reverse_complement() == m,
{
    let r = m.reverse_complement().reverse_complement();
    assert forall|i: int| 0 <= i < m.sequence.len() implies r.sequence[i] == m.sequence[i] by {
        lemma_complement_involution(m.sequence[i]);
    }
    assert(r.sequence =~= m.sequence);
}

impl Motif {
    /// Builds a motif from its letters, its modification code or name, and the
    /// index of the modified letter.
    pub fn new(sequence: &str, mod_type: &str, position: usize) -> (r: Result<Motif, MotifError>)
        ensures
            match r {
                Ok(m) => motif_from_parts(sequence@, mod_type.spec_bytes(), position as int)
                    == Ok::<MotifView, MotifError>(m@),
                Err(e) => motif_from_parts(sequence@, mod_type.spec_bytes(), position as int)
                    == Err::<MotifView, MotifError>(e),
            },
    {
        let n = sequence.unicode_len();
        let mut bases: Vec<IupacBase> = Vec::new();
        let mut i: usize = 0;
        while i < n
            invariant
                n == sequence@.len(),
                i <= n,
                bases@.len() == i,
                forall|j: int| 0 <= j < i ==> base_of_symbol(#[trigger] sequence@[j]) is Some,
                forall|j: int| 0 <= j < i ==> bases@[j] == base_of_symbol(#[trigger] sequence@[j])->Some_0,
            decreases n - i,
        {
            let c = sequence.get_char(i);
            match IupacBase::from_char(c) {
                Ok(b) => bases.push(b),
                Err(e) => {
                    proof {
                        let s = sequence@;
                        let k = choose|k: int|
                            0 <= k < s.len() && base_of_symbol(#[trigger] s[k]) is None && forall|
                                j: int,
                            | 0 <= j < k ==> base_of_symbol(#[trigger] s[j]) is Some;
                        if k < i {
                        } else if k > i {
                            assert(base_of_symbol(s[i as int]) is Some);
                        }
                        assert(k == i);
                    }
                    return Err(e);
                },
            }
            i = i + 1;
        }
        let mod_type = match ModType::from_bytes(mod_type.as_bytes()) {
            Some(t) => t,
            None => return Err(MotifError::InvalidModType),
        };
        if position >= n {
            return Err(MotifError::PositionOutOfRange);
        }
        let m = Motif { sequence: bases, mod_type, position };
        assert(m@.sequence =~= bases_of(sequence@));
        Ok(m)
    }

    /// The same motif read on the opposite strand: the sequence reversed and
    /// complemented, the modified position counted from the other end.
    pub fn reverse_complement(&self) -> (r: Motif)
        requires
            self@.wf(),
        ensures
            r@ == self@.reverse_complement(),
    {
        let sequence = self.reverse_complement_sequence();
        let n = self.sequence.len();
        Motif { sequence, mod_type: self.mod_type, position: n - 1 - self.position }
    }

    /// The symbols of the reverse complement.
    pub fn reverse_complement_sequence(&self) -> (r: Vec<IupacBase>)
        ensures
            r@ == reverse_complement_of(self.sequence@),
    {
        let n = self.sequence.len();
        let mut sequence: Vec<IupacBase> = Vec::new();
        let mut i: usize = 0;
        while i < n
            invariant
                n == self.sequence@.len(),
                i <= n,
                sequence@ =~= reverse_complement_of(self.sequence@).subrange(0, i as int),
            decreases n - i,
        {
            sequence.push(self.sequence[n - 1 - i].complement());
            i = i + 1;
        }
        assert(sequence@ =~= reverse_complement_of(self.sequence@));
        sequence
    }

    /// The letters of the motif's sequence.
    pub fn sequence_string(&self) -> (r: String)
        ensures
            r@ == letters_of(self.sequence@),
    {
        let mut letters = String::new();
        let mut i: usize = 0;
        while i < self.sequence.len()
            invariant
                i <= self.sequence@.len(),
                letters@ =~= letters_of(self.sequence@.subrange(0, i as int)),
            decreases self.sequence@.len() - i,
        {
            let letter = self.sequence[i].to_string();
            letters.append(letter);
            i = i + 1;
        }
        assert(self.sequence@.subrange(0, self.sequence@.len() as int) =~= self.sequence@);
        letters
    }

    /// The regex pattern that matches the motif on a forward sequence.
    pub fn regex(&self) -> (r: String)
        ensures
            r@ == pattern_of(self.sequence@),
    {
        let mut pattern = String::new();
        let mut i: usize = 0;
        while i < self.sequence.len()
            invariant
                i <= self.sequence@.len(),
                pattern@ == pattern_of(self.sequence@.subrange(0, i as int)),
            decreases self.sequence@.len() - i,
        {
            let class = self.sequence[i].to_regex();
            pattern.append(class);
            proof {
                let s = self.sequence@.subrange(0, i as int + 1);
                assert(s.drop_last() =~= self.sequence@.subrange(0, i as int));
            }
            i = i + 1;
        }
        assert(self.sequence@.subrange(0, self.sequence@.len() as int) =~= self.sequence@);
        pattern
    }
}

/// A motif and its partner, the motif recognised on the opposite strand.
#[derive(Debug, Clone)]
pub struct MotifPair {
    pub forward: Motif,
    pub reverse: Motif,
    /// Whether the forward sequence is its own reverse complement.
    pub is_palindromic: bool,
}

impl MotifPair {
    /// Both motifs are well formed, the partner's sequence is the reverse
    /// complement of the forward one, and the palindrome flag is right.
    pub open spec fn wf(&self) -> bool {
        &&& self.forward@.wf()
        &&& self.reverse@.wf()
        &&& self.reverse.sequence@ == reverse_complement_of(self.forward.sequence@)
        &&& self.is_palindromic == (self.forward.sequence@ == reverse_complement_of(
            self.forward.sequence@,
        ))
    }

    /// Pairs two motifs, where the partner's sequence is the reverse
    /// complement of the forward motif's.
    pub fn new(forward: Motif, reverse: Motif) -> (r: Result<MotifPair, MotifError>)
        ensures
            r is Ok <==> (forward@.wf() && reverse@.wf() && reverse.sequence@
                == reverse_complement_of(forward.sequence@)),
            r matches Ok(p) ==> p.wf() && p.forward@ == forward@ && p.reverse@ == reverse@,
            r matches Err(e) ==> e == (if !forward@.wf() || !reverse@.wf() {
                MotifError::PositionOutOfRange
            } else {
                MotifError::IncompatiblePair
            }),
    {
        if forward.position >= forward.sequence.len() || reverse.position >= reverse.sequence.len() {
            return Err(MotifError::PositionOutOfRange);
        }
        let complement = forward.reverse_complement_sequence();
        if !same_bases(&reverse.sequence, &complement) {
            return Err(MotifError::IncompatiblePair);
        }
        let is_palindromic = same_bases(&forward.sequence, &complement);
        Ok(MotifPair { forward, reverse, is_palindromic })
    }
}

/// Whether two symbol sequences are equal.
fn same_bases(a: &Vec<IupacBase>, b: &Vec<IupacBase>) -> (r: bool)
    ensures
        r == (a@ == b@),
{
    if a.len() != b.len() {
        return false;
    }
    let mut i: usize = 0;
    while i < a.len()
        invariant
            a@.len() == b@.len(),
            i <= a@.len(),
            forall|j: int| 0 <= j < i ==> a@[j] == b@[j],
        decreases a@.len() - i,
    {
        if a[i] != b[i] {
            return false;
        }
        i = i + 1;
    }
    assert(a@ =~= b@);
    true
}

/// The forward motif and its partner that a specification
/// `SEQ_MODTYPE1_POS1_MODTYPE2_POS2` describes. The partner lies on the
/// reverse complement of `SEQ`, and `POS2` counts from that sequence's own 5'
/// end.
pub open spec fn motif_pair_from_text(s: Seq<char>) -> Result<(MotifView, MotifView), MotifError> {
    let parts = split_on(s, '_');
    if parts.len() != 5 {
        Err(MotifError::InvalidPairString)
    } else {
        match decimal_u8(parts[2]) {
            None => Err(MotifError::InvalidPosition),
            Some(p1) => match motif_from_parts(parts[0], encode_utf8(parts[1]), p1 as int) {
                Err(e) => Err(e),
                Ok(m1) => match decimal_u8(parts[4]) {
                    None => Err(MotifError::InvalidPosition),
                    Some(p2) => match mod_type_of_code(encode_utf8(parts[3])) {
                        None => Err(MotifError::InvalidModType),
                        Some(t2) => if p2 >= m1.sequence.len() {
                            Err(MotifError::PositionOutOfRange)
                        } else {
                            Ok(
                                (
                                    m1,
                                    MotifView {
                                        sequence: reverse_complement_of(m1.sequence),
                                        mod_type: t2,
                                        position: m1.sequence.len() - 1 - p2,
                                    },
                                ),
                            )
                        },
                    },
                },
            },
        }
    }
}

/// Reads one motif pair specification `SEQ_MODTYPE1_POS1_MODTYPE2_POS2`.
pub fn parse_motif_pair_string(motif_pair_string: String) -> (r: Result<MotifPair, MotifError>)
    ensures
        match r {
            Ok(p) => p.wf() && motif_pair_from_text(motif_pair_string@) == Ok::<
                (MotifView, MotifView),
                MotifError,
            >((p.forward@, p.reverse@)),
            Err(e) => motif_pair_from_text(motif_pair_string@) == Err::<
                (MotifView, MotifView),
                MotifError,
            >(e),
        },
{
    let parts = split_underscores(motif_pair_string.as_str());
    proof {
        assert(parts@.len() == split_on(motif_pair_string@, '_').len());
    }
    if parts.len() != 5 {
        return Err(MotifError::InvalidPairString);
    }
    proof {
        let v = parts@.map_values(|p: String| p@);
        assert(v[0] == parts@[0]@ && v[1] == parts@[1]@ && v[2] == parts@[2]@);
        assert(v[3] == parts@[3]@ && v[4] == parts@[4]@);
    }
    let position_1 = match parse_u8(parts[2].as_str()) {
        Some(p) => p,
        None => return Err(MotifError::InvalidPosition),
    };
    let motif_1 = Motif::new(parts[0].as_str(), parts[1].as_str(), position_1 as usize)?;
    let position_2 = match parse_u8(parts[4].as_str()) {
        Some(p) => p,
        None => return Err(MotifError::InvalidPosition),
    };
    let mod_type_2 = match ModType::from_bytes(parts[3].as_str().as_bytes()) {
        Some(t) => t,
        None => return Err(MotifError::InvalidModType),
    };
    let sequence_2 = motif_1.reverse_complement_sequence();
    let n = sequence_2.len();
    if position_2 as usize >= n {
        return Err(MotifError::PositionOutOfRange);
    }
    let motif_2 = Motif { sequence: sequence_2, mod_type: mod_type_2, position: n - 1 - position_2 as usize };
    MotifPair::new(motif_1, motif_2)
}

/// Reads every motif pair specification, stopping at the first that is refused.
pub fn parse_motif_pair_strings(motif_pair_strings: Vec<String>) -> (r: Result<
    Vec<MotifPair>,
    MotifError,
>)
    ensures
        match r {
            Ok(pairs) => pairs@.len() == motif_pair_strings@.len() && forall|i: int|
                0 <= i < pairs@.len() ==> #[trigger] pairs@[i].wf() && motif_pair_from_text(
                    motif_pair_strings@[i]@,
                ) == Ok::<(MotifView, MotifView), MotifError>(
                    (pairs@[i].forward@, pairs@[i].reverse@),
                ),
            Err(e) => exists|i: int|
                0 <= i < motif_pair_strings@.len() && motif_pair_from_text(
                    #[trigger] motif_pair_strings@[i]@,
                ) == Err::<(MotifView, MotifView), MotifError>(e) && forall|j: int|
                    0 <= j < i ==> motif_pair_from_text(#[trigger] motif_pair_strings@[j]@) is Ok,
        },
{
    let mut pairs: Vec<MotifPair> = Vec::new();
    let mut i: usize = 0;
    while i < motif_pair_strings.len()
        invariant
            i <= motif_pair_strings@.len(),
            pairs@.len() == i,
            forall|j: int|
                0 <= j < i ==> #[trigger] pairs@[j].wf() && motif_pair_from_text(
                    motif_pair_strings@[j]@,
                ) == Ok::<(MotifView, MotifView), MotifError>(
                    (pairs@[j].forward@, pairs@[j].reverse@),
                ),
        decreases motif_pair_strings@.len() - i,
    {
        let text = motif_pair_strings[i].clone();
        match parse_motif_pair_string(text) {
            Ok(p) => pairs.push(p),
            Err(e) => {
                proof {
                    assert forall|j: int| 0 <= j < i implies motif_pair_from_text(
                        #[trigger] motif_pair_strings@[j]@,
                    ) is Ok by {
                        assert(pairs@[j].wf());
                    }
                }
                return Err(e);
            },
        }
        i = i + 1;
    }
    Ok(pairs)
}

} // verus!
