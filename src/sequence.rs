use vstd::prelude::*;
use vstd::string::StringSliceAdditionalSpecFns;

use crate::modtype::ModType;
use crate::motif::{pattern_of, Motif};
use crate::pileup::{PileupChunk, PileupRecord};
use crate::strand::Strand;

verus! {

#[verifier::external_type_specification]
#[verifier::external_body]
pub struct ExAhashRandomState(ahash::RandomState);

/// Where a record is filed in a contig: position, strand and modification.
pub type RecordKey = (usize, Strand, ModType);

/// A contig's records, one per key.
pub type RecordMap = std::collections::HashMap<RecordKey, PileupRecord, ahash::RandomState>;

/// The key a record is filed under.
pub open spec fn record_key(r: PileupRecord) -> RecordKey {
    (r.position, r.strand, r.mod_type)
}

/// `m` after filing each of `records` in order, a later record replacing an
/// earlier one with the same key.
pub open spec fn with_records(m: Map<RecordKey, PileupRecord>, records: Seq<PileupRecord>) -> Map<
    RecordKey,
    PileupRecord,
>
    decreases records.len(),
{
    if records.len() == 0 {
        m
    } else {
        with_records(m, records.drop_last()).insert(record_key(records.last()), records.last())
    }
}

/// Relies on ahash's `HashMapExt::new`: a map with no entries.
#[verifier::external_body]
fn new_record_map() -> (r: RecordMap)
    ensures
        r@ =~= Map::empty(),
{
    <RecordMap as ahash::HashMapExt>::new()
}

/// Relies on `HashMap::insert`: the key maps to the record afterwards, and
/// every other entry stays.
#[verifier::external_body]
fn insert_record(m: &mut RecordMap, key: RecordKey, record: PileupRecord)
    ensures
        final(m)@ == old(m)@.insert(key, record),
{
    m.insert(key, record);
}

/// Relies on `HashMap::get`: the record filed under the key, if any.
#[verifier::external_body]
pub(crate) fn get_record<'a>(m: &'a RecordMap, key: &RecordKey) -> (r: Option<&'a PileupRecord>)
    ensures
        r is Some <==> m@.contains_key(*key),
        r matches Some(v) ==> *v == m@[*key],
{
    m.get(key)
}

/// The byte offsets at which the successive non-overlapping leftmost-first
/// matches of `pattern` start in `text`; `None` where `pattern` is not a
/// regex that compiles.
pub uninterp spec fn regex_match_starts(pattern: Seq<char>, text: Seq<char>) -> Option<Seq<usize>>;

/// Relies on `regex::Regex::new` and `Regex::find_iter`: the start of each
/// successive non-overlapping match, as a byte offset into `text`.
#[verifier::external_body]
fn find_match_starts(pattern: &str, text: &str) -> (r: Option<Vec<usize>>)
    ensures
        r is Some <==> regex_match_starts(pattern@, text@) is Some,
        r matches Some(v) ==> {
            &&& regex_match_starts(pattern@, text@) == Some(v@)
            &&& strictly_increasing(v@)
            &&& forall|i: int| 0 <= i < v@.len() ==> v@[i] <= text.spec_bytes().len()
        },
{
    let re = regex::Regex::new(pattern).ok()?;
    Some(re.find_iter(text).map(|m| m.start()).collect())
}

/// The modified-base indices of matches that start at `starts`, for a motif
/// whose modified base lies `offset` symbols into it: `None` where there is no
/// match or an index does not fit in a `usize`.
pub open spec fn motif_sites(starts: Seq<usize>, offset: usize) -> Option<Seq<usize>> {
    if starts.len() == 0 || exists|i: int| 0 <= i < starts.len() && #[trigger] starts[i] + offset
        > usize::MAX {
        None
    } else {
        Some(Seq::new(starts.len(), |i: int| (starts[i] + offset) as usize))
    }
}

/// Whether each element of `s` is below the next.
pub open spec fn strictly_increasing(s: Seq<usize>) -> bool {
    forall|i: int, j: int| 0 <= i < j < s.len() ==> s[i] < s[j]
}

/// The view of an optional list of indices.
pub open spec fn indices_view(r: Option<Vec<usize>>) -> Option<Seq<usize>> {
    match r {
        Some(v) => Some(v@),
        None => None,
    }
}

/// Shifts each match start by the motif's modified position.
pub fn sites_from_starts(starts: &Vec<usize>, offset: usize) -> (r: Option<Vec<usize>>)
    ensures
        indices_view(r) == motif_sites(starts@, offset),
        strictly_increasing(starts@) ==> (r matches Some(v) ==> strictly_increasing(v@)),
{
    if starts.len() == 0 {
        return None;
    }
    let mut sites: Vec<usize> = Vec::new();
    let mut i: usize = 0;
    while i < starts.len()
        invariant
            i <= starts@.len(),
            starts@.len() > 0,
            sites@.len() == i,
            forall|j: int| 0 <= j < i ==> starts@[j] + offset <= usize::MAX,
            forall|j: int| 0 <= j < i ==> sites@[j] == starts@[j] + offset,
        decreases starts@.len() - i,
    {
        if starts[i] > usize::MAX - offset {
            return None;
        }
        sites.push(starts[i] + offset);
        i = i + 1;
    }
    assert(sites@ =~= Seq::new(starts@.len(), |j: int| (starts@[j] + offset) as usize));
    Some(sites)
}

/// A reference sequence and the pileup records observed on it.
#[derive(Debug, Clone)]
pub struct Contig {
    pub reference: String,
    pub sequence: String,
    pub records: RecordMap,
}

impl Contig {
    /// A contig with no records.
    pub fn new(reference: &str, sequence: &str) -> (r: Contig)
        ensures
            r.reference@ == reference@,
            r.sequence@ == sequence@,
            r.records@ == Map::<RecordKey, PileupRecord>::empty(),
    {
        Contig {
            reference: reference.to_owned(),
            sequence: sequence.to_owned(),
            records: new_record_map(),
        }
    }

    /// Files a record under its position, strand and modification, replacing
    /// any record already filed there.
    pub fn add_record(&mut self, record: PileupRecord)
        ensures
            final(self).records@ == old(self).records@.insert(record_key(record), record),
            final(self).reference == old(self).reference,
            final(self).sequence == old(self).sequence,
    {
        let key = (record.position, record.strand, record.mod_type);
        insert_record(&mut self.records, key, record);
    }

    /// Files every record of a chunk of this contig, in order.
    pub fn add_records(&mut self, records: PileupChunk)
        requires
            records.reference@ == old(self).reference@,
        ensures
            final(self).records@ == with_records(old(self).records@, records.records@),
            final(self).reference == old(self).reference,
            final(self).sequence == old(self).sequence,
    {
        let ghost start = self.records@;
        let ghost all = records.records@;
        for record in it: records.records.into_iter()
            invariant
                it.seq() == all,
                self.records@ == with_records(start, all.subrange(0, it.index() as int)),
                self.reference == old(self).reference,
                self.sequence == old(self).sequence,
        {
            proof {
                let done = all.subrange(0, it.index() as int + 1);
                assert(done.drop_last() =~= all.subrange(0, it.index() as int));
            }
            self.add_record(record);
        }
        assert(all.subrange(0, all.len() as int) =~= all);
    }

    /// The index of the modified base of each non-overlapping match of the
    /// motif on the sequence, left to right; `None` where there is none.
    pub fn find_motif_indeces(&self, motif: &Motif) -> (r: Option<Vec<usize>>)
        ensures
            indices_view(r) == (match regex_match_starts(pattern_of(motif.sequence@), self.sequence@) {
                Some(starts) => motif_sites(starts, motif.position),
                None => None,
            }),
            r matches Some(v) ==> strictly_increasing(v@),
    {
        let pattern = motif.regex();
        match find_match_starts(pattern.as_str(), self.sequence.as_str()) {
            Some(starts) => sites_from_starts(&starts, motif.position),
            None => None,
        }
    }

    /// The index of the modified base of each non-overlapping match of the
    /// motif's reverse complement on the same forward sequence; `None` where
    /// there is none.
    pub fn find_complement_motif_indeces(&self, motif: &Motif) -> (r: Option<Vec<usize>>)
        requires
            motif@.wf(),
        ensures
            indices_view(r) == (match regex_match_starts(
                pattern_of(motif@.reverse_complement().sequence),
                self.sequence@,
            ) {
                Some(starts) => motif_sites(starts, motif@.reverse_complement().position as usize),
                None => None,
            }),
            r matches Some(v) ==> strictly_increasing(v@),
    {
        let complement = motif.reverse_complement();
        self.find_motif_indeces(&complement)
    }
}

} // verus!
