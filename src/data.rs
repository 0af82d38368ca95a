use vstd::prelude::*;

use crate::error::WorkspaceError;
use crate::pileup::PileupChunk;
use crate::sequence::{with_records, Contig, RecordKey};
use crate::pileup::PileupRecord;

verus! {

/// The contigs of a workspace, by reference name.
pub type ContigMap = std::collections::HashMap<String, Contig, ahash::RandomState>;

/// The contigs that a map holds, by the text of their name.
pub uninterp spec fn contigs_by_name(m: ContigMap) -> Map<Seq<char>, Contig>;

/// Relies on ahash's `HashMapExt::new`: a map with no entries.
#[verifier::external_body]
fn new_contig_map() -> (r: ContigMap)
    ensures
        contigs_by_name(r) =~= Map::empty(),
{
    <ContigMap as ahash::HashMapExt>::new()
}

/// Relies on `HashMap::insert` with `String` keys, which compare by their
/// text: the name maps to the contig afterwards, and every other entry stays.
#[verifier::external_body]
fn insert_contig(m: &mut ContigMap, name: String, contig: Contig)
    ensures
        contigs_by_name(*final(m)) == contigs_by_name(*old(m)).insert(name@, contig),
{
    m.insert(name, contig);
}

/// Relies on `HashMap::remove` with `String` keys: takes out the contig of
/// that name, if there is one.
#[verifier::external_body]
fn remove_contig(m: &mut ContigMap, name: &str) -> (r: Option<Contig>)
    ensures
        r is Some <==> contigs_by_name(*old(m)).contains_key(name@),
        r matches Some(c) ==> c == contigs_by_name(*old(m))[name@],
        contigs_by_name(*final(m)) == contigs_by_name(*old(m)).remove(name@),
{
    m.remove(name)
}

/// Every contig is filed under its own reference name.
pub open spec fn contigs_wf(contigs: Map<Seq<char>, Contig>) -> bool {
    forall|name: Seq<char>| #[trigger] contigs.contains_key(name) ==> contigs[name].reference@ == name
}

/// Collects the contigs of a batch and merges the batch's records into them.
pub struct GenomeWorkSpaceBuilder {
    pub contigs: ContigMap,
}

impl GenomeWorkSpaceBuilder {
    /// The contigs collected so far.
    pub open spec fn contents(&self) -> Map<Seq<char>, Contig> {
        contigs_by_name(self.contigs)
    }

    /// A builder with no contig.
    pub fn new() -> (r: GenomeWorkSpaceBuilder)
        ensures
            r.contents() == Map::<Seq<char>, Contig>::empty(),
            contigs_wf(r.contents()),
    {
        GenomeWorkSpaceBuilder { contigs: new_contig_map() }
    }

    /// Registers a contig under its reference name, replacing one of the same
    /// name.
    pub fn add_contig(&mut self, contig: Contig)
        requires
            contigs_wf(old(self).contents()),
        ensures
            final(self).contents() == old(self).contents().insert(contig.reference@, contig),
            contigs_wf(final(self).contents()),
    {
        let name = contig.reference.clone();
        insert_contig(&mut self.contigs, name, contig);
    }

    /// Merges a chunk's records into the contig of its reference, which must
    /// have been registered.
    pub fn push_records(&mut self, records: PileupChunk)
        requires
            contigs_wf(old(self).contents()),
            old(self).contents().contains_key(records.reference@),
        ensures
            contigs_wf(final(self).contents()),
            final(self).contents().dom() == old(self).contents().dom(),
            forall|name: Seq<char>|
                #[trigger] final(self).contents().contains_key(name) && name != records.reference@
                    ==> final(self).contents()[name] == old(self).contents()[name],
            ({
                let before = old(self).contents()[records.reference@];
                let after = final(self).contents()[records.reference@];
                &&& after.reference == before.reference
                &&& after.sequence == before.sequence
                &&& after.records@ == with_records(before.records@, records.records@)
            }),
    {
        let name = records.reference.clone();
        if let Some(mut contig) = remove_contig(&mut self.contigs, name.as_str()) {
            contig.add_records(records);
            let key = contig.reference.clone();
            insert_contig(&mut self.contigs, key, contig);
            proof {
                assert(self.contents().dom() =~= old(self).contents().dom());
            }
        }
    }

    /// Freezes the collected contigs into a workspace.
    pub fn build(self) -> (r: GenomeWorkspace)
        ensures
            r.contents() == self.contents(),
    {
        GenomeWorkspace { contigs: self.contigs }
    }
}

/// The contigs of one batch, with their records, ready to be evaluated.
pub struct GenomeWorkspace {
    pub contigs: ContigMap,
}

impl GenomeWorkspace {
    /// The contigs of the workspace.
    pub open spec fn contents(&self) -> Map<Seq<char>, Contig> {
        contigs_by_name(self.contigs)
    }
}

/// The records of a batch of chunks that name `name`, merged chunk after chunk.
pub open spec fn batch_records(chunks: Seq<PileupChunk>, name: Seq<char>) -> Map<RecordKey, PileupRecord>
    decreases chunks.len(),
{
    if chunks.len() == 0 {
        Map::empty()
    } else {
        let earlier = batch_records(chunks.drop_last(), name);
        if chunks.last().reference@ == name {
            with_records(earlier, chunks.last().records@)
        } else {
            earlier
        }
    }
}

/// Whether a contig of a batch holds a sequence that was given for a chunk of
/// its name.
pub open spec fn sequence_given(
    chunks: Seq<PileupChunk>,
    sequences: Seq<Option<String>>,
    name: Seq<char>,
    contig: Contig,
) -> bool {
    exists|j: int|
        0 <= j < chunks.len() && (#[trigger] chunks[j]).reference@ == name && sequences[j] is Some
            && contig.sequence@ == sequences[j]->Some_0@
}

/// Builds the workspace of a batch: a contig for the reference of each chunk,
/// with the sequence given beside the chunk, then the records of every chunk
/// merged into the contig of its reference. Fails where a chunk was given no
/// sequence.
pub fn assemble_workspace(chunks: Vec<PileupChunk>, sequences: Vec<Option<String>>) -> (r: Result<
    GenomeWorkspace,
    WorkspaceError,
>)
    requires
        sequences@.len() == chunks@.len(),
    ensures
        r is Err <==> exists|i: int| 0 <= i < sequences@.len() && (#[trigger] sequences@[i]) is None,
        r matches Err(e) ==> e == WorkspaceError::MissingReference,
        r matches Ok(w) ==> forall|name: Seq<char>|
            #[trigger] w.contents().contains_key(name) <==> exists|i: int|
                0 <= i < chunks@.len() && (#[trigger] chunks@[i]).reference@ == name,
        r matches Ok(w) ==> forall|name: Seq<char>|
            #[trigger] w.contents().contains_key(name) ==> {
                let contig = w.contents()[name];
                &&& contig.reference@ == name
                &&& sequence_given(chunks@, sequences@, name, contig)
                &&& contig.records@ == batch_records(chunks@, name)
            },
{
    let mut builder = GenomeWorkSpaceBuilder::new();
    let mut i: usize = 0;
    while i < chunks.len()
        invariant
            i <= chunks@.len(),
            sequences@.len() == chunks@.len(),
            contigs_wf(builder.contents()),
            forall|j: int| 0 <= j < i ==> (#[trigger] sequences@[j]) is Some,
            forall|name: Seq<char>|
                #[trigger] builder.contents().contains_key(name) <==> exists|j: int|
                    0 <= j < i && (#[trigger] chunks@[j]).reference@ == name,
            forall|name: Seq<char>|
                #[trigger] builder.contents().contains_key(name) ==> builder.contents()[name].records@
                    == Map::<RecordKey, PileupRecord>::empty() && sequence_given(
                    chunks@,
                    sequences@,
                    name,
                    builder.contents()[name],
                ),
        decreases chunks@.len() - i,
    {
        match &sequences[i] {
            Some(sequence) => {
                let contig = Contig::new(chunks[i].reference.as_str(), sequence.as_str());
                builder.add_contig(contig);
            },
            None => return Err(WorkspaceError::MissingReference),
        }
        i = i + 1;
    }
    let ghost all = chunks@;
    let ghost names = builder.contents().dom();
    for chunk in it: chunks.into_iter()
        invariant
            it.seq() == all,
            all.len() == sequences@.len(),
            contigs_wf(builder.contents()),
            builder.contents().dom() == names,
            forall|name: Seq<char>|
                #[trigger] names.contains(name) <==> exists|j: int|
                    0 <= j < all.len() && (#[trigger] all[j]).reference@ == name,
            forall|name: Seq<char>|
                #[trigger] builder.contents().contains_key(name) ==> builder.contents()[name].records@
                    == batch_records(all.subrange(0, it.index() as int), name) && sequence_given(
                    all,
                    sequences@,
                    name,
                    builder.contents()[name],
                ),
    {
        let ghost k = it.index() as int;
        let ghost before = builder.contents();
        proof {
            assert(all[k] == chunk);
            assert(names.contains(chunk.reference@));
        }
        builder.push_records(chunk);
        proof {
            let done = all.subrange(0, k + 1);
            assert(done.drop_last() =~= all.subrange(0, k));
            assert(done.last() == chunk);
            assert forall|name: Seq<char>| #[trigger] builder.contents().contains_key(name) implies builder.contents()[name].records@
                == batch_records(done, name) && sequence_given(all, sequences@, name, builder.contents()[name]) by {
                if name == chunk.reference@ {
                    let j = choose|j: int|
                        0 <= j < all.len() && (#[trigger] all[j]).reference@ == name && sequences@[j] is Some
                            && before[name].sequence@ == sequences@[j]->Some_0@;
                    assert(all[j].reference@ == name);
                } else {
                    assert(builder.contents()[name] == before[name]);
                }
            }
        }
    }
    proof {
        assert(all.subrange(0, all.len() as int) =~= all);
    }
    Ok(builder.build())
}

} // verus!
