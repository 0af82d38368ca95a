use memopair::data::{assemble_workspace, GenomeWorkSpaceBuilder};
use memopair::error::WorkspaceError;
use memopair::modtype::ModType;
use memopair::pileup::{PileupChunk, PileupRecord};
use memopair::sequence::Contig;
use memopair::strand::Strand;

fn chunk(reference: &str, positions: &[usize]) -> PileupChunk {
    PileupChunk {
        reference: reference.to_string(),
        records: positions
            .iter()
            .map(|&position| PileupRecord {
                reference: reference.to_string(),
                position,
                strand: Strand::Positive,
                mod_type: ModType::FiveMC,
                n_mod: 3,
                n_valid_cov: 6,
                n_canonical: 3,
                n_diff: 0,
            })
            .collect(),
    }
}

#[test]
fn records_go_to_their_contig() {
    let mut builder = GenomeWorkSpaceBuilder::new();
    builder.add_contig(Contig::new("one", "ACGT"));
    builder.add_contig(Contig::new("two", "GGCC"));
    builder.push_records(chunk("two", &[1, 2]));
    let workspace = builder.build();
    assert_eq!(workspace.contigs.len(), 2);
    assert_eq!(workspace.contigs["one"].records.len(), 0);
    assert_eq!(workspace.contigs["two"].records.len(), 2);
    assert_eq!(workspace.contigs["two"].sequence, "GGCC");
}

#[test]
fn a_batch_becomes_a_workspace() {
    let chunks = vec![chunk("one", &[1, 2]), chunk("two", &[3]), chunk("one", &[2, 5])];
    let sequences = vec![
        Some("ACGTAC".to_string()),
        Some("GG".to_string()),
        Some("ACGTAC".to_string()),
    ];
    let workspace = assemble_workspace(chunks, sequences).unwrap();
    assert_eq!(workspace.contigs.len(), 2);
    assert_eq!(workspace.contigs["one"].records.len(), 3);
    assert_eq!(workspace.contigs["one"].sequence, "ACGTAC");
    assert_eq!(workspace.contigs["two"].records.len(), 1);
}

#[test]
fn a_batch_without_a_reference_sequence_is_refused() {
    let chunks = vec![chunk("one", &[1]), chunk("two", &[3])];
    let sequences = vec![Some("ACGT".to_string()), None];
    assert_eq!(
        assemble_workspace(chunks, sequences).map(|_| ()),
        Err(WorkspaceError::MissingReference)
    );
}
