use memopair::modtype::ModType;
use memopair::motif::Motif;
use memopair::pileup::{PileupChunk, PileupRecord};
use memopair::sequence::{sites_from_starts, Contig};
use memopair::strand::Strand;

#[test]
fn test_contig_add_record() {
    let mut contig = Contig::new("test", "ACGT");
    let record = PileupRecord {
        reference: "test".to_string(),
        position: 0,
        strand: Strand::Positive,
        mod_type: ModType::SixMA,
        n_mod: 1,
        n_valid_cov: 1,
        n_canonical: 1,
        n_diff: 0,
    };
    contig.add_record(record.clone());
    assert_eq!(contig.records.len(), 1);
    assert_eq!(
        contig.records.get(&(0, Strand::Positive, ModType::SixMA)),
        Some(&record)
    );
}

#[test]
fn test_contig_add_records() {
    let mut contig = Contig::new("test", "ACGT");
    let records = PileupChunk {
        reference: "test".to_string(),
        records: vec![
            PileupRecord {
                reference: "test".to_string(),
                position: 0,
                strand: Strand::Positive,
                mod_type: ModType::SixMA,
                n_mod: 1,
                n_valid_cov: 1,
                n_canonical: 1,
                n_diff: 0,
            },
            PileupRecord {
                reference: "test".to_string(),
                position: 1,
                strand: Strand::Positive,
                mod_type: ModType::SixMA,
                n_mod: 1,
                n_valid_cov: 1,
                n_canonical: 1,
                n_diff: 0,
            },
        ],
    };
    contig.add_records(records.clone());
    assert_eq!(contig.records.len(), 2);
    assert_eq!(
        contig.records.get(&(0, Strand::Positive, ModType::SixMA)),
        Some(&records.records[0])
    );
    assert_eq!(
        contig.records.get(&(1, Strand::Positive, ModType::SixMA)),
        Some(&records.records[1])
    );
}

#[test]
fn test_contig_find_motif_indeces() {
    let contig = Contig::new("test", "ACGTACGTACGTACGT");
    let motif = Motif::new("ACGT", "6mA", 0).unwrap();
    let indeces = contig.find_motif_indeces(&motif).unwrap();
    assert_eq!(indeces, vec![0, 4, 8, 12]);

    let contig = Contig::new(
        "test",
        "ACCCCGGAGGTCGTACGCCGGATCCGGTACCGGACGTACCGGTCGCCGGAT",
    );
    let motif = Motif::new("CCGGA", "6mA", 4).unwrap();
    let indeces = contig.find_motif_indeces(&motif);
    assert_eq!(indeces, Some(vec![7, 21, 33, 49]));
}

#[test]
fn test_contig_find_complement_motif_indeces() {
    let contig = Contig::new("test", "ACGTACGTACGTACGT");
    let motif = Motif::new("ACGT", "6mA", 0).unwrap();
    let indeces = contig.find_complement_motif_indeces(&motif);
    assert_eq!(indeces, Some(vec![3, 7, 11, 15]));

    let contig = Contig::new(
        "test",
        "ACCTCCGGCCGGAGGTCGTACGCCGGATCCGGTCCGGTCCGGTACCGGACGTACCGGTCGCCGGAT",
    );
    let motif = Motif::new("CCGGA", "6mA", 4).unwrap();
    let indeces = contig.find_complement_motif_indeces(&motif);
    assert_eq!(indeces, Some(vec![3, 27, 32, 37]));

    let contig = Contig::new("test", "CCTCCTCCTCCTCCTCC");
    let motif = Motif::new("CCTCC", "5mC", 0).unwrap();
    let indeces = contig.find_complement_motif_indeces(&motif);
    assert_eq!(indeces, None);

    let contig = Contig::new("test", "GGAGGAGGAGGAGGAGG");
    let motif = Motif::new("CCTCC", "5mC", 0).unwrap();
    let indeces = contig.find_complement_motif_indeces(&motif);
    assert_eq!(indeces, Some(vec![4, 10, 16])); // only count full matches
}

#[test]
fn overlapping_occurrences_are_counted_once() {
    let contig = Contig::new("test", "AAAAA");
    let motif = Motif::new("AA", "6mA", 1).unwrap();
    assert_eq!(contig.find_motif_indeces(&motif), Some(vec![1, 3]));
}

#[test]
fn degenerate_symbols_match_their_sets() {
    let contig = Contig::new("test", "CCAGGTTCCTGGA");
    let motif = Motif::new("CCWGG", "5mC", 1).unwrap();
    assert_eq!(contig.find_motif_indeces(&motif), Some(vec![1, 8]));
}

#[test]
fn no_match_gives_none() {
    let contig = Contig::new("test", "TTTTTTTT");
    let motif = Motif::new("GATC", "6mA", 1).unwrap();
    assert_eq!(contig.find_motif_indeces(&motif), None);
}

#[test]
fn sites_are_shifted_match_starts() {
    assert_eq!(sites_from_starts(&vec![0, 5, 9], 2), Some(vec![2, 7, 11]));
    assert_eq!(sites_from_starts(&vec![], 2), None);
    assert_eq!(sites_from_starts(&vec![usize::MAX], 1), None);
}

#[test]
fn a_later_record_replaces_one_with_the_same_key() {
    let mut contig = Contig::new("test", "ACGT");
    let mut record = PileupRecord {
        reference: "test".to_string(),
        position: 2,
        strand: Strand::Negative,
        mod_type: ModType::FiveMC,
        n_mod: 1,
        n_valid_cov: 4,
        n_canonical: 3,
        n_diff: 0,
    };
    contig.add_record(record.clone());
    record.n_mod = 3;
    contig.add_record(record.clone());
    assert_eq!(contig.records.len(), 1);
    assert_eq!(
        contig.records.get(&(2, Strand::Negative, ModType::FiveMC)),
        Some(&record)
    );
}
