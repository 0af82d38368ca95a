use memopair::evaluate::{
    motif_methylation_pattern, motif_pair_hits, motif_start_position, pair_statistics,
    Classification, PairedSite,
};
use memopair::modtype::ModType;
use memopair::motif::parse_motif_pair_string;
use memopair::pileup::PileupRecord;
use memopair::sequence::Contig;
use memopair::strand::Strand;

fn record(position: usize, strand: Strand, mod_type: ModType, n_mod: u32, n_valid_cov: u32) -> PileupRecord {
    PileupRecord {
        reference: "test".to_string(),
        position,
        strand,
        mod_type,
        n_mod,
        n_valid_cov,
        n_canonical: n_valid_cov - n_mod,
        n_diff: 0,
    }
}

fn ratio(r: Option<(u64, u64)>) -> f64 {
    match r {
        Some((n, d)) => n as f64 / d as f64,
        None => f64::NAN,
    }
}

#[test]
fn palindromic_pair_visits_each_site_once() {
    let mut contig = Contig::new("test", "GATCAAGATC");
    for position in [1, 2, 7, 8] {
        contig.add_record(record(position, Strand::Positive, ModType::SixMA, 5, 10));
        contig.add_record(record(position, Strand::Negative, ModType::SixMA, 5, 10));
    }
    let pair = parse_motif_pair_string("GATC_a_1_a_1".to_string()).unwrap();
    let hits = motif_pair_hits(&contig, &pair);
    assert_eq!(
        hits,
        vec![
            ((1, Strand::Positive, ModType::SixMA), (1, Strand::Negative, ModType::SixMA)),
            ((7, Strand::Positive, ModType::SixMA), (7, Strand::Negative, ModType::SixMA)),
        ]
    );
}

#[test]
fn non_palindromic_pair_scans_both_strands() {
    let mut contig = Contig::new("test", "ACGT");
    contig.add_record(record(0, Strand::Positive, ModType::SixMA, 5, 10));
    contig.add_record(record(0, Strand::Negative, ModType::FiveMC, 5, 10));
    contig.add_record(record(3, Strand::Negative, ModType::SixMA, 5, 10));
    contig.add_record(record(3, Strand::Positive, ModType::FiveMC, 5, 10));
    let pair = parse_motif_pair_string("AC_a_0_m_0".to_string()).unwrap();
    assert!(!pair.is_palindromic);
    let hits = motif_pair_hits(&contig, &pair);
    assert_eq!(
        hits,
        vec![
            ((0, Strand::Positive, ModType::SixMA), (0, Strand::Negative, ModType::FiveMC)),
            ((3, Strand::Negative, ModType::SixMA), (3, Strand::Positive, ModType::FiveMC)),
        ]
    );
}

#[test]
fn partner_is_looked_up_at_the_shifted_position() {
    let mut contig = Contig::new("test", "TTGAAGACTT");
    contig.add_record(record(6, Strand::Positive, ModType::SixMA, 9, 10));
    contig.add_record(record(5, Strand::Negative, ModType::FiveMC, 1, 10));
    let pair = parse_motif_pair_string("GAAGAC_a_4_m_3".to_string()).unwrap();
    let hits = motif_pair_hits(&contig, &pair);
    assert_eq!(
        hits,
        vec![((6, Strand::Positive, ModType::SixMA), (5, Strand::Negative, ModType::FiveMC))]
    );
}

#[test]
fn missing_records_skip_the_site() {
    let mut contig = Contig::new("test", "GATCAAGATC");
    contig.add_record(record(1, Strand::Positive, ModType::SixMA, 5, 10));
    contig.add_record(record(7, Strand::Negative, ModType::SixMA, 5, 10));
    let pair = parse_motif_pair_string("GATC_a_1_a_1".to_string()).unwrap();
    assert!(motif_pair_hits(&contig, &pair).is_empty());
}

#[test]
fn rows_follow_the_pairs() {
    let mut contig = Contig::new("test", "GATCAC");
    contig.add_record(record(1, Strand::Positive, ModType::SixMA, 5, 10));
    contig.add_record(record(1, Strand::Negative, ModType::SixMA, 5, 10));
    contig.add_record(record(4, Strand::Positive, ModType::SixMA, 5, 10));
    contig.add_record(record(4, Strand::Negative, ModType::FiveMC, 5, 10));
    let pairs = vec![
        parse_motif_pair_string("AC_a_0_m_0".to_string()).unwrap(),
        parse_motif_pair_string("GATC_a_1_a_1".to_string()).unwrap(),
    ];
    let rows = motif_methylation_pattern(&contig, &pairs);
    assert_eq!(
        rows,
        vec![
            PairedSite {
                pair_index: 0,
                site_1: (4, Strand::Positive, ModType::SixMA),
                site_2: (4, Strand::Negative, ModType::FiveMC),
            },
            PairedSite {
                pair_index: 1,
                site_1: (1, Strand::Positive, ModType::SixMA),
                site_2: (1, Strand::Negative, ModType::SixMA),
            },
        ]
    );
}

#[test]
fn differential_pair_statistics() {
    let r1 = record(10, Strand::Positive, ModType::SixMA, 8, 10);
    let r2 = record(12, Strand::Negative, ModType::FiveMC, 2, 10);
    let stats = pair_statistics(&r1, &r2);
    assert_eq!(stats.n_nomod_1, 2);
    assert_eq!(stats.n_nomod_2, 8);
    assert!((ratio(stats.methylation_difference) - 0.6).abs() < 1e-12);
    assert_eq!(stats.classification, Classification::Differential);
    assert_eq!(stats.classification.as_str(), "differential");
    assert_eq!(ratio(stats.odds_1), 4.0);
    assert_eq!(ratio(stats.odds_2), 0.25);
    assert_eq!(ratio(stats.odds_ratio), 16.0);
}

#[test]
fn moderate_and_non_differential_pairs() {
    let r1 = record(1, Strand::Positive, ModType::SixMA, 5, 10);
    let r2 = record(1, Strand::Negative, ModType::SixMA, 3, 10);
    let stats = pair_statistics(&r1, &r2);
    assert_eq!(stats.classification, Classification::ModeratelyDifferential);
    assert_eq!(stats.classification.as_str(), "moderately differential");
    let r3 = record(1, Strand::Negative, ModType::SixMA, 4, 10);
    let stats = pair_statistics(&r1, &r3);
    assert_eq!(stats.methylation_difference, Some((10, 100)));
    assert_eq!(stats.classification, Classification::NonDifferential);
    assert_eq!(stats.classification.as_str(), "non-differential");
}

#[test]
fn undefined_odds_give_no_ratio() {
    let full = record(1, Strand::Positive, ModType::SixMA, 10, 10);
    let half = record(1, Strand::Negative, ModType::SixMA, 5, 10);
    let none = record(1, Strand::Negative, ModType::SixMA, 0, 10);
    let stats = pair_statistics(&full, &half);
    assert_eq!(stats.odds_1, None);
    assert_eq!(stats.odds_ratio, None);
    assert!(ratio(stats.odds_ratio).is_nan());
    let stats = pair_statistics(&half, &none);
    assert_eq!(stats.odds_2, Some((0, 10)));
    assert_eq!(stats.odds_ratio, None);
    let empty = record(1, Strand::Negative, ModType::SixMA, 0, 0);
    let stats = pair_statistics(&half, &empty);
    assert_eq!(stats.methylation_difference, None);
    assert_eq!(stats.classification, Classification::NonDifferential);
}

#[test]
fn start_of_the_motif() {
    let pair = parse_motif_pair_string("GAAGAC_a_4_m_3".to_string()).unwrap();
    let r1 = record(6, Strand::Positive, ModType::SixMA, 9, 10);
    assert_eq!(motif_start_position(&r1, &pair.forward), 2);
    let r0 = record(1, Strand::Negative, ModType::SixMA, 9, 10);
    assert_eq!(motif_start_position(&r0, &pair.forward), -3);
}
