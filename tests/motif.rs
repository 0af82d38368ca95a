use memopair::error::MotifError;
use memopair::iupac::IupacBase;
use memopair::modtype::ModType;
use memopair::motif::{parse_motif_pair_string, parse_motif_pair_strings, Motif, MotifPair};

#[test]
fn motif_from_parts() {
    let motif = Motif::new("GATC", "6mA", 1).unwrap();
    assert_eq!(
        motif.sequence,
        vec![IupacBase::G, IupacBase::A, IupacBase::T, IupacBase::C]
    );
    assert_eq!(motif.mod_type, ModType::SixMA);
    assert_eq!(motif.position, 1);
    assert_eq!(Motif::new("GATC", "a", 1).unwrap().mod_type, ModType::SixMA);
    assert_eq!(Motif::new("CCWGG", "21839", 0).unwrap().mod_type, ModType::FourMC);
    assert_eq!(Motif::new("CCWGG", "m", 0).unwrap().mod_type, ModType::FiveMC);
}

#[test]
fn motif_errors() {
    assert_eq!(Motif::new("GAXC", "6mA", 1), Err(MotifError::InvalidBase('X')));
    assert_eq!(Motif::new("GATC", "6mX", 1), Err(MotifError::InvalidModType));
    assert_eq!(Motif::new("GATC", "6mA", 4), Err(MotifError::PositionOutOfRange));
    assert_eq!(Motif::new("", "6mA", 0), Err(MotifError::PositionOutOfRange));
}

#[test]
fn reverse_complement_of_a_motif() {
    let motif = Motif::new("GAAGAC", "6mA", 4).unwrap();
    let rc = motif.reverse_complement();
    assert_eq!(rc.sequence_string(), "GTCTTC");
    assert_eq!(rc.position, 1);
    assert_eq!(rc.mod_type, ModType::SixMA);
    assert_eq!(rc.reverse_complement(), motif);
}

#[test]
fn reverse_complement_twice_is_the_motif() {
    for (sequence, position) in [("CCWGG", 0), ("RGATCY", 3), ("BDHVN", 4), ("A", 0)] {
        let motif = Motif::new(sequence, "5mC", position).unwrap();
        assert_eq!(motif.reverse_complement().reverse_complement(), motif);
    }
}

#[test]
fn regex_of_a_motif() {
    let motif = Motif::new("CCWGGN", "5mC", 1).unwrap();
    assert_eq!(motif.regex(), "CC[AT]GG.");
    assert_eq!(motif.sequence_string(), "CCWGGN");
}

#[test]
fn palindromic_pair() {
    let pair = parse_motif_pair_string("GATC_a_1_a_1".to_string()).unwrap();
    assert!(pair.is_palindromic);
    assert_eq!(pair.forward.position, 1);
    assert_eq!(pair.reverse.sequence_string(), "GATC");
    assert_eq!(pair.reverse.position, 2);
    assert_eq!(pair.reverse.reverse_complement().position, 1);
}

#[test]
fn non_palindromic_pair() {
    let pair = parse_motif_pair_string("GAAGAC_a_4_m_3".to_string()).unwrap();
    assert!(!pair.is_palindromic);
    assert_eq!(pair.reverse.sequence_string(), "GTCTTC");
    assert_eq!(pair.reverse.mod_type, ModType::FiveMC);
    assert_eq!(pair.reverse.position, 2);
}

#[test]
fn pair_string_errors() {
    let parse = |s: &str| parse_motif_pair_string(s.to_string()).map(|_| ());
    assert_eq!(parse("ACGT_a_0"), Err(MotifError::InvalidPairString));
    assert_eq!(parse("ACGT_a_0_m_3_x"), Err(MotifError::InvalidPairString));
    assert_eq!(parse("ACGT_a_x_m_3"), Err(MotifError::InvalidPosition));
    assert_eq!(parse("ACGT_a_300_m_3"), Err(MotifError::InvalidPosition));
    assert_eq!(parse("ACGT_a_0_m_-1"), Err(MotifError::InvalidPosition));
    assert_eq!(parse("ACXT_a_0_m_3"), Err(MotifError::InvalidBase('X')));
    assert_eq!(parse("ACGT_q_0_m_3"), Err(MotifError::InvalidModType));
    assert_eq!(parse("ACGT_a_4_m_3"), Err(MotifError::PositionOutOfRange));
    assert_eq!(parse("ACGT_a_0_q_3"), Err(MotifError::InvalidModType));
    assert_eq!(parse("ACGT_a_0_m_4"), Err(MotifError::PositionOutOfRange));
    assert_eq!(parse("ACGT_a_+0_m_3"), Ok(()));
}

#[test]
fn pair_of_unrelated_motifs_is_refused() {
    let forward = Motif::new("GAAGAC", "6mA", 4).unwrap();
    let partner = Motif::new("GAAGAC", "6mA", 2).unwrap();
    assert_eq!(
        MotifPair::new(forward.clone(), partner).map(|_| ()),
        Err(MotifError::IncompatiblePair)
    );
    let mut bad = forward.clone();
    bad.position = 9;
    assert_eq!(
        MotifPair::new(bad, forward.reverse_complement()).map(|_| ()),
        Err(MotifError::PositionOutOfRange)
    );
}

#[test]
fn all_pair_strings_or_the_first_error() {
    let pairs = parse_motif_pair_strings(vec![
        "GATC_a_1_a_1".to_string(),
        "CCWGG_4mC_0_5mC_3".to_string(),
    ])
    .unwrap();
    assert_eq!(pairs.len(), 2);
    assert_eq!(pairs[1].forward.mod_type, ModType::FourMC);
    assert_eq!(pairs[1].reverse.position, 1);
    let refused = parse_motif_pair_strings(vec![
        "GATC_a_1_a_1".to_string(),
        "GATC_a_9_a_1".to_string(),
        "GATC".to_string(),
    ]);
    assert_eq!(refused.map(|_| ()), Err(MotifError::PositionOutOfRange));
}
