use memopair::modtype::ModType;
use memopair::pileup::{
    batch_step, close_batch, parse_and_validate_pileup_record, read_chunks, PileupChunk,
    PileupChunkReader, PileupLine,
};
use memopair::strand::Strand;

fn line(text: &str) -> PileupLine {
    PileupLine {
        fields: text.split('\t').map(|f| f.as_bytes().to_vec()).collect(),
    }
}

fn pileup(reference: &str, position: usize, strand: &str, n_valid_cov: u32, n_mod: u32) -> PileupLine {
    line(&format!(
        "{reference}\t{position}\t{}\ta\t{n_valid_cov}\t{strand}\t{position}\t{}\t255,0,0\t{n_valid_cov}\t50.00\t{n_mod}\t{}\t0\t0\t0\t0\t2",
        position + 1,
        position + 1,
        n_valid_cov - n_mod
    ))
}

#[test]
fn a_line_gives_a_record() {
    let record = parse_and_validate_pileup_record(&pileup("contig_1", 42, "-", 10, 8), 5).unwrap();
    assert_eq!(record.reference, "contig_1");
    assert_eq!(record.position, 42);
    assert_eq!(record.strand, Strand::Negative);
    assert_eq!(record.mod_type, ModType::SixMA);
    assert_eq!(record.n_valid_cov, 10);
    assert_eq!(record.n_mod, 8);
    assert_eq!(record.n_canonical, 2);
    assert_eq!(record.n_diff, 2);
}

#[test]
fn low_coverage_lines_are_dropped() {
    assert!(parse_and_validate_pileup_record(&pileup("c", 1, "+", 4, 1), 5).is_none());
    let record = parse_and_validate_pileup_record(&pileup("c", 1, "+", 5, 1), 5).unwrap();
    assert!(record.is_valid(5));
    assert!(!record.is_valid(6));
}

#[test]
fn malformed_lines_are_dropped() {
    assert!(parse_and_validate_pileup_record(&pileup("c", 1, ".", 10, 1), 5).is_none());
    assert!(parse_and_validate_pileup_record(&line("c\t1\t2\ta\t10\t+"), 5).is_none());
    assert!(parse_and_validate_pileup_record(&pileup("c", 1, "+", 10, 1), 5).is_some());
    let mut wrong_mod = pileup("c", 1, "+", 10, 1);
    wrong_mod.fields[3] = b"h".to_vec();
    assert!(parse_and_validate_pileup_record(&wrong_mod, 5).is_none());
    let mut bad_text = pileup("c", 1, "+", 10, 1);
    bad_text.fields[0] = vec![0xff, 0xfe];
    assert!(parse_and_validate_pileup_record(&bad_text, 5).is_none());
    let mut too_many = pileup("c", 1, "+", 10, 1);
    too_many.fields[11] = b"11".to_vec();
    assert!(parse_and_validate_pileup_record(&too_many, 5).is_none());
    let mut huge = pileup("c", 1, "+", 10, 1);
    huge.fields[9] = b"4294967296".to_vec();
    assert!(parse_and_validate_pileup_record(&huge, 5).is_none());
}

#[test]
fn counts_are_read_from_the_start_of_a_column() {
    let mut l = pileup("c", 7, "+", 10, 3);
    l.fields[1] = b"123x".to_vec();
    l.fields[17] = b"+9".to_vec();
    let record = parse_and_validate_pileup_record(&l, 5).unwrap();
    assert_eq!(record.position, 123);
    assert_eq!(record.n_diff, 9);
}

#[test]
fn two_references_give_two_chunks() {
    let mut reader = PileupChunkReader::new(5);
    assert!(reader.push_line(&pileup("A", 1, "+", 10, 1)).is_none());
    assert!(reader.push_line(&pileup("A", 2, "+", 10, 2)).is_none());
    let first = reader.push_line(&pileup("B", 1, "+", 10, 3)).unwrap();
    assert_eq!(first.reference, "A");
    assert_eq!(first.records.len(), 2);
    assert!(first.records.iter().all(|r| r.reference == "A"));
    assert!(reader.push_line(&pileup("B", 2, "+", 3, 1)).is_none());
    assert!(reader.push_line(&pileup("B", 3, "-", 10, 4)).is_none());
    assert!(!reader.eof_reached);
    let second = reader.finish().unwrap();
    assert!(reader.eof_reached);
    assert_eq!(second.reference, "B");
    assert_eq!(second.records.len(), 2);
    assert!(second.records.iter().all(|r| r.reference == "B" && r.n_valid_cov >= 5));
    assert_eq!(second.records[1].position, 3);
    assert!(reader.finish().is_none());
}

#[test]
fn a_returning_reference_opens_a_new_chunk() {
    let mut reader = PileupChunkReader::new(1);
    let mut chunks = Vec::new();
    for l in [pileup("A", 1, "+", 10, 1), pileup("B", 1, "+", 10, 1), pileup("A", 2, "+", 10, 1)] {
        chunks.extend(reader.push_line(&l));
    }
    chunks.extend(reader.finish());
    let references: Vec<String> = chunks.iter().map(|c| c.reference.clone()).collect();
    assert_eq!(references, vec!["A", "B", "A"]);
}

#[test]
fn a_run_without_records_gives_no_chunk() {
    let mut reader = PileupChunkReader::new(5);
    assert!(reader.push_line(&pileup("A", 1, "+", 2, 1)).is_none());
    assert!(reader.push_line(&pileup("B", 1, "+", 10, 1)).is_none());
    let only = reader.finish().unwrap();
    assert_eq!(only.reference, "B");
    assert_eq!(only.records.len(), 1);
}

fn two_reference_stream() -> Vec<PileupLine> {
    vec![
        pileup("A", 1, "+", 10, 1),
        pileup("A", 2, "-", 2, 1),
        pileup("A", 3, "+", 10, 2),
        pileup("B", 1, "+", 10, 3),
        pileup("B", 2, "+", 10, 4),
    ]
}

#[test]
fn a_whole_stream_reads_into_its_chunks() {
    let chunks = read_chunks(&two_reference_stream(), 5);
    assert_eq!(chunks.len(), 2);
    assert_eq!(chunks[0].reference, "A");
    let positions: Vec<usize> = chunks[0].records.iter().map(|r| r.position).collect();
    assert_eq!(positions, vec![1, 3]);
    assert_eq!(chunks[1].reference, "B");
    assert_eq!(chunks[1].records.len(), 2);
    assert!(read_chunks(&Vec::new(), 5).is_empty());
}

fn batched(chunks: Vec<PileupChunk>, n: usize) -> Vec<Vec<PileupChunk>> {
    let mut stream = chunks.into_iter();
    let mut out = Vec::new();
    loop {
        let mut batch = Vec::new();
        while batch_step(&mut batch, n, stream.next()) {}
        match close_batch(batch) {
            Some(b) => out.push(b),
            None => break,
        }
    }
    out
}

#[test]
fn batching_keeps_the_two_chunks() {
    for n in 1..=3 {
        let batches = batched(read_chunks(&two_reference_stream(), 5), n);
        assert!(batches.iter().all(|b| !b.is_empty() && b.len() <= n));
        let references: Vec<String> = batches
            .into_iter()
            .flatten()
            .map(|c| c.reference)
            .collect();
        assert_eq!(references, vec!["A", "B"]);
    }
}

#[test]
fn a_batch_step_stops_when_full_or_at_the_end() {
    let mut batch = Vec::new();
    let chunk = PileupChunk { reference: "A".to_string(), records: Vec::new() };
    assert!(batch_step(&mut batch, 2, Some(chunk.clone())));
    assert!(!batch_step(&mut batch, 2, Some(chunk.clone())));
    assert_eq!(batch.len(), 2);
    let mut last = vec![chunk];
    assert!(!batch_step(&mut last, 3, None));
    assert_eq!(last.len(), 1);
    assert!(close_batch(Vec::new()).is_none());
    assert_eq!(close_batch(last).map(|b| b.len()), Some(1));
}
