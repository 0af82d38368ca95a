use vstd::prelude::*;
use vstd::slice::slice_to_vec;
use vstd::utf8::{decode_utf8, valid_utf8};

use crate::modtype::{mod_type_of_code, ModType};
use crate::strand::{strand_of_code, Strand};

verus! {

/// One line of a modification pileup: the calls of one modification at one
/// position and strand of a reference.
#[derive(Debug, Clone, PartialEq, Eq)]
pub struct PileupRecord {
    pub reference: String,
    pub position: usize,
    pub strand: Strand,
    pub mod_type: ModType,
    pub n_mod: u32,
    pub n_valid_cov: u32,
    pub n_canonical: u32,
    pub n_diff: u32,
}

impl PileupRecord {
    /// Whether the record reaches the minimum valid coverage.
    pub fn is_valid(&self, min_cov: u32) -> (r: bool)
        ensures
            r == (self.n_valid_cov >= min_cov),
    {
        self.n_valid_cov >= min_cov
    }
}

/// The records of one run of consecutive lines that share a reference.
#[derive(Debug, Clone)]
pub struct PileupChunk {
    pub reference: String,
    pub records: Vec<PileupRecord>,
}

/// The tab-separated columns of one pileup line, as bytes.
#[derive(Debug, Clone)]
pub struct PileupLine {
    pub fields: Vec<Vec<u8>>,
}

/// The columns of a line.
pub type LineView = Seq<Seq<u8>>;

impl View for PileupLine {
    type V = LineView;

    open spec fn view(&self) -> LineView {
        self.fields@.map_values(|f: Vec<u8>| f@)
    }
}

/// Column `i` of a line; a column that is missing reads as empty.
pub open spec fn column(line: LineView, i: int) -> Seq<u8> {
    if 0 <= i < line.len() {
        line[i]
    } else {
        Seq::empty()
    }
}

/// Whether `b` is an ASCII decimal digit.
pub open spec fn is_digit_byte(b: u8) -> bool {
    48 <= b <= 57
}

/// How many decimal digits `s` starts with.
pub open spec fn digit_run(s: Seq<u8>) -> nat
    decreases s.len(),
{
    if s.len() > 0 && is_digit_byte(s[0]) {
        1 + digit_run(s.drop_first())
    } else {
        0
    }
}

/// The number that the decimal digits `d` write.
pub open spec fn digit_bytes_value(d: Seq<u8>) -> nat
    decreases d.len(),
{
    if d.len() == 0 {
        0
    } else {
        digit_bytes_value(d.drop_last()) * 10 + (d.last() - 48) as nat
    }
}

/// What `atoi::atoi::<u64>` reads from the start of `s`: an optional sign and
/// the digits after it, ignoring whatever follows them. Unsigned, a `-` only
/// lets zero through.
pub open spec fn leading_u64(s: Seq<u8>) -> Option<u64> {
    let signed = s.len() > 0 && (s[0] == 43u8 || s[0] == 45u8);
    let d = if signed {
        s.drop_first()
    } else {
        s
    };
    let value = digit_bytes_value(d.take(digit_run(d) as int));
    if s.len() > 0 && s[0] == 45u8 {
        if value == 0 {
            Some(0)
        } else {
            None
        }
    } else if !signed && digit_run(d) == 0 {
        None
    } else if value > u64::MAX {
        None
    } else {
        Some(value as u64)
    }
}

/// Relies on `atoi::atoi::<u64>`: the number at the start of `text`.
#[verifier::external_body]
fn atoi_u64(text: &[u8]) -> (r: Option<u64>)
    ensures
        r == leading_u64(text@),
{
    atoi::atoi::<u64>(text)
}

/// Relies on `std::str::from_utf8`: the text that `bytes` encode, where they
/// are valid UTF-8.
#[verifier::external_body]
fn utf8_text(bytes: &[u8]) -> (r: Option<String>)
    ensures
        r is Some <==> valid_utf8(bytes@),
        r matches Some(s) ==> s@ == decode_utf8(bytes@),
{
    std::str::from_utf8(bytes).ok().map(|s| s.to_string())
}

/// A count column: its leading number, where that fits in a `u32`.
pub open spec fn count_column(line: LineView, i: int) -> Option<u32> {
    match leading_u64(column(line, i)) {
        Some(v) => if v <= u32::MAX {
            Some(v as u32)
        } else {
            None
        },
        None => None,
    }
}

/// The position column: its leading number, where that fits in a `usize`.
pub open spec fn position_column(line: LineView) -> Option<usize> {
    match leading_u64(column(line, 1)) {
        Some(v) => if v <= usize::MAX {
            Some(v as usize)
        } else {
            None
        },
        None => None,
    }
}

/// Whether a line gives a record: every column reads, the valid coverage
/// reaches `min_cov`, and the modified count does not exceed it.
pub open spec fn line_is_valid(line: LineView, min_cov: u32) -> bool {
    &&& count_column(line, 9) is Some
    &&& count_column(line, 9)->Some_0 >= min_cov
    &&& valid_utf8(column(line, 0))
    &&& position_column(line) is Some
    &&& strand_of_code(column(line, 5)) is Some
    &&& mod_type_of_code(column(line, 3)) is Some
    &&& count_column(line, 11) is Some
    &&& count_column(line, 12) is Some
    &&& count_column(line, 17) is Some
    &&& count_column(line, 11)->Some_0 <= count_column(line, 9)->Some_0
}

/// Whether `r` holds what the columns of `line` say.
pub open spec fn record_matches_line(r: PileupRecord, line: LineView) -> bool {
    &&& r.reference@ == decode_utf8(column(line, 0))
    &&& position_column(line) == Some(r.position)
    &&& strand_of_code(column(line, 5)) == Some(r.strand)
    &&& mod_type_of_code(column(line, 3)) == Some(r.mod_type)
    &&& count_column(line, 9) == Some(r.n_valid_cov)
    &&& count_column(line, 11) == Some(r.n_mod)
    &&& count_column(line, 12) == Some(r.n_canonical)
    &&& count_column(line, 17) == Some(r.n_diff)
}

/// Column `i` of a line, empty where the line is shorter.
fn column_bytes(line: &PileupLine, i: usize) -> (r: &[u8])
    ensures
        r@ == column(line@, i as int),
{
    if i < line.fields.len() {
        line.fields[i].as_slice()
    } else {
        let empty: &[u8] = &[];
        assert(empty@ =~= Seq::<u8>::empty());
        empty
    }
}

/// Reads a count column.
fn read_count(line: &PileupLine, i: usize) -> (r: Option<u32>)
    ensures
        r == count_column(line@, i as int),
{
    match atoi_u64(column_bytes(line, i)) {
        Some(v) => if v <= u32::MAX as u64 {
            Some(v as u32)
        } else {
            None
        },
        None => None,
    }
}

/// Parses one pileup line into a record, or `None` where the line is
/// malformed or its valid coverage is below `min_cov`.
pub fn parse_and_validate_pileup_record(line: &PileupLine, min_cov: u32) -> (r: Option<
    PileupRecord,
>)
    ensures
        r is Some <==> line_is_valid(line@, min_cov),
        r matches Some(rec) ==> record_matches_line(rec, line@),
{
    let n_valid_cov = read_count(line, 9)?;
    if n_valid_cov < min_cov {
        return None;
    }
    let reference = utf8_text(column_bytes(line, 0))?;
    let position = match atoi_u64(column_bytes(line, 1)) {
        Some(v) => if v <= usize::MAX as u64 {
            v as usize
        } else {
            return None;
        },
        None => return None,
    };
    let strand = Strand::from_bytes(column_bytes(line, 5))?;
    let mod_type = ModType::from_bytes(column_bytes(line, 3))?;
    let n_mod = read_count(line, 11)?;
    let n_canonical = read_count(line, 12)?;
    let n_diff = read_count(line, 17)?;
    if n_mod > n_valid_cov {
        return None;
    }
    Some(
        PileupRecord {
            reference,
            position,
            strand,
            mod_type,
            n_mod,
            n_valid_cov,
            n_canonical,
            n_diff,
        },
    )
}

/// What the chunk reader holds between lines: the reference of the run of
/// lines being read, and the lines of that run that gave records.
pub struct ReaderState {
    pub reference: Option<Seq<u8>>,
    pub lines: Seq<LineView>,
}

/// The state before the first line.
pub open spec fn initial_state() -> ReaderState {
    ReaderState { reference: None, lines: Seq::empty() }
}

/// The lines of a finished run, where any of them gave a record.
pub open spec fn run_chunk(lines: Seq<LineView>) -> Option<Seq<LineView>> {
    if lines.len() > 0 {
        Some(lines)
    } else {
        None
    }
}

/// Takes one line: a line of another reference closes the run being read
/// (which yields its chunk if it has records) and opens a new one; a line
/// that does not give a record is dropped.
pub open spec fn feed_line(state: ReaderState, line: LineView, min_cov: u32) -> (
    ReaderState,
    Option<Seq<LineView>>,
) {
    let key = column(line, 0);
    let kept = if line_is_valid(line, min_cov) {
        seq![line]
    } else {
        Seq::empty()
    };
    if state.reference is Some && state.reference->Some_0 != key {
        (ReaderState { reference: Some(key), lines: kept }, run_chunk(state.lines))
    } else {
        (ReaderState { reference: Some(key), lines: state.lines + kept }, None)
    }
}

/// The state after `lines`, and the chunks they closed, in order.
pub open spec fn feed_lines(state: ReaderState, lines: Seq<LineView>, min_cov: u32) -> (
    ReaderState,
    Seq<Seq<LineView>>,
)
    decreases lines.len(),
{
    if lines.len() == 0 {
        (state, Seq::empty())
    } else {
        let (before, closed) = feed_lines(state, lines.drop_last(), min_cov);
        let (after, chunk) = feed_line(before, lines.last(), min_cov);
        match chunk {
            Some(c) => (after, closed.push(c)),
            None => (after, closed),
        }
    }
}

/// The chunks of a whole stream: one for each run of consecutive lines with
/// one reference that holds a line giving a record, in stream order.
pub open spec fn pileup_chunks(lines: Seq<LineView>, min_cov: u32) -> Seq<Seq<LineView>> {
    let (last, closed) = feed_lines(initial_state(), lines, min_cov);
    match run_chunk(last.lines) {
        Some(c) => closed.push(c),
        None => closed,
    }
}

/// Whether `chunk` holds the records of `lines`, one for each, in order, under
/// their common reference.
pub open spec fn chunk_matches(chunk: PileupChunk, lines: Seq<LineView>) -> bool {
    &&& chunk.records@.len() == lines.len()
    &&& forall|i: int| 0 <= i < lines.len() ==> record_matches_line(#[trigger] chunk.records@[i], lines[i])
    &&& forall|i: int| 0 <= i < lines.len() ==> (#[trigger] chunk.records@[i]).reference@ == chunk.reference@
}

/// Groups a stream of pileup lines, taken one at a time, into chunks of
/// consecutive lines with one reference. It does not sort: a reference that
/// comes back later opens a chunk of its own.
pub struct PileupChunkReader {
    reference: Option<Vec<u8>>,
    records: Vec<PileupRecord>,
    lines: Ghost<Seq<LineView>>,
    min_cov: u32,
    /// Set once the end of the stream has been taken.
    pub eof_reached: bool,
}

impl View for PileupChunkReader {
    type V = ReaderState;

    closed spec fn view(&self) -> ReaderState {
        ReaderState {
            reference: match self.reference {
                Some(k) => Some(k@),
                None => None,
            },
            lines: self.lines@,
        }
    }
}

impl PileupChunkReader {
    /// Whether the end of the stream has been taken.
    pub closed spec fn at_end(&self) -> bool {
        self.eof_reached
    }

    /// The minimum valid coverage of a kept line.
    pub closed spec fn min_coverage(&self) -> u32 {
        self.min_cov
    }

    /// The records held are those of the lines of the open run, each of which
    /// gave a record and has the run's reference.
    pub closed spec fn wf(&self) -> bool {
        &&& self.records@.len() == self.lines@.len()
        &&& forall|i: int|
            0 <= i < self.lines@.len() ==> record_matches_line(
                #[trigger] self.records@[i],
                self.lines@[i],
            )
        &&& forall|i: int| 0 <= i < self.lines@.len() ==> line_is_valid(#[trigger] self.lines@[i], self.min_cov)
        &&& self.lines@.len() > 0 ==> self.reference is Some
        &&& forall|i: int|
            0 <= i < self.lines@.len() ==> column(#[trigger] self.lines@[i], 0) == self.reference->Some_0@
    }

    /// A reader before the first line.
    pub fn new(min_cov: u32) -> (r: PileupChunkReader)
        ensures
            r.wf(),
            r@ == initial_state(),
            r.min_coverage() == min_cov,
            !r.at_end(),
    {
        PileupChunkReader {
            reference: None,
            records: Vec::new(),
            lines: Ghost(Seq::empty()),
            min_cov,
            eof_reached: false,
        }
    }

    /// Closes the open run, handing out its chunk if it holds records.
    fn take_chunk(&mut self) -> (r: Option<PileupChunk>)
        requires
            old(self).wf(),
        ensures
            final(self).records@.len() == 0,
            final(self).lines@ == Seq::<LineView>::empty(),
            final(self).reference == old(self).reference,
            final(self).min_cov == old(self).min_cov,
            final(self).eof_reached == old(self).eof_reached,
            r is Some <==> run_chunk(old(self).lines@) is Some,
            r matches Some(c) ==> chunk_matches(c, old(self).lines@),
    {
        if self.records.len() == 0 {
            self.lines = Ghost(Seq::empty());
            return None;
        }
        let mut records: Vec<PileupRecord> = Vec::new();
        std::mem::swap(&mut records, &mut self.records);
        let reference = records[0].reference.clone();
        self.lines = Ghost(Seq::empty());
        Some(PileupChunk { reference, records })
    }

    /// Takes the next line of the stream; returns the chunk that the line
    /// closes, if any.
    pub fn push_line(&mut self, line: &PileupLine) -> (r: Option<PileupChunk>)
        requires
            old(self).wf(),
        ensures
            final(self).wf(),
            final(self).min_coverage() == old(self).min_coverage(),
            final(self).at_end() == old(self).at_end(),
            final(self)@ == feed_line(old(self)@, line@, old(self).min_coverage()).0,
            r is Some <==> feed_line(old(self)@, line@, old(self).min_coverage()).1 is Some,
            r matches Some(c) ==> chunk_matches(c, feed_line(old(self)@, line@, old(self).min_coverage()).1->Some_0),
            r matches Some(c) ==> forall|i: int|
                0 <= i < c.records@.len() ==> (#[trigger] c.records@[i]).n_valid_cov >= old(self).min_coverage(),
    {
        let key = column_bytes(line, 0);
        let mut out: Option<PileupChunk> = None;
        let same = match &self.reference {
            Some(k) => same_bytes(k.as_slice(), key),
            None => true,
        };
        if !same {
            out = self.take_chunk();
        }
        self.reference = Some(slice_to_vec(key));
        let ghost kept: Seq<LineView> = Seq::empty();
        if let Some(record) = parse_and_validate_pileup_record(line, self.min_cov) {
            self.records.push(record);
            proof {
                kept = seq![line@];
            }
        }
        self.lines = Ghost(self.lines@ + kept);
        proof {
            assert(self@.reference == Some(key@));
            assert(self@.lines =~= feed_line(old(self)@, line@, self.min_cov).0.lines);
        }
        out
    }

    /// Takes the end of the stream; returns the chunk of the last run, if it
    /// holds records.
    pub fn finish(&mut self) -> (r: Option<PileupChunk>)
        requires
            old(self).wf(),
        ensures
            final(self).wf(),
            final(self).min_coverage() == old(self).min_coverage(),
            final(self).at_end(),
            final(self)@ == initial_state(),
            r is Some <==> run_chunk(old(self)@.lines) is Some,
            r matches Some(c) ==> chunk_matches(c, old(self)@.lines),
            r matches Some(c) ==> forall|i: int|
                0 <= i < c.records@.len() ==> (#[trigger] c.records@[i]).n_valid_cov >= old(self).min_coverage(),
    {
        let out = self.take_chunk();
        self.reference = None;
        self.eof_reached = true;
        proof {
            assert(self@.lines =~= initial_state().lines);
        }
        out
    }
}

/// Whether two byte strings are equal.
fn same_bytes(a: &[u8], b: &[u8]) -> (r: bool)
    ensures
        r == (a@ == b@),
{
    if a.len() != b.len() {
        return false;
    }
    let mut i: usize = 0;
    while i < a.len()
        invariant
            a@.len() == b@.len(),
            i <= a@.len(),
            forall|j: int| 0 <= j < i ==> a@[j] == b@[j],
        decreases a@.len() - i,
    {
        if a[i] != b[i] {
            return false;
        }
        i = i + 1;
    }
    assert(a@ =~= b@);
    true
}

/// The lines of `lines` that give a record, in order.
pub open spec fn valid_lines(lines: Seq<LineView>, min_cov: u32) -> Seq<LineView>
    decreases lines.len(),
{
    if lines.len() == 0 {
        Seq::empty()
    } else if line_is_valid(lines.last(), min_cov) {
        valid_lines(lines.drop_last(), min_cov).push(lines.last())
    } else {
        valid_lines(lines.drop_last(), min_cov)
    }
}

/// Every line that `feed_lines` holds or has closed into a chunk gives a record.
proof fn lemma_fed_lines_valid(lines: Seq<LineView>, min_cov: u32)
    ensures
        forall|j: int|
            0 <= j < feed_lines(initial_state(), lines, min_cov).0.lines.len() ==> line_is_valid(
                #[trigger] feed_lines(initial_state(), lines, min_cov).0.lines[j],
                min_cov,
            ),
        forall|c: int, j: int|
            0 <= c < feed_lines(initial_state(), lines, min_cov).1.len() && 0 <= j < feed_lines(
                initial_state(),
                lines,
                min_cov,
            ).1[c].len() ==> line_is_valid(
                #[trigger] feed_lines(initial_state(), lines, min_cov).1[c][j],
                min_cov,
            ),
    decreases lines.len(),
{
    if lines.len() > 0 {
        lemma_fed_lines_valid(lines.drop_last(), min_cov);
        let (before, closed) = feed_lines(initial_state(), lines.drop_last(), min_cov);
        let (after, chunk) = feed_line(before, lines.last(), min_cov);
        assert forall|j: int| 0 <= j < after.lines.len() implies line_is_valid(
            #[trigger] after.lines[j],
            min_cov,
        ) by {
            if j < before.lines.len() && !(before.reference is Some && before.reference->Some_0
                != column(lines.last(), 0)) {
                assert(after.lines[j] == before.lines[j]);
            }
        }
    }
}

/// A line whose valid coverage is below the minimum is in no chunk: every line
/// of every chunk of a stream gives a record.
pub proof fn lemma_chunks_hold_only_covered_lines(lines: Seq<LineView>, min_cov: u32)
    ensures
        forall|c: int, j: int|
            0 <= c < pileup_chunks(lines, min_cov).len() && 0 <= j < pileup_chunks(
                lines,
                min_cov,
            )[c].len() ==> line_is_valid(#[trigger] pileup_chunks(lines, min_cov)[c][j], min_cov),
        forall|c: int, j: int|
            0 <= c < pileup_chunks(lines, min_cov).len() && 0 <= j < pileup_chunks(
                lines,
                min_cov,
            )[c].len() ==> count_column(#[trigger] pileup_chunks(lines, min_cov)[c][j], 9)->Some_0
                >= min_cov,
{
    lemma_fed_lines_valid(lines, min_cov);
}

/// A run of lines that all name one reference, read from the start, leaves
/// that reference open with the run's valid lines, and closes nothing.
proof fn lemma_one_run(lines: Seq<LineView>, key: Seq<u8>, min_cov: u32)
    requires
        lines.len() > 0,
        forall|i: int| 0 <= i < lines.len() ==> column(#[trigger] lines[i], 0) == key,
    ensures
        feed_lines(initial_state(), lines, min_cov) == (
            ReaderState { reference: Some(key), lines: valid_lines(lines, min_cov) },
            Seq::<Seq<LineView>>::empty(),
        ),
    decreases lines.len(),
{
    let rest = lines.drop_last();
    if rest.len() > 0 {
        lemma_one_run(rest, key, min_cov);
    } else {
        assert(valid_lines(rest, min_cov) =~= Seq::<LineView>::empty());
    }
    let (before, closed) = feed_lines(initial_state(), rest, min_cov);
    let kept = if line_is_valid(lines.last(), min_cov) {
        seq![lines.last()]
    } else {
        Seq::<LineView>::empty()
    };
    assert(before.lines + kept =~= valid_lines(lines, min_cov));
}

/// A run of `a`'s reference followed by a run of another reference leaves the
/// second open and has closed the first alone.
proof fn lemma_second_run(
    a: Seq<LineView>,
    b: Seq<LineView>,
    key_a: Seq<u8>,
    key_b: Seq<u8>,
    min_cov: u32,
)
    requires
        a.len() > 0,
        b.len() > 0,
        key_a != key_b,
        valid_lines(a, min_cov).len() > 0,
        forall|i: int| 0 <= i < a.len() ==> column(#[trigger] a[i], 0) == key_a,
        forall|i: int| 0 <= i < b.len() ==> column(#[trigger] b[i], 0) == key_b,
    ensures
        feed_lines(initial_state(), a + b, min_cov) == (
            ReaderState { reference: Some(key_b), lines: valid_lines(b, min_cov) },
            seq![valid_lines(a, min_cov)],
        ),
    decreases b.len(),
{
    let rest = b.drop_last();
    assert((a + b).drop_last() =~= a + rest);
    assert((a + b).last() == b.last());
    if rest.len() > 0 {
        lemma_second_run(a, rest, key_a, key_b, min_cov);
    } else {
        assert(a + rest =~= a);
        lemma_one_run(a, key_a, min_cov);
        assert(valid_lines(rest, min_cov) =~= Seq::<LineView>::empty());
    }
    let (before, closed) = feed_lines(initial_state(), a + rest, min_cov);
    let kept = if line_is_valid(b.last(), min_cov) {
        seq![b.last()]
    } else {
        Seq::<LineView>::empty()
    };
    if rest.len() > 0 {
        assert(before.lines + kept =~= valid_lines(b, min_cov));
    } else {
        assert(Seq::<LineView>::empty() + kept =~= kept);
        assert(kept =~= valid_lines(b, min_cov));
    }
}

/// A run with a line that gives a record has valid lines.
proof fn lemma_valid_lines_nonempty(lines: Seq<LineView>, i: int, min_cov: u32)
    requires
        0 <= i < lines.len(),
        line_is_valid(lines[i], min_cov),
    ensures
        valid_lines(lines, min_cov).len() > 0,
    decreases lines.len(),
{
    if i < lines.len() - 1 {
        lemma_valid_lines_nonempty(lines.drop_last(), i, min_cov);
    }
}

/// A stream made of a run of lines for one reference and then a run for
/// another yields exactly two chunks, each with the valid lines of its own run
/// only, where each run has a line that gives a record.
pub proof fn lemma_two_references_two_chunks(
    a: Seq<LineView>,
    b: Seq<LineView>,
    min_cov: u32,
)
    requires
        a.len() > 0,
        b.len() > 0,
        forall|i: int| 0 <= i < a.len() ==> column(#[trigger] a[i], 0) == column(a[0], 0),
        forall|i: int| 0 <= i < b.len() ==> column(#[trigger] b[i], 0) == column(b[0], 0),
        column(a[0], 0) != column(b[0], 0),
        exists|i: int| 0 <= i < a.len() && line_is_valid(#[trigger] a[i], min_cov),
        exists|i: int| 0 <= i < b.len() && line_is_valid(#[trigger] b[i], min_cov),
    ensures
        pileup_chunks(a + b, min_cov) == seq![valid_lines(a, min_cov), valid_lines(b, min_cov)],
{
    let i = choose|i: int| 0 <= i < a.len() && line_is_valid(#[trigger] a[i], min_cov);
    let j = choose|j: int| 0 <= j < b.len() && line_is_valid(#[trigger] b[j], min_cov);
    lemma_valid_lines_nonempty(a, i, min_cov);
    lemma_valid_lines_nonempty(b, j, min_cov);
    lemma_second_run(a, b, column(a[0], 0), column(b[0], 0), min_cov);
    assert(seq![valid_lines(a, min_cov)].push(valid_lines(b, min_cov)) =~= seq![
        valid_lines(a, min_cov),
        valid_lines(b, min_cov),
    ]);
}

/// The lines of `chunks`, one chunk after another.
pub open spec fn concat_chunks(chunks: Seq<Seq<LineView>>) -> Seq<LineView>
    decreases chunks.len(),
{
    if chunks.len() == 0 {
        Seq::empty()
    } else {
        concat_chunks(chunks.drop_last()) + chunks.last()
    }
}

/// What has been closed, followed by what is held, is the valid lines read.
proof fn lemma_fed_lines_keep_order(lines: Seq<LineView>, min_cov: u32)
    ensures
        concat_chunks(feed_lines(initial_state(), lines, min_cov).1) + feed_lines(
            initial_state(),
            lines,
            min_cov,
        ).0.lines == valid_lines(lines, min_cov),
    decreases lines.len(),
{
    if lines.len() == 0 {
        assert(concat_chunks(Seq::<Seq<LineView>>::empty()) + Seq::<LineView>::empty() =~= Seq::<
            LineView,
        >::empty());
    } else {
        let rest = lines.drop_last();
        lemma_fed_lines_keep_order(rest, min_cov);
        let (before, closed) = feed_lines(initial_state(), rest, min_cov);
        let (after, chunk) = feed_line(before, lines.last(), min_cov);
        let kept = if line_is_valid(lines.last(), min_cov) {
            seq![lines.last()]
        } else {
            Seq::<LineView>::empty()
        };
        let all = feed_lines(initial_state(), lines, min_cov).1;
        if before.reference is Some && before.reference->Some_0 != column(lines.last(), 0) {
            if before.lines.len() > 0 {
                assert(all.drop_last() =~= closed);
                assert(concat_chunks(all) =~= concat_chunks(closed) + before.lines);
            } else {
                assert(concat_chunks(closed) + before.lines =~= concat_chunks(closed));
            }
            assert(concat_chunks(all) + after.lines =~= valid_lines(lines, min_cov));
        } else {
            assert(concat_chunks(all) + after.lines =~= valid_lines(lines, min_cov));
        }
    }
}

/// No line is lost or repeated across chunk boundaries: the chunks of a
/// stream, one after another, are exactly its lines that give a record, in
/// stream order.
pub proof fn lemma_chunks_keep_every_valid_line(lines: Seq<LineView>, min_cov: u32)
    ensures
        concat_chunks(pileup_chunks(lines, min_cov)) == valid_lines(lines, min_cov),
{
    lemma_fed_lines_keep_order(lines, min_cov);
    let (last, closed) = feed_lines(initial_state(), lines, min_cov);
    let chunks = pileup_chunks(lines, min_cov);
    if last.lines.len() > 0 {
        assert(chunks.drop_last() =~= closed);
    } else {
        assert(concat_chunks(closed) + last.lines =~= concat_chunks(closed));
    }
}

/// The batches that reading up to `n` chunks at a time makes of `items`:
/// each batch is full but the last, which holds what remains.
pub open spec fn batches<A>(items: Seq<A>, n: nat) -> Seq<Seq<A>>
    decreases items.len(),
{
    if items.len() == 0 || n == 0 {
        Seq::empty()
    } else if items.len() <= n {
        seq![items]
    } else {
        seq![items.take(n as int)] + batches(items.skip(n as int), n)
    }
}

/// The items of `bs`, one batch after another.
pub open spec fn concat_batches<A>(bs: Seq<Seq<A>>) -> Seq<A>
    decreases bs.len(),
{
    if bs.len() == 0 {
        Seq::empty()
    } else {
        bs[0] + concat_batches(bs.drop_first())
    }
}

/// Batching keeps every item, in order, in batches of 1 to `n` items.
proof fn lemma_batches_keep_items<A>(items: Seq<A>, n: nat)
    requires
        n >= 1,
    ensures
        concat_batches(batches(items, n)) == items,
        forall|b: int|
            0 <= b < batches(items, n).len() ==> 1 <= (#[trigger] batches(items, n)[b]).len() <= n,
    decreases items.len(),
{
    let bs = batches(items, n);
    if items.len() == 0 {
        assert(concat_batches(bs) =~= items);
    } else if items.len() <= n {
        assert(bs.drop_first() =~= Seq::<Seq<A>>::empty());
        assert(concat_batches(bs.drop_first()) == Seq::<A>::empty());
        assert(concat_batches(bs) =~= items);
    } else {
        let rest = items.skip(n as int);
        lemma_batches_keep_items(rest, n);
        assert(bs.drop_first() =~= batches(rest, n));
        assert(items.take(n as int) + rest =~= items);
        assert forall|b: int| 0 <= b < bs.len() implies 1 <= (#[trigger] bs[b]).len() <= n by {
            if b > 0 {
                assert(bs[b] == batches(rest, n)[b - 1]);
            }
        }
    }
}

/// Whatever batch size is asked for, the batches of a stream's chunks, one
/// after another, are exactly its chunks: batching neither splits, merges,
/// drops nor reorders them. Each batch holds from 1 to `n` chunks.
pub proof fn lemma_batching_keeps_chunks(lines: Seq<LineView>, min_cov: u32, n: nat)
    requires
        n >= 1,
    ensures
        concat_batches(batches(pileup_chunks(lines, min_cov), n)) == pileup_chunks(lines, min_cov),
        forall|b: int|
            0 <= b < batches(pileup_chunks(lines, min_cov), n).len() ==> 1 <= (
            #[trigger] batches(pileup_chunks(lines, min_cov), n)[b]).len() <= n,
{
    lemma_batches_keep_items(pileup_chunks(lines, min_cov), n);
}

/// A stream of a run for one reference and then a run for another, each with
/// a line that gives a record, yields its two chunks whatever batch size is
/// asked for.
pub proof fn lemma_two_references_any_batching(
    a: Seq<LineView>,
    b: Seq<LineView>,
    min_cov: u32,
    n: nat,
)
    requires
        n >= 1,
        a.len() > 0,
        b.len() > 0,
        forall|i: int| 0 <= i < a.len() ==> column(#[trigger] a[i], 0) == column(a[0], 0),
        forall|i: int| 0 <= i < b.len() ==> column(#[trigger] b[i], 0) == column(b[0], 0),
        column(a[0], 0) != column(b[0], 0),
        exists|i: int| 0 <= i < a.len() && line_is_valid(#[trigger] a[i], min_cov),
        exists|i: int| 0 <= i < b.len() && line_is_valid(#[trigger] b[i], min_cov),
    ensures
        concat_batches(batches(pileup_chunks(a + b, min_cov), n)) == seq![
            valid_lines(a, min_cov),
            valid_lines(b, min_cov),
        ],
{
    lemma_two_references_two_chunks(a, b, min_cov);
    lemma_batching_keeps_chunks(a + b, min_cov, n);
}

/// Takes what the stream gave towards a batch of `n` chunks: a chunk joins
/// the batch, and reading goes on while the batch is not full; the end of the
/// stream stops it.
pub fn batch_step(batch: &mut Vec<PileupChunk>, n: usize, next: Option<PileupChunk>) -> (more: bool)
    requires
        old(batch)@.len() < n,
    ensures
        match next {
            Some(c) => final(batch)@ == old(batch)@.push(c) && more == (final(batch)@.len() < n),
            None => final(batch)@ == old(batch)@ && !more,
        },
{
    match next {
        Some(chunk) => {
            batch.push(chunk);
            batch.len() < n
        },
        None => false,
    }
}

/// Hands out a batch, or `None` where the stream had no chunk left for it.
pub fn close_batch(batch: Vec<PileupChunk>) -> (r: Option<Vec<PileupChunk>>)
    ensures
        r is None <==> batch@.len() == 0,
        r matches Some(v) ==> v@ == batch@,
{
    if batch.len() == 0 {
        None
    } else {
        Some(batch)
    }
}

/// The columns of each line of a list.
pub open spec fn lines_view(lines: Seq<PileupLine>) -> Seq<LineView> {
    lines.map_values(|l: PileupLine| l@)
}

/// Reads a whole stream of lines into its chunks, in stream order: one for
/// each run of consecutive lines with one reference that holds a line giving
/// a record.
pub fn read_chunks(lines: &Vec<PileupLine>, min_cov: u32) -> (r: Vec<PileupChunk>)
    ensures
        r@.len() == pileup_chunks(lines_view(lines@), min_cov).len(),
        forall|k: int|
            0 <= k < r@.len() ==> chunk_matches(
                #[trigger] r@[k],
                pileup_chunks(lines_view(lines@), min_cov)[k],
            ),
{
    let ghost all = lines_view(lines@);
    let mut reader = PileupChunkReader::new(min_cov);
    let mut chunks: Vec<PileupChunk> = Vec::new();
    let mut i: usize = 0;
    while i < lines.len()
        invariant
            i <= lines@.len(),
            all == lines_view(lines@),
            reader.wf(),
            reader.min_coverage() == min_cov,
            reader@ == feed_lines(initial_state(), all.take(i as int), min_cov).0,
            chunks@.len() == feed_lines(initial_state(), all.take(i as int), min_cov).1.len(),
            forall|k: int|
                0 <= k < chunks@.len() ==> chunk_matches(
                    #[trigger] chunks@[k],
                    feed_lines(initial_state(), all.take(i as int), min_cov).1[k],
                ),
        decreases lines@.len() - i,
    {
        proof {
            assert(all.take(i as int + 1).drop_last() =~= all.take(i as int));
            assert(all.take(i as int + 1).last() == lines@[i as int]@);
        }
        let ghost before = chunks@;
        if let Some(chunk) = reader.push_line(&lines[i]) {
            chunks.push(chunk);
            proof {
                assert forall|k: int| 0 <= k < chunks@.len() implies chunk_matches(
                    #[trigger] chunks@[k],
                    feed_lines(initial_state(), all.take(i as int + 1), min_cov).1[k],
                ) by {
                    if k < before.len() {
                        assert(chunks@[k] == before[k]);
                    }
                }
            }
        }
        i = i + 1;
    }
    proof {
        assert(all.take(lines@.len() as int) =~= all);
    }
    let ghost before = chunks@;
    if let Some(chunk) = reader.finish() {
        chunks.push(chunk);
        proof {
            assert forall|k: int| 0 <= k < chunks@.len() implies chunk_matches(
                #[trigger] chunks@[k],
                pileup_chunks(all, min_cov)[k],
            ) by {
                if k < before.len() {
                    assert(chunks@[k] == before[k]);
                }
            }
        }
    }
    chunks
}

} // verus!
