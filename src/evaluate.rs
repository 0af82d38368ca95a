use vstd::prelude::*;

use crate::modtype::ModType;
use crate::motif::{pattern_of, Motif, MotifPair};
use crate::pileup::PileupRecord;
use crate::sequence::{
    indices_view, motif_sites, regex_match_starts, strictly_increasing, Contig, RecordKey,
    RecordMap,
};
use crate::strand::Strand;

verus! {

/// The keys of a paired hit: the call at the motif's modified base, and the
/// call at its partner's modified base.
pub type SitePair = (RecordKey, RecordKey);

/// The offset, along the forward strand, from the forward motif's modified
/// base to its partner's.
pub open spec fn mod_position_shift(pair: MotifPair) -> int {
    pair.reverse@.reverse_complement().position - pair.forward@.position
}

/// The paired hits of one scan: for each site in order, the record at
/// `(site, strand_1, mod_1)` with the record at `(site + shift, strand_2,
/// mod_2)`, where both are present.
pub open spec fn scan_hits(
    records: Map<RecordKey, PileupRecord>,
    sites: Seq<usize>,
    strand_1: Strand,
    mod_1: ModType,
    strand_2: Strand,
    mod_2: ModType,
    shift: int,
) -> Seq<SitePair>
    decreases sites.len(),
{
    if sites.len() == 0 {
        Seq::empty()
    } else {
        let earlier = scan_hits(records, sites.drop_last(), strand_1, mod_1, strand_2, mod_2, shift);
        let key_1 = (sites.last(), strand_1, mod_1);
        let partner = sites.last() + shift;
        let key_2 = (partner as usize, strand_2, mod_2);
        if records.contains_key(key_1) && 0 <= partner <= usize::MAX && records.contains_key(key_2) {
            earlier.push((key_1, key_2))
        } else {
            earlier
        }
    }
}

/// The paired hits of a motif pair, given the sites of the forward motif and
/// of its reverse complement: the forward scan, then, unless the pair is
/// palindromic, the reverse scan.
pub open spec fn pair_site_hits(
    records: Map<RecordKey, PileupRecord>,
    pair: MotifPair,
    forward_sites: Option<Seq<usize>>,
    reverse_sites: Option<Seq<usize>>,
) -> Seq<SitePair> {
    let shift = mod_position_shift(pair);
    let forward = match forward_sites {
        Some(s) => scan_hits(
            records,
            s,
            Strand::Positive,
            pair.forward.mod_type,
            Strand::Negative,
            pair.reverse.mod_type,
            shift,
        ),
        None => Seq::empty(),
    };
    let reverse = match reverse_sites {
        Some(s) => scan_hits(
            records,
            s,
            Strand::Negative,
            pair.forward.mod_type,
            Strand::Positive,
            pair.reverse.mod_type,
            -shift,
        ),
        None => Seq::empty(),
    };
    if pair.is_palindromic {
        forward
    } else {
        forward + reverse
    }
}

/// The sites of the forward motif of a pair on a contig's sequence.
pub open spec fn forward_sites(contig: Contig, pair: MotifPair) -> Option<Seq<usize>> {
    match regex_match_starts(pattern_of(pair.forward.sequence@), contig.sequence@) {
        Some(starts) => motif_sites(starts, pair.forward.position),
        None => None,
    }
}

/// The sites of the reverse complement of the forward motif of a pair on a
/// contig's sequence.
pub open spec fn reverse_sites(contig: Contig, pair: MotifPair) -> Option<Seq<usize>> {
    let rc = pair.forward@.reverse_complement();
    match regex_match_starts(pattern_of(rc.sequence), contig.sequence@) {
        Some(starts) => motif_sites(starts, rc.position as usize),
        None => None,
    }
}

/// Appends the paired hits of one scan.
fn scan_sites(
    records: &RecordMap,
    sites: &Vec<usize>,
    strand_1: Strand,
    mod_1: ModType,
    strand_2: Strand,
    mod_2: ModType,
    shift: i128,
    hits: &mut Vec<SitePair>,
)
    requires
        -usize::MAX <= shift <= usize::MAX,
    ensures
        final(hits)@ == old(hits)@ + scan_hits(
            records@,
            sites@,
            strand_1,
            mod_1,
            strand_2,
            mod_2,
            shift as int,
        ),
{
    let ghost start = hits@;
    let mut i: usize = 0;
    while i < sites.len()
        invariant
            -usize::MAX <= shift <= usize::MAX,
            i <= sites@.len(),
            hits@ == start + scan_hits(
                records@,
                sites@.subrange(0, i as int),
                strand_1,
                mod_1,
                strand_2,
                mod_2,
                shift as int,
            ),
        decreases sites@.len() - i,
    {
        let site = sites[i];
        let key_1 = (site, strand_1, mod_1);
        let partner = site as i128 + shift;
        proof {
            let done = sites@.subrange(0, i as int + 1);
            assert(done.drop_last() =~= sites@.subrange(0, i as int));
        }
        if crate::sequence::get_record(records, &key_1).is_some() && 0 <= partner && partner
            <= usize::MAX as i128 {
            let key_2 = (partner as usize, strand_2, mod_2);
            if crate::sequence::get_record(records, &key_2).is_some() {
                hits.push((key_1, key_2));
            }
        }
        i = i + 1;
    }
    assert(sites@.subrange(0, sites@.len() as int) =~= sites@);
}

/// The paired hits of a motif pair on a contig's records, given the sites of
/// the forward motif and of its reverse complement.
pub fn pair_hits_from_sites(
    records: &RecordMap,
    pair: &MotifPair,
    forward_sites: &Option<Vec<usize>>,
    reverse_sites: &Option<Vec<usize>>,
) -> (r: Vec<SitePair>)
    requires
        pair.wf(),
    ensures
        r@ == pair_site_hits(records@, *pair, indices_view(*forward_sites), indices_view(*reverse_sites)),
{
    let rc_position = pair.reverse.sequence.len() - 1 - pair.reverse.position;
    let shift = rc_position as i128 - pair.forward.position as i128;
    let mut hits: Vec<SitePair> = Vec::new();
    if let Some(sites) = forward_sites {
        scan_sites(
            records,
            sites,
            Strand::Positive,
            pair.forward.mod_type,
            Strand::Negative,
            pair.reverse.mod_type,
            shift,
            &mut hits,
        );
    }
    if pair.is_palindromic {
        return hits;
    }
    if let Some(sites) = reverse_sites {
        scan_sites(
            records,
            sites,
            Strand::Negative,
            pair.forward.mod_type,
            Strand::Positive,
            pair.reverse.mod_type,
            -shift,
            &mut hits,
        );
    }
    hits
}

/// The paired hits of a motif pair on a contig: its forward motif's sites on
/// the sequence, then, unless the pair is palindromic, those of the forward
/// motif's reverse complement.
pub fn motif_pair_hits(contig: &Contig, pair: &MotifPair) -> (r: Vec<SitePair>)
    requires
        pair.wf(),
    ensures
        r@ == pair_site_hits(contig.records@, *pair, forward_sites(*contig, *pair), reverse_sites(*contig, *pair)),
        no_site_twice(r@),
        pair.is_palindromic ==> forall|i: int| 0 <= i < r@.len() ==> (#[trigger] r@[i]).0.1 == Strand::Positive,
{
    let forward = contig.find_motif_indeces(&pair.forward);
    let reverse = contig.find_complement_motif_indeces(&pair.forward);
    let hits = pair_hits_from_sites(&contig.records, pair, &forward, &reverse);
    proof {
        lemma_each_site_once(contig.records@, *pair, indices_view(forward), indices_view(reverse));
    }
    hits
}

/// One row of the result: the index of the motif pair in the list, and the
/// keys of the two paired records.
#[derive(Debug, Clone, Copy, PartialEq, Eq)]
pub struct PairedSite {
    pub pair_index: usize,
    pub site_1: RecordKey,
    pub site_2: RecordKey,
}

/// The rows of every motif pair on a contig, pair after pair.
pub open spec fn contig_rows(contig: Contig, motifs: Seq<MotifPair>) -> Seq<PairedSite>
    decreases motifs.len(),
{
    if motifs.len() == 0 {
        Seq::empty()
    } else {
        let i = motifs.len() - 1;
        let hits = pair_site_hits(
            contig.records@,
            motifs[i],
            forward_sites(contig, motifs[i]),
            reverse_sites(contig, motifs[i]),
        );
        contig_rows(contig, motifs.drop_last()) + Seq::new(
            hits.len(),
            |j: int| PairedSite { pair_index: i as usize, site_1: hits[j].0, site_2: hits[j].1 },
        )
    }
}

/// Pairs the records of a contig for every motif pair, in the order of the
/// pairs.
pub fn motif_methylation_pattern(contig: &Contig, motifs: &Vec<MotifPair>) -> (r: Vec<PairedSite>)
    requires
        forall|i: int| 0 <= i < motifs@.len() ==> (#[trigger] motifs@[i]).wf(),
    ensures
        r@ == contig_rows(*contig, motifs@),
        forall|i: int|
            0 <= i < r@.len() ==> contig.records@.contains_key((#[trigger] r@[i]).site_1)
                && contig.records@.contains_key(r@[i].site_2) && r@[i].pair_index < motifs@.len(),
        forall|i: int, j: int|
            0 <= i < j < r@.len() && (#[trigger] r@[i]).pair_index == (#[trigger] r@[j]).pair_index
                ==> r@[i].site_1 != r@[j].site_1,
{
    let mut rows: Vec<PairedSite> = Vec::new();
    let mut p: usize = 0;
    while p < motifs.len()
        invariant
            p <= motifs@.len(),
            forall|i: int| 0 <= i < motifs@.len() ==> (#[trigger] motifs@[i]).wf(),
            rows@ == contig_rows(*contig, motifs@.subrange(0, p as int)),
            forall|i: int|
                0 <= i < rows@.len() ==> contig.records@.contains_key((#[trigger] rows@[i]).site_1)
                    && contig.records@.contains_key(rows@[i].site_2) && rows@[i].pair_index < p,
            forall|i: int, j: int|
                0 <= i < j < rows@.len() && (#[trigger] rows@[i]).pair_index == (
                #[trigger] rows@[j]).pair_index ==> rows@[i].site_1 != rows@[j].site_1,
        decreases motifs@.len() - p,
    {
        let hits = motif_pair_hits(contig, &motifs[p]);
        let ghost before = rows@;
        proof {
            lemma_each_site_once(
                contig.records@,
                motifs@[p as int],
                forward_sites(*contig, motifs@[p as int]),
                reverse_sites(*contig, motifs@[p as int]),
            );
        }
        let mut j: usize = 0;
        while j < hits.len()
            invariant
                p < motifs@.len(),
                j <= hits@.len(),
                rows@.len() == before.len() + j,
                rows@.subrange(0, before.len() as int) == before,
                forall|k: int|
                    0 <= k < j ==> rows@[before.len() + k] == (PairedSite {
                        pair_index: p,
                        site_1: hits@[k].0,
                        site_2: hits@[k].1,
                    }),
                forall|i: int|
                    0 <= i < before.len() ==> contig.records@.contains_key((#[trigger] before[i]).site_1)
                        && contig.records@.contains_key(before[i].site_2) && before[i].pair_index < p,
                forall|k: int|
                    0 <= k < hits@.len() ==> contig.records@.contains_key((#[trigger] hits@[k]).0)
                        && contig.records@.contains_key(hits@[k].1),
                no_site_twice(hits@),
                forall|a: int, b: int|
                    0 <= a < b < before.len() && (#[trigger] before[a]).pair_index == (
                    #[trigger] before[b]).pair_index ==> before[a].site_1 != before[b].site_1,
                forall|a: int, b: int|
                    0 <= a < b < rows@.len() && (#[trigger] rows@[a]).pair_index == (
                    #[trigger] rows@[b]).pair_index ==> rows@[a].site_1 != rows@[b].site_1,
            decreases hits@.len() - j,
        {
            let ghost prev = rows@;
            rows.push(PairedSite { pair_index: p, site_1: hits[j].0, site_2: hits[j].1 });
            proof {
                assert(rows@.subrange(0, before.len() as int) =~= before);
                assert forall|a: int, b: int|
                    0 <= a < b < rows@.len() && (#[trigger] rows@[a]).pair_index == (
                    #[trigger] rows@[b]).pair_index implies rows@[a].site_1 != rows@[b].site_1 by {
                    if b < prev.len() {
                        assert(rows@[a] == prev[a] && rows@[b] == prev[b]);
                    } else if a < before.len() {
                        assert(rows@[a] == before[a]);
                        assert(before[a].pair_index < p);
                    } else {
                        let k = a - before.len();
                        assert(rows@[a] == prev[before.len() + k]);
                        assert(prev[before.len() + k].site_1 == hits@[k].0);
                        assert(rows@[b].site_1 == hits@[j as int].0);
                        assert(hits@[k].0 != hits@[j as int].0);
                    }
                }
            }
            j = j + 1;
        }
        proof {
            let done = motifs@.subrange(0, p as int + 1);
            assert(done.drop_last() =~= motifs@.subrange(0, p as int));
            assert(done[p as int] == motifs@[p as int]);
            assert(rows@ =~= contig_rows(*contig, done));
            assert forall|i: int|
                0 <= i < rows@.len() implies contig.records@.contains_key((#[trigger] rows@[i]).site_1)
                && contig.records@.contains_key(rows@[i].site_2) && rows@[i].pair_index < p + 1 by {
                if i < before.len() {
                    assert(rows@[i] == before[i]);
                } else {
                    assert(rows@[i] == rows@[before.len() + (i - before.len())]);
                }
            }
        }
        p = p + 1;
    }
    assert(motifs@.subrange(0, motifs@.len() as int) =~= motifs@);
    rows
}

/// Whether no record is the first of two hits.
pub open spec fn no_site_twice(hits: Seq<SitePair>) -> bool {
    forall|i: int, j: int| 0 <= i < j < hits.len() ==> hits[i].0 != hits[j].0
}

/// Every hit of a scan pairs two present records, and its first record sits
/// at a site of the scan on the scan's strand.
proof fn lemma_scan_hits_facts(
    records: Map<RecordKey, PileupRecord>,
    sites: Seq<usize>,
    strand_1: Strand,
    mod_1: ModType,
    strand_2: Strand,
    mod_2: ModType,
    shift: int,
)
    ensures
        forall|k: int|
            0 <= k < scan_hits(records, sites, strand_1, mod_1, strand_2, mod_2, shift).len() ==> {
                let h = #[trigger] scan_hits(records, sites, strand_1, mod_1, strand_2, mod_2, shift)[k];
                &&& records.contains_key(h.0)
                &&& records.contains_key(h.1)
                &&& h.0.1 == strand_1
                &&& exists|s: int| 0 <= s < sites.len() && h.0.0 == sites[s]
            },
        strictly_increasing(sites) ==> forall|a: int, b: int|
            0 <= a < b < scan_hits(records, sites, strand_1, mod_1, strand_2, mod_2, shift).len()
                ==> (#[trigger] scan_hits(records, sites, strand_1, mod_1, strand_2, mod_2, shift)[a]).0.0
                < (#[trigger] scan_hits(records, sites, strand_1, mod_1, strand_2, mod_2, shift)[b]).0.0,
    decreases sites.len(),
{
    if sites.len() > 0 {
        let rest = sites.drop_last();
        lemma_scan_hits_facts(records, rest, strand_1, mod_1, strand_2, mod_2, shift);
        let earlier = scan_hits(records, rest, strand_1, mod_1, strand_2, mod_2, shift);
        let all = scan_hits(records, sites, strand_1, mod_1, strand_2, mod_2, shift);
        assert forall|k: int| 0 <= k < all.len() implies {
            let h = #[trigger] all[k];
            &&& records.contains_key(h.0)
            &&& records.contains_key(h.1)
            &&& h.0.1 == strand_1
            &&& exists|s: int| 0 <= s < sites.len() && h.0.0 == sites[s]
        } by {
            if k < earlier.len() {
                assert(all[k] == earlier[k]);
                let s = choose|s: int| 0 <= s < rest.len() && earlier[k].0.0 == rest[s];
                assert(sites[s] == rest[s]);
            } else {
                assert(all[k].0.0 == sites[sites.len() - 1]);
            }
        }
        if strictly_increasing(sites) {
            assert forall|a: int, b: int| 0 <= a < b < all.len() implies (#[trigger] all[a]).0.0
                < (#[trigger] all[b]).0.0 by {
                assert(all[a] == earlier[a]);
                if b < earlier.len() {
                    assert(all[b] == earlier[b]);
                } else {
                    let s = choose|s: int| 0 <= s < rest.len() && earlier[a].0.0 == rest[s];
                    assert(sites[s] == rest[s]);
                }
            }
        }
    }
}

/// A pair's scans count no site twice, where each scan's sites increase (as
/// scanning produces them): a palindromic pair is scanned on the forward
/// strand only, and otherwise the two scans file their first records under
/// opposite strands. Every hit pairs two present records.
pub proof fn lemma_each_site_once(
    records: Map<RecordKey, PileupRecord>,
    pair: MotifPair,
    forward: Option<Seq<usize>>,
    reverse: Option<Seq<usize>>,
)
    ensures
        forall|k: int|
            0 <= k < pair_site_hits(records, pair, forward, reverse).len() ==> records.contains_key(
                (#[trigger] pair_site_hits(records, pair, forward, reverse)[k]).0,
            ) && records.contains_key(pair_site_hits(records, pair, forward, reverse)[k].1),
        pair.is_palindromic ==> forall|k: int|
            0 <= k < pair_site_hits(records, pair, forward, reverse).len() ==> (
            #[trigger] pair_site_hits(records, pair, forward, reverse)[k]).0.1 == Strand::Positive,
        (forward matches Some(s) ==> strictly_increasing(s)) && (reverse matches Some(s)
            ==> strictly_increasing(s)) ==> no_site_twice(
            pair_site_hits(records, pair, forward, reverse),
        ),
{
    let shift = mod_position_shift(pair);
    let f = match forward {
        Some(s) => s,
        None => Seq::empty(),
    };
    let r = match reverse {
        Some(s) => s,
        None => Seq::empty(),
    };
    lemma_scan_hits_facts(
        records,
        f,
        Strand::Positive,
        pair.forward.mod_type,
        Strand::Negative,
        pair.reverse.mod_type,
        shift,
    );
    lemma_scan_hits_facts(
        records,
        r,
        Strand::Negative,
        pair.forward.mod_type,
        Strand::Positive,
        pair.reverse.mod_type,
        -shift,
    );
    let fh = scan_hits(
        records,
        f,
        Strand::Positive,
        pair.forward.mod_type,
        Strand::Negative,
        pair.reverse.mod_type,
        shift,
    );
    let rh = scan_hits(
        records,
        r,
        Strand::Negative,
        pair.forward.mod_type,
        Strand::Positive,
        pair.reverse.mod_type,
        -shift,
    );
    assert(forward is None ==> fh =~= Seq::<SitePair>::empty());
    assert(reverse is None ==> rh =~= Seq::<SitePair>::empty());
    let all = pair_site_hits(records, pair, forward, reverse);
    if !pair.is_palindromic {
        assert(all == fh + rh);
        assert forall|k: int| 0 <= k < all.len() implies records.contains_key(
            (#[trigger] all[k]).0,
        ) && records.contains_key(all[k].1) by {
            if k < fh.len() {
                assert(all[k] == fh[k]);
            } else {
                assert(all[k] == rh[k - fh.len()]);
            }
        }
        if (forward matches Some(s) ==> strictly_increasing(s)) && (reverse matches Some(s)
            ==> strictly_increasing(s)) {
            assert(strictly_increasing(f));
            assert(strictly_increasing(r));
            assert forall|i: int, j: int| 0 <= i < j < all.len() implies all[i].0 != all[j].0 by {
                if j < fh.len() {
                    assert(all[i] == fh[i] && all[j] == fh[j]);
                } else if i >= fh.len() {
                    assert(all[i] == rh[i - fh.len()] && all[j] == rh[j - fh.len()]);
                } else {
                    assert(all[i] == fh[i] && all[j] == rh[j - fh.len()]);
                }
            }
        }
    } else {
        assert(all == fh);
        if forward matches Some(s) ==> strictly_increasing(s) {
            assert(strictly_increasing(f));
            assert forall|i: int, j: int| 0 <= i < j < all.len() implies all[i].0 != all[j].0 by {
                assert(all[i] == fh[i] && all[j] == fh[j]);
            }
        }
    }
}

/// How far apart the methylation levels of a pair of calls are.
#[derive(Debug, Clone, Copy, PartialEq, Eq, Structural)]
pub enum Classification {
    /// The levels differ by more than one half.
    Differential,
    /// The levels differ by more than one tenth and at most one half.
    ModeratelyDifferential,
    /// The levels differ by at most one tenth, or a level is undefined.
    NonDifferential,
}

impl Classification {
    /// The label of the class in the result table.
    pub fn as_str(&self) -> (r: &'static str)
        ensures
            r@ == (match *self {
                Classification::Differential => "differential"@,
                Classification::ModeratelyDifferential => "moderately differential"@,
                Classification::NonDifferential => "non-differential"@,
            }),
    {
        match self {
            Classification::Differential => "differential",
            Classification::ModeratelyDifferential => "moderately differential",
            Classification::NonDifferential => "non-differential",
        }
    }
}

/// A fraction `numerator / denominator`.
pub type Ratio = (u64, u64);

/// The statistics of a paired hit. Fractions are exact; a fraction that is
/// undefined (a zero coverage, an odds of a fully modified site, an odds ratio
/// with a zero odds) is `None`.
#[derive(Debug, Clone, Copy, PartialEq, Eq)]
pub struct PairStatistics {
    pub n_nomod_1: u32,
    pub n_nomod_2: u32,
    /// The absolute difference of the two modified fractions.
    pub methylation_difference: Option<Ratio>,
    /// The odds of modification of the first call.
    pub odds_1: Option<Ratio>,
    /// The odds of modification of the second call.
    pub odds_2: Option<Ratio>,
    /// The first odds over the second.
    pub odds_ratio: Option<Ratio>,
    pub classification: Classification,
}

/// `|n_mod_1 / cov_1 - n_mod_2 / cov_2|`, where both coverages are positive.
pub open spec fn difference_of(n_mod_1: int, cov_1: int, n_mod_2: int, cov_2: int) -> Option<(int, int)> {
    if cov_1 == 0 || cov_2 == 0 {
        None
    } else {
        let d = n_mod_1 * cov_2 - n_mod_2 * cov_1;
        Some((if d < 0 { -d } else { d }, cov_1 * cov_2))
    }
}

/// `n_mod / (cov - n_mod)`, where the modified fraction is defined and below one.
pub open spec fn odds_of(n_mod: int, cov: int) -> Option<(int, int)> {
    if cov == 0 || n_mod == cov {
        None
    } else {
        Some((n_mod, cov - n_mod))
    }
}

/// The first odds over the second, where both are defined and not zero.
pub open spec fn odds_ratio_of(odds_1: Option<(int, int)>, odds_2: Option<(int, int)>) -> Option<(int, int)> {
    match (odds_1, odds_2) {
        (Some((a, b)), Some((c, d))) => if a == 0 || c == 0 {
            None
        } else {
            Some((a * d, b * c))
        },
        _ => None,
    }
}

/// The class of a methylation difference.
pub open spec fn classify(difference: Option<(int, int)>) -> Classification {
    match difference {
        Some((n, d)) => if 2 * n > d {
            Classification::Differential
        } else if 10 * n > d {
            Classification::ModeratelyDifferential
        } else {
            Classification::NonDifferential
        },
        None => Classification::NonDifferential,
    }
}

/// The view of an optional fraction.
pub open spec fn ratio_view(r: Option<Ratio>) -> Option<(int, int)> {
    match r {
        Some((n, d)) => Some((n as int, d as int)),
        None => None,
    }
}

/// `n_mod / (cov - n_mod)` as computed.
fn odds(n_mod: u32, cov: u32) -> (r: Option<Ratio>)
    requires
        n_mod <= cov,
    ensures
        ratio_view(r) == odds_of(n_mod as int, cov as int),
{
    if cov == 0 || n_mod == cov {
        None
    } else {
        Some((n_mod as u64, (cov - n_mod) as u64))
    }
}

/// The statistics of the calls of a paired hit.
pub fn pair_statistics(record_1: &PileupRecord, record_2: &PileupRecord) -> (r: PairStatistics)
    requires
        record_1.n_mod <= record_1.n_valid_cov,
        record_2.n_mod <= record_2.n_valid_cov,
    ensures
        r.n_nomod_1 == record_1.n_valid_cov - record_1.n_mod,
        r.n_nomod_2 == record_2.n_valid_cov - record_2.n_mod,
        ratio_view(r.methylation_difference) == difference_of(
            record_1.n_mod as int,
            record_1.n_valid_cov as int,
            record_2.n_mod as int,
            record_2.n_valid_cov as int,
        ),
        ratio_view(r.odds_1) == odds_of(record_1.n_mod as int, record_1.n_valid_cov as int),
        ratio_view(r.odds_2) == odds_of(record_2.n_mod as int, record_2.n_valid_cov as int),
        ratio_view(r.odds_ratio) == odds_ratio_of(ratio_view(r.odds_1), ratio_view(r.odds_2)),
        r.classification == classify(ratio_view(r.methylation_difference)),
{
    let m1 = record_1.n_mod as u64;
    let c1 = record_1.n_valid_cov as u64;
    let m2 = record_2.n_mod as u64;
    let c2 = record_2.n_valid_cov as u64;
    let methylation_difference = if c1 == 0 || c2 == 0 {
        None
    } else {
        assert(m1 * c2 <= 0xffff_ffff * 0xffff_ffff) by (nonlinear_arith)
            requires m1 <= 0xffff_ffff, c2 <= 0xffff_ffff;
        assert(m2 * c1 <= 0xffff_ffff * 0xffff_ffff) by (nonlinear_arith)
            requires m2 <= 0xffff_ffff, c1 <= 0xffff_ffff;
        assert(c1 * c2 <= 0xffff_ffff * 0xffff_ffff) by (nonlinear_arith)
            requires c1 <= 0xffff_ffff, c2 <= 0xffff_ffff;
        let a = m1 * c2;
        let b = m2 * c1;
        Some((if a >= b { a - b } else { b - a }, c1 * c2))
    };
    let odds_1 = odds(record_1.n_mod, record_1.n_valid_cov);
    let odds_2 = odds(record_2.n_mod, record_2.n_valid_cov);
    let odds_ratio = match (odds_1, odds_2) {
        (Some((a, b)), Some((c, d))) => if a == 0 || c == 0 {
            None
        } else {
            assert(a * d <= 0xffff_ffff * 0xffff_ffff) by (nonlinear_arith)
                requires a <= 0xffff_ffff, d <= 0xffff_ffff;
            assert(b * c <= 0xffff_ffff * 0xffff_ffff) by (nonlinear_arith)
                requires b <= 0xffff_ffff, c <= 0xffff_ffff;
            Some((a * d, b * c))
        },
        _ => None,
    };
    let classification = match methylation_difference {
        Some((n, d)) => if 2 * (n as u128) > d as u128 {
            Classification::Differential
        } else if 10 * (n as u128) > d as u128 {
            Classification::ModeratelyDifferential
        } else {
            Classification::NonDifferential
        },
        None => Classification::NonDifferential,
    };
    PairStatistics {
        n_nomod_1: record_1.n_valid_cov - record_1.n_mod,
        n_nomod_2: record_2.n_valid_cov - record_2.n_mod,
        methylation_difference,
        odds_1,
        odds_2,
        odds_ratio,
        classification,
    }
}

/// Where the motif of a hit starts on the forward strand: the position of the
/// first call less the motif's modified position.
pub fn motif_start_position(record_1: &PileupRecord, motif: &Motif) -> (r: i128)
    ensures
        r == record_1.position - motif.position,
{
    record_1.position as i128 - motif.position as i128
}

} // verus!
