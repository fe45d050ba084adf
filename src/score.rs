//! Scoring a reference list against the variants of one candidate.
//!
//! A rate is a fraction in fixed point: `SCALE` stands for 1. A fraction whose
//! denominator is zero has rate 0.
use vstd::prelude::*;
use vstd::arithmetic::div_mod::{lemma_div_is_ordered, lemma_div_multiples_vanish};
use vstd::arithmetic::mul::lemma_mul_inequality;
use crate::alleles::{classify, match_alleles, AlleleMatch};
use crate::candidates::{lookup, parse_strand, CandidateSet};
use crate::records::{strand_line, LineError, ParseError, SourceEntry, SourceModel, VariantEntry};

verus! {

/// The fixed-point unit of a rate: a rate of `SCALE` is a ratio of 1.
pub const SCALE: u64 = 1_000_000;

/// The counters of one scoring pass.
pub ghost struct Tally {
    /// Reference variants whose identifier the candidate has.
    pub name: int,
    /// Of those, the ones at the same chromosome and position.
    pub name_pos: int,
    /// Of those, the ones whose alleles match as they stand.
    pub strand: int,
    /// Of those, the ones whose alleles match once flipped to the plus strand.
    pub plus: int,
    /// Of those, the ones whose alleles are ambiguous on both sides.
    pub atcg: int,
}

/// The five rates of a candidate.
pub ghost struct Rates {
    pub name: int,
    pub name_pos: int,
    pub strand: int,
    pub plus: int,
    pub atcg: int,
}

/// The views of a sequence of reference entries.
pub open spec fn models(bim: Seq<SourceEntry>) -> Seq<SourceModel> {
    bim.map_values(|e: SourceEntry| e@)
}

/// The counters after reference variant `r` is looked up in `cands`.
pub open spec fn step(t: Tally, r: SourceModel, cands: Seq<(Seq<char>, VariantEntry)>) -> Tally {
    match lookup(cands, r.name) {
        None => t,
        Some(v) => if v.chromosome == r.chromosome && v.position == r.position {
            let found = Tally { name: t.name + 1, name_pos: t.name_pos + 1, ..t };
            match classify(r.alleles, v.alleles, v.strand) {
                AlleleMatch::ATCG => Tally { atcg: t.atcg + 1, ..found },
                AlleleMatch::Original => Tally { strand: t.strand + 1, ..found },
                AlleleMatch::Plus => Tally { plus: t.plus + 1, ..found },
                AlleleMatch::Mismatch => found,
            }
        } else {
            Tally { name: t.name + 1, ..t }
        },
    }
}

/// The counters after every variant of `refs` is looked up in `cands`.
pub open spec fn tally(refs: Seq<SourceModel>, cands: Seq<(Seq<char>, VariantEntry)>) -> Tally
    decreases refs.len(),
{
    if refs.len() == 0 {
        Tally { name: 0, name_pos: 0, strand: 0, plus: 0, atcg: 0 }
    } else {
        step(tally(refs.drop_last(), cands), refs.last(), cands)
    }
}

/// `num / den` in fixed point, rounded down; 0 where `den` is 0.
pub open spec fn rate(num: int, den: int) -> int {
    if den == 0 {
        0
    } else {
        num * SCALE / den
    }
}

/// The rates of `refs` scored against `cands`.
pub open spec fn rates(refs: Seq<SourceModel>, cands: Seq<(Seq<char>, VariantEntry)>) -> Rates {
    let t = tally(refs, cands);
    Rates {
        name: rate(t.name, refs.len() as int),
        name_pos: rate(t.name_pos, t.name),
        strand: rate(t.strand, t.name_pos - t.atcg),
        plus: rate(t.plus, t.name_pos - t.atcg),
        atcg: rate(t.atcg, t.name_pos),
    }
}

/// The score of one candidate strand file. Each rate is in fixed point, with
/// `SCALE` for 1.
#[derive(Debug)]
pub struct MatchResult {
    /// Name of the strand file.
    pub name: String,
    /// Share of reference variants whose identifier the candidate has.
    pub name_match_rate: u64,
    /// Share of those at the same chromosome and position.
    pub name_pos_match_rate: u64,
    /// Share of the unambiguous ones among those whose alleles match as they stand.
    pub strand_match_rate: u64,
    /// Share of the unambiguous ones among those whose alleles match on the plus strand.
    pub plus_match_rate: u64,
    /// Share of those at the same place whose alleles are ambiguous.
    pub atcg_match_rate: u64,
}

impl MatchResult {
    /// The rates this result holds.
    pub open spec fn rates(&self) -> Rates {
        Rates {
            name: self.name_match_rate as int,
            name_pos: self.name_pos_match_rate as int,
            strand: self.strand_match_rate as int,
            plus: self.plus_match_rate as int,
            atcg: self.atcg_match_rate as int,
        }
    }
}

/// No counter exceeds the one it is a part of: the reference variants found at
/// the same place are among those found by name, which are among all
/// reference variants, and the three kinds of allele match are disjoint parts
/// of the variants found at the same place.
pub proof fn lemma_tally_bounds(refs: Seq<SourceModel>, cands: Seq<(Seq<char>, VariantEntry)>)
    ensures
        0 <= tally(refs, cands).strand,
        0 <= tally(refs, cands).plus,
        0 <= tally(refs, cands).atcg,
        tally(refs, cands).strand + tally(refs, cands).plus + tally(refs, cands).atcg
            <= tally(refs, cands).name_pos,
        tally(refs, cands).name_pos <= tally(refs, cands).name,
        tally(refs, cands).name <= refs.len(),
    decreases refs.len(),
{
    if refs.len() > 0 {
        lemma_tally_bounds(refs.drop_last(), cands);
    }
}

proof fn lemma_rate_bounds(num: int, den: int)
    requires
        0 <= num <= den,
    ensures
        0 <= rate(num, den) <= SCALE,
{
    if den > 0 {
        lemma_mul_inequality(num, den, SCALE as int);
        lemma_div_is_ordered(num * SCALE, den * SCALE, den);
        lemma_div_multiples_vanish(SCALE as int, den);
        assert(den * SCALE == SCALE * den) by (nonlinear_arith);
        assert(0 <= num * SCALE) by (nonlinear_arith)
            requires
                0 <= num,
        ;
        lemma_div_is_ordered(0, num * SCALE, den);
    }
}

/// Every rate of a score lies between 0 and `SCALE`.
pub proof fn lemma_rates_in_unit(refs: Seq<SourceModel>, cands: Seq<(Seq<char>, VariantEntry)>)
    ensures
        0 <= rates(refs, cands).name <= SCALE,
        0 <= rates(refs, cands).name_pos <= SCALE,
        0 <= rates(refs, cands).strand <= SCALE,
        0 <= rates(refs, cands).plus <= SCALE,
        0 <= rates(refs, cands).atcg <= SCALE,
{
    let t = tally(refs, cands);
    lemma_tally_bounds(refs, cands);
    lemma_rate_bounds(t.name, refs.len() as int);
    lemma_rate_bounds(t.name_pos, t.name);
    lemma_rate_bounds(t.strand, t.name_pos - t.atcg);
    lemma_rate_bounds(t.plus, t.name_pos - t.atcg);
    lemma_rate_bounds(t.atcg, t.name_pos);
}

/// A candidate with no variants scores 0 on every rate.
pub proof fn lemma_empty_candidate_scores_zero(refs: Seq<SourceModel>)
    ensures
        rates(refs, Seq::<(Seq<char>, VariantEntry)>::empty()) == (Rates {
            name: 0,
            name_pos: 0,
            strand: 0,
            plus: 0,
            atcg: 0,
        }),
{
    let cands = Seq::<(Seq<char>, VariantEntry)>::empty();
    lemma_tally_zero(refs, cands);
}

proof fn lemma_tally_zero(refs: Seq<SourceModel>, cands: Seq<(Seq<char>, VariantEntry)>)
    requires
        cands.len() == 0,
    ensures
        tally(refs, cands) == (Tally { name: 0, name_pos: 0, strand: 0, plus: 0, atcg: 0 }),
    decreases refs.len(),
{
    if refs.len() > 0 {
        lemma_tally_zero(refs.drop_last(), cands);
    }
}

/// `num / den` in fixed point, rounded down; 0 where `den` is 0.
fn ratio(num: usize, den: usize) -> (r: u64)
    requires
        num <= den,
    ensures
        r == rate(num as int, den as int),
{
    proof {
        lemma_rate_bounds(num as int, den as int);
    }
    if den == 0 {
        0
    } else {
        let scaled: u128 = num as u128 * SCALE as u128;
        (scaled / den as u128) as u64
    }
}

/// Scores the reference list `bim` against the variants of the strand file
/// `name`.
pub fn match_bim(bim: &[SourceEntry], name: &str, variants: &CandidateSet) -> (r: MatchResult)
    requires
        variants.wf(),
    ensures
        r.name@ == name@,
        r.rates() == rates(models(bim@), variants@),
{
    let ghost refs = models(bim@);
    let mut name_matches: usize = 0;
    let mut name_pos_matches: usize = 0;
    let mut strand_matches: usize = 0;
    let mut plus_matches: usize = 0;
    let mut atcg_matches: usize = 0;
    let mut i: usize = 0;
    while i < bim.len()
        invariant
            variants.wf(),
            i <= bim.len(),
            refs == models(bim@),
            tally(refs.take(i as int), variants@) == (Tally {
                name: name_matches as int,
                name_pos: name_pos_matches as int,
                strand: strand_matches as int,
                plus: plus_matches as int,
                atcg: atcg_matches as int,
            }),
            name_matches <= i,
        decreases bim.len() - i,
    {
        proof {
            assert(refs.take(i + 1).drop_last() =~= refs.take(i as int));
            lemma_tally_bounds(refs.take(i as int), variants@);
        }
        let entry = &bim[i];
        if let Some(v) = variants.get(&entry.name) {
            name_matches = name_matches + 1;
            if v.position == entry.position && v.chromosome == entry.chromosome {
                name_pos_matches = name_pos_matches + 1;
                match match_alleles(entry.alleles, v.alleles, v.strand) {
                    AlleleMatch::ATCG => atcg_matches = atcg_matches + 1,
                    AlleleMatch::Original => strand_matches = strand_matches + 1,
                    AlleleMatch::Plus => plus_matches = plus_matches + 1,
                    AlleleMatch::Mismatch => {},
                }
            }
        }
        i = i + 1;
    }
    proof {
        assert(refs.take(bim.len() as int) =~= refs);
        lemma_tally_bounds(refs, variants@);
    }
    MatchResult {
        name: name.to_owned(),
        name_match_rate: ratio(name_matches, bim.len()),
        name_pos_match_rate: ratio(name_pos_matches, name_matches),
        strand_match_rate: ratio(strand_matches, name_pos_matches - atcg_matches),
        plus_match_rate: ratio(plus_matches, name_pos_matches - atcg_matches),
        atcg_match_rate: ratio(atcg_matches, name_pos_matches),
    }
}

/// The variants that the lines of a strand file hold, in order.
pub open spec fn strand_entries(lines: Seq<String>) -> Seq<(Seq<char>, VariantEntry)> {
    Seq::new(lines.len(), |i: int| strand_line(lines[i]@)->Ok_0)
}

/// Reads the body of the strand file `name` and scores the reference list
/// `bim` against it; the first line of the body that cannot be read fails the
/// whole file. An empty body scores 0 on every rate.
pub fn score_strand_file(bim: &[SourceEntry], name: &str, lines: &Vec<String>) -> (r: Result<
    MatchResult,
    ParseError,
>)
    ensures
        match r {
            Ok(m) => (forall|i: int| 0 <= i < lines.len() ==> strand_line(#[trigger] lines@[i]@) is Ok)
                && m.name@ == name@ && m.rates() == rates(models(bim@), strand_entries(lines@)),
            Err(e) => e.line < lines.len() && strand_line(lines@[e.line as int]@) == Err::<
                (Seq<char>, VariantEntry),
                LineError,
            >(e.kind) && forall|i: int|
                0 <= i < e.line ==> strand_line(#[trigger] lines@[i]@) is Ok,
        },
{
    match parse_strand(lines) {
        Ok(variants) => {
            assert(variants@ =~= strand_entries(lines@));
            Ok(match_bim(bim, name, &variants))
        },
        Err(e) => Err(e),
    }
}

} // verus!
