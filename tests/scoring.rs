use chipmatch::alleles::{flip_alleles, match_alleles, match_set, AlleleMatch};
use chipmatch::candidates::{parse_strand, CandidateSet};
use chipmatch::rank::{rank_order, ranked};
use chipmatch::records::{parse_bim, LineError, ParseError};
use chipmatch::score::{match_bim, score_strand_file, MatchResult, SCALE};

fn lines(v: &[&str]) -> Vec<String> {
    v.iter().map(|s| s.to_string()).collect()
}

fn result(name: &str, n: u64, p: u64, s: u64, plus: u64) -> MatchResult {
    MatchResult {
        name: name.to_string(),
        name_match_rate: n,
        name_pos_match_rate: p,
        strand_match_rate: s,
        plus_match_rate: plus,
        atcg_match_rate: 0,
    }
}

#[test]
fn ambiguous_pairs_win_over_original() {
    assert_eq!(match_alleles(('A', 'T'), ('A', 'T'), '+'), AlleleMatch::ATCG);
    assert_eq!(match_alleles(('C', 'G'), ('G', 'C'), '-'), AlleleMatch::ATCG);
}

#[test]
fn same_alleles_are_original() {
    assert_eq!(match_alleles(('A', 'G'), ('A', 'G'), '+'), AlleleMatch::Original);
    assert_eq!(match_alleles(('A', 'G'), ('G', 'A'), '-'), AlleleMatch::Original);
}

#[test]
fn flipped_minus_strand_is_plus() {
    assert_eq!(match_alleles(('A', 'G'), ('T', 'C'), '-'), AlleleMatch::Plus);
}

#[test]
fn flipped_plus_strand_is_mismatch() {
    assert_eq!(match_alleles(('A', 'G'), ('T', 'C'), '+'), AlleleMatch::Mismatch);
    assert_eq!(match_alleles(('A', 'G'), ('C', 'T'), '*'), AlleleMatch::Mismatch);
}

#[test]
fn flip_and_containment() {
    assert_eq!(flip_alleles(('A', 'C')), ('T', 'G'));
    assert_eq!(flip_alleles(('G', 'N')), ('C', 'X'));
    assert!(match_set(('A', 'A'), ('A', 'G')));
    assert!(!match_set(('A', 'G'), ('A', 'A')));
}

#[test]
fn scores_count_each_kind_of_match() {
    let bim = parse_bim(&lines(&[
        "1 rs1 0 100 A G",
        "1 rs2 0 200 A T",
        "2 rs3 0 300 A G",
        "2 rs4 0 400 C T",
        "3 rs5 0 500 A C",
        "3 rs6 0 600 A G",
    ]))
    .unwrap();
    let cands = parse_strand(&lines(&[
        "rs1 1 100 x + G A",
        "rs2 1 200 x + T A",
        "rs3 2 300 x - T C",
        "rs4 2 400 x + G A",
        "rs5 3 999 x + A C",
    ]))
    .unwrap();
    let r = match_bim(&bim, "chip.strand", &cands);
    assert_eq!(r.name, "chip.strand");
    // 5 of 6 found by name; 4 of those at the same place; 1 ambiguous;
    // of the other 3: 1 original, 1 plus, 1 mismatch.
    assert_eq!(r.name_match_rate, 833_333);
    assert_eq!(r.name_pos_match_rate, 800_000);
    assert_eq!(r.strand_match_rate, 333_333);
    assert_eq!(r.plus_match_rate, 333_333);
    assert_eq!(r.atcg_match_rate, 250_000);
    for x in [
        r.name_match_rate,
        r.name_pos_match_rate,
        r.strand_match_rate,
        r.plus_match_rate,
        r.atcg_match_rate,
    ] {
        assert!(x <= SCALE);
    }
}

#[test]
fn full_match_scores_one() {
    let bim = parse_bim(&lines(&["1 rs1 0 100 A G"])).unwrap();
    let cands = parse_strand(&lines(&["rs1 1 100 x + A G"])).unwrap();
    let r = match_bim(&bim, "a", &cands);
    assert_eq!(r.name_match_rate, SCALE);
    assert_eq!(r.name_pos_match_rate, SCALE);
    assert_eq!(r.strand_match_rate, SCALE);
    assert_eq!(r.plus_match_rate, 0);
    assert_eq!(r.atcg_match_rate, 0);
}

#[test]
fn empty_candidate_scores_zero() {
    let bim = parse_bim(&lines(&["1 rs1 0 100 A G", "2 rs2 0 5 C T"])).unwrap();
    let r = match_bim(&bim, "", &CandidateSet::new());
    assert_eq!(r.name, "");
    assert_eq!(
        (
            r.name_match_rate,
            r.name_pos_match_rate,
            r.strand_match_rate,
            r.plus_match_rate,
            r.atcg_match_rate
        ),
        (0, 0, 0, 0, 0)
    );
}

#[test]
fn empty_reference_scores_zero() {
    let cands = parse_strand(&lines(&["rs1 1 100 x + A G"])).unwrap();
    let r = match_bim(&[], "a", &cands);
    assert_eq!(r.name_match_rate, 0);
    assert_eq!(r.name_pos_match_rate, 0);
}

#[test]
fn all_ambiguous_sites_leave_orientation_rates_zero() {
    let bim = parse_bim(&lines(&["1 rs1 0 100 A T"])).unwrap();
    let cands = parse_strand(&lines(&["rs1 1 100 x - T A"])).unwrap();
    let r = match_bim(&bim, "a", &cands);
    assert_eq!(r.atcg_match_rate, SCALE);
    assert_eq!(r.strand_match_rate, 0);
    assert_eq!(r.plus_match_rate, 0);
}

#[test]
fn ranking_by_name_then_position_rate() {
    let rs = vec![
        result("low", 500_000, 300_000, 0, 0),
        result("best", 900_000, 900_000, 0, 0),
        result("mid", 500_000, 800_000, 0, 0),
    ];
    let out = ranked(&rs);
    let names: Vec<&str> = out.iter().map(|r| r.name.as_str()).collect();
    assert_eq!(names, vec!["best", "mid", "low"]);
    assert_eq!(rank_order(&rs), vec![1, 2, 0]);
}

#[test]
fn ties_keep_their_order() {
    let rs = vec![
        result("a", 100, 0, 0, 0),
        result("b", 200, 0, 0, 0),
        result("c", 100, 0, 0, 0),
        result("d", 0, 0, 0, 4000),
    ];
    assert_eq!(rank_order(&rs), vec![1, 0, 2, 3]);
    assert!(ranked(&Vec::new()).is_empty());
}

#[test]
fn priority_weights() {
    let r = result("x", 1, 2, 3, 4);
    assert_eq!(r.priority(), 4000 + 6000 + 6000 + 4);
    let top = result("y", u64::MAX, u64::MAX, u64::MAX, u64::MAX);
    assert_eq!(top.priority(), 9001 * (u64::MAX as u128));
}

#[test]
fn strand_file_body_is_parsed_and_scored() {
    let bim = parse_bim(&lines(&["1 rs1 0 100 A G", "1 rs2 0 200 C T"])).unwrap();
    let r = score_strand_file(&bim, "c.strand", &lines(&["rs1 1 100 x + A G"])).unwrap();
    assert_eq!(r.name, "c.strand");
    assert_eq!(r.name_match_rate, 500_000);
    assert_eq!(r.strand_match_rate, SCALE);
    let empty = score_strand_file(&bim, "", &Vec::new()).unwrap();
    assert_eq!(empty.name_match_rate, 0);
    let err = score_strand_file(&bim, "c", &lines(&["rs1 1 100 x + A G", "rs2 1"])).err().unwrap();
    assert_eq!(err, ParseError { line: 1, kind: LineError::MissingField });
}

#[test]
fn large_candidate_set_finds_last_records() {
    let mut set = CandidateSet::new();
    let n = 20_000u64;
    for i in 0..n {
        let v = chipmatch::records::VariantEntry {
            chromosome: 1,
            position: i,
            alleles: ('A', 'G'),
            strand: '+',
        };
        set.insert(format!("rs{}", i % 15_000).chars().collect(), v);
    }
    for i in 0..15_000u64 {
        let key: Vec<char> = format!("rs{}", i).chars().collect();
        let expect = if i < 5_000 { i + 15_000 } else { i };
        assert_eq!(set.get(&key).unwrap().position, expect);
    }
    assert_eq!(set.get(&"rs15000".chars().collect()), None);
}
