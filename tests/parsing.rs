use chipmatch::candidates::{find_strand_entry, parse_strand, CandidateSet};
use chipmatch::chromosome::chromosome_to_number;
use chipmatch::records::{
    parse_bim, parse_bim_line, parse_strand_line, LineError, ParseError, VariantEntry,
};
use chipmatch::text::{parse_u64, split_fields};

fn chars(s: &str) -> Vec<char> {
    s.chars().collect()
}

fn lines(v: &[&str]) -> Vec<String> {
    v.iter().map(|s| s.to_string()).collect()
}

#[test]
fn chromosome_numbers_map_to_themselves() {
    for n in 1..=22u64 {
        assert_eq!(chromosome_to_number(&n.to_string()), n);
    }
}

#[test]
fn chromosome_symbols_map_to_codes() {
    assert_eq!(chromosome_to_number("X"), 23);
    assert_eq!(chromosome_to_number("Y"), 24);
    assert_eq!(chromosome_to_number("XY"), 25);
    assert_eq!(chromosome_to_number("M"), 26);
    assert_eq!(chromosome_to_number("MT"), 26);
    assert_eq!(chromosome_to_number("bogus"), 0);
    assert_eq!(chromosome_to_number(""), 0);
    assert_eq!(chromosome_to_number("x"), 0);
}

#[test]
fn chromosome_number_limits() {
    assert_eq!(chromosome_to_number("0"), 0);
    assert_eq!(chromosome_to_number("+7"), 7);
    assert_eq!(chromosome_to_number("-7"), 0);
    assert_eq!(chromosome_to_number("18446744073709551615"), u64::MAX);
    assert_eq!(chromosome_to_number("18446744073709551616"), 0);
}

#[test]
fn decimal_parsing() {
    assert_eq!(parse_u64(&chars("12345")), Some(12345));
    assert_eq!(parse_u64(&chars("+")), None);
    assert_eq!(parse_u64(&chars("")), None);
    assert_eq!(parse_u64(&chars("12a")), None);
    assert_eq!(parse_u64(&chars("99999999999999999999")), None);
}

#[test]
fn fields_split_at_any_whitespace() {
    let f = split_fields(&chars("  a\tbc \u{3000}d  "));
    assert_eq!(f, vec![chars("a"), chars("bc"), chars("d")]);
    assert!(split_fields(&chars(" \t ")).is_empty());
}

#[test]
fn bim_line_is_read_by_position() {
    let e = parse_bim_line("X rs123 0 4567 A G").unwrap();
    assert_eq!(e.name, chars("rs123"));
    assert_eq!(e.chromosome, 23);
    assert_eq!(e.position, 4567);
    assert_eq!(e.alleles, ('A', 'G'));
    let e = parse_bim_line("1\trs9\t0.5\t10\tTT\tCx extra").unwrap();
    assert_eq!(e.alleles, ('T', 'C'));
}

#[test]
fn bim_line_errors() {
    assert_eq!(parse_bim_line("1 rs1 0 100 A").unwrap_err(), LineError::MissingField);
    assert_eq!(parse_bim_line("").unwrap_err(), LineError::MissingField);
    assert_eq!(parse_bim_line("1 rs1 0 1e5 A G").unwrap_err(), LineError::BadPosition);
}

#[test]
fn bim_list_fails_on_first_bad_line() {
    let ok = parse_bim(&lines(&["1 rs1 0 100 A G", "2 rs2 0 200 C T"])).unwrap();
    assert_eq!(ok.len(), 2);
    assert_eq!(ok[1].name, chars("rs2"));
    let err = parse_bim(&lines(&["1 rs1 0 100 A G", "2 rs2 0 x C T", "3"])).unwrap_err();
    assert_eq!(err, ParseError { line: 1, kind: LineError::BadPosition });
    assert!(parse_bim(&Vec::new()).unwrap().is_empty());
}

#[test]
fn strand_line_with_and_without_alleles() {
    let (n, v) = parse_strand_line("rs1 7 1000 99.5 - A G").unwrap();
    assert_eq!(n, chars("rs1"));
    assert_eq!(
        v,
        VariantEntry { chromosome: 7, position: 1000, alleles: ('A', 'G'), strand: '-' }
    );
    let (n, v) = parse_strand_line("rs1 7 1000 99.5 - AC GT extra").unwrap();
    assert_eq!(n, chars("rs1"));
    assert_eq!(
        v,
        VariantEntry { chromosome: 7, position: 1000, alleles: ('A', 'G'), strand: '-' }
    );
    let (_, v) = parse_strand_line("rs2 MT oops 100 +").unwrap();
    assert_eq!(
        v,
        VariantEntry { chromosome: 26, position: 0, alleles: ('X', 'X'), strand: '+' }
    );
}

#[test]
fn strand_line_errors() {
    assert_eq!(parse_strand_line("rs1 7 1000 99").unwrap_err(), LineError::MissingField);
}

#[test]
fn strand_line_with_one_allele_field_has_none() {
    let (_, v) = parse_strand_line("rs1 7 1000 99 + AG").unwrap();
    assert_eq!(v.alleles, ('X', 'X'));
    assert_eq!(v.position, 1000);
}

#[test]
fn strand_line_with_bad_position_still_parses() {
    let (_, v) = parse_strand_line("rs1 7 1e3 99 + A G").unwrap();
    assert_eq!(
        v,
        VariantEntry { chromosome: 7, position: 0, alleles: ('A', 'G'), strand: '+' }
    );
}

#[test]
fn later_strand_record_replaces_earlier() {
    let set = parse_strand(&lines(&["rs1 1 10 x + A G", "rs2 1 20 x + C T", "rs1 2 30 x - T C"]))
        .unwrap();
    let v = set.get(&chars("rs1")).unwrap();
    assert_eq!(v.chromosome, 2);
    assert_eq!(v.position, 30);
    assert_eq!(set.get(&chars("rs2")).unwrap().position, 20);
    assert_eq!(set.get(&chars("rs3")), None);
    assert_eq!(CandidateSet::new().get(&chars("rs1")), None);
}

#[test]
fn strand_file_fails_on_bad_line() {
    let err = parse_strand(&lines(&["rs1 1 10 x + A G", "rs2"])).err().unwrap();
    assert_eq!(err, ParseError { line: 1, kind: LineError::MissingField });
}

#[test]
fn first_strand_entry_is_found() {
    let names = lines(&["readme.txt", "a.strand.bak", "chip-b37.strand", "other.strand"]);
    assert_eq!(find_strand_entry(&names), Some(2));
    assert_eq!(find_strand_entry(&lines(&["strand", "x.miss"])), None);
    assert_eq!(find_strand_entry(&lines(&[".strand"])), Some(0));
}
