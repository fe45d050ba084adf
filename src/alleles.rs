//! How the allele pair of a candidate variant relates to that of a reference
//! variant.
use vstd::prelude::*;

verus! {

/// The relation between a reference allele pair and a candidate allele pair.
#[derive(Clone, Copy, Debug, PartialEq, Eq, Structural)]
pub enum AlleleMatch {
    /// The pairs match as they stand.
    Original,
    /// The pairs match once the minus-strand candidate is complemented.
    Plus,
    /// Both pairs are their own complement, so orientation cannot be told.
    ATCG,
    /// None of the above.
    Mismatch,
}

/// The base-pair complement of an allele: `A`-`T`, `C`-`G`; `X` for any other
/// character.
pub open spec fn complement(c: char) -> char {
    if c == 'A' {
        'T'
    } else if c == 'C' {
        'G'
    } else if c == 'G' {
        'C'
    } else if c == 'T' {
        'A'
    } else {
        'X'
    }
}

/// The pair of complements of a pair.
pub open spec fn flipped(p: (char, char)) -> (char, char) {
    (complement(p.0), complement(p.1))
}

/// Each allele of `left` occurs in `right`.
pub open spec fn contained(left: (char, char), right: (char, char)) -> bool {
    (left.0 == right.0 || left.0 == right.1) && (left.1 == right.0 || left.1 == right.1)
}

/// A pair that is contained in its own complement.
pub open spec fn self_complementary(p: (char, char)) -> bool {
    contained(p, flipped(p))
}

/// The relation of `left` (reference) to `right` (candidate, read on `strand`).
pub open spec fn classify(left: (char, char), right: (char, char), strand: char) -> AlleleMatch {
    if self_complementary(left) && self_complementary(right) {
        AlleleMatch::ATCG
    } else if contained(left, right) {
        AlleleMatch::Original
    } else if contained(left, flipped(right)) && strand == '-' {
        AlleleMatch::Plus
    } else {
        AlleleMatch::Mismatch
    }
}

/// Whether each allele of `left` occurs in `right`.
pub fn match_set(left: (char, char), right: (char, char)) -> (r: bool)
    ensures
        r == contained(left, right),
{
    (left.0 == right.0 || left.0 == right.1) && (left.1 == right.0 || left.1 == right.1)
}

fn complement_of(c: char) -> (r: char)
    ensures
        r == complement(c),
{
    match c {
        'A' => 'T',
        'C' => 'G',
        'G' => 'C',
        'T' => 'A',
        _ => 'X',
    }
}

/// The pair of complements of `i`.
pub fn flip_alleles(i: (char, char)) -> (r: (char, char))
    ensures
        r == flipped(i),
{
    (complement_of(i.0), complement_of(i.1))
}

/// Classifies the candidate pair `right`, read on `strand`, against the
/// reference pair `left`.
pub fn match_alleles(left: (char, char), right: (char, char), strand: char) -> (r: AlleleMatch)
    ensures
        r == classify(left, right, strand),
{
    if match_set(left, flip_alleles(left)) && match_set(right, flip_alleles(right)) {
        AlleleMatch::ATCG
    } else if match_set(left, right) {
        AlleleMatch::Original
    } else if match_set(left, flip_alleles(right)) && strand == '-' {
        AlleleMatch::Plus
    } else {
        AlleleMatch::Mismatch
    }
}

/// Two self-complementary pairs are ambiguous whatever the strand marker, even
/// where they would also match as they stand.
pub proof fn lemma_self_complementary_is_ambiguous(
    left: (char, char),
    right: (char, char),
    strand: char,
)
    requires
        self_complementary(left),
        self_complementary(right),
    ensures
        classify(left, right, strand) == AlleleMatch::ATCG,
{
}

} // verus!
