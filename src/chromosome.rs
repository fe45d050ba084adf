//! Canonical numeric codes of chromosome names.
use vstd::prelude::*;
use crate::text::{chars_of, decimal_u64, parse_u64};

verus! {

/// The code of a chromosome name: the number itself where the name is an
/// unsigned base-10 integer; else 23 for `X`, 24 for `Y`, 25 for `XY`, 26 for
/// `M` and `MT`, and 0 for any other name.
pub open spec fn chromosome_code(s: Seq<char>) -> u64 {
    match decimal_u64(s) {
        Some(n) => n,
        None => if s == seq!['X'] {
            23
        } else if s == seq!['Y'] {
            24
        } else if s == seq!['X', 'Y'] {
            25
        } else if s == seq!['M'] || s == seq!['M', 'T'] {
            26
        } else {
            0
        },
    }
}

/// The code of the chromosome name held in `tok`.
pub fn chromosome_of(tok: &Vec<char>) -> (r: u64)
    ensures
        r == chromosome_code(tok@),
{
    match parse_u64(tok) {
        Some(n) => n,
        None => {
            let n = tok.len();
            if n == 1 && tok[0] == 'X' {
                assert(tok@ =~= seq!['X']);
                23
            } else if n == 1 && tok[0] == 'Y' {
                assert(tok@ =~= seq!['Y']);
                24
            } else if n == 2 && tok[0] == 'X' && tok[1] == 'Y' {
                assert(tok@ =~= seq!['X', 'Y']);
                25
            } else if n == 1 && tok[0] == 'M' {
                assert(tok@ =~= seq!['M']);
                26
            } else if n == 2 && tok[0] == 'M' && tok[1] == 'T' {
                assert(tok@ =~= seq!['M', 'T']);
                26
            } else {
                assert(tok@ != seq!['X'] && tok@ != seq!['Y'] && tok@ != seq!['M']) by {
                    if n == 1 {
                        assert(seq!['X'][0] == 'X' && seq!['Y'][0] == 'Y' && seq!['M'][0] == 'M');
                    }
                }
                assert(tok@ != seq!['X', 'Y'] && tok@ != seq!['M', 'T']) by {
                    if n == 2 {
                        assert(seq!['X', 'Y'][0] == 'X' && seq!['X', 'Y'][1] == 'Y');
                        assert(seq!['M', 'T'][0] == 'M' && seq!['M', 'T'][1] == 'T');
                    }
                }
                0
            }
        },
    }
}

/// The code of the chromosome name `s` (see `chromosome_code`).
pub fn chromosome_to_number(s: &str) -> (r: u64)
    ensures
        r == chromosome_code(s@),
{
    chromosome_of(&chars_of(s))
}

} // verus!
