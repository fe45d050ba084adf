//! Variant records of the reference list and of candidate strand files, and
//! the parsers that read them line by line.
use vstd::prelude::*;
use crate::chromosome::{chromosome_code, chromosome_of};
use crate::text::{chars_of, decimal_u64, fields, lemma_fields_not_empty, parse_u64, split_fields, views};

verus! {

/// Why one line could not be read.
#[derive(Clone, Copy, Debug, PartialEq, Eq, Structural)]
pub enum LineError {
    /// The line has fewer fields than its layout requires.
    MissingField,
    /// The position field of a reference line is not an unsigned integer.
    BadPosition,
}

/// A line that could not be read: its index (from 0) and the cause.
#[derive(Clone, Copy, Debug, PartialEq, Eq, Structural)]
pub struct ParseError {
    pub line: usize,
    pub kind: LineError,
}

/// One variant of the reference list.
#[derive(Debug)]
pub struct SourceEntry {
    pub name: Vec<char>,
    pub chromosome: u64,
    pub position: u64,
    pub alleles: (char, char),
}

/// What a `SourceEntry` holds.
pub ghost struct SourceModel {
    pub name: Seq<char>,
    pub chromosome: u64,
    pub position: u64,
    pub alleles: (char, char),
}

impl View for SourceEntry {
    type V = SourceModel;

    open spec fn view(&self) -> SourceModel {
        SourceModel {
            name: self.name@,
            chromosome: self.chromosome,
            position: self.position,
            alleles: self.alleles,
        }
    }
}

/// One variant of a candidate strand file; its identifier is its key.
#[derive(Clone, Copy, Debug, PartialEq, Eq)]
pub struct VariantEntry {
    pub chromosome: u64,
    pub position: u64,
    pub alleles: (char, char),
    pub strand: char,
}

/// A reference line: chromosome, identifier, an unused field, position, and
/// the two alleles (the first character of each of their fields).
pub open spec fn bim_line(line: Seq<char>) -> Result<SourceModel, LineError> {
    let f = fields(line);
    if f.len() < 6 {
        Err(LineError::MissingField)
    } else {
        match decimal_u64(f[3]) {
            None => Err(LineError::BadPosition),
            Some(p) => Ok(
                SourceModel {
                    name: f[1],
                    chromosome: chromosome_code(f[0]),
                    position: p,
                    alleles: (f[4][0], f[5][0]),
                },
            ),
        }
    }
}

/// A strand line: identifier, chromosome, position (0 where it is no unsigned
/// integer), an unused field, strand marker (the first character of its
/// field), and optionally two allele fields, each giving its first character
/// (`X`, `X` where the two are not both present).
pub open spec fn strand_line(line: Seq<char>) -> Result<(Seq<char>, VariantEntry), LineError> {
    let f = fields(line);
    if f.len() < 5 {
        Err(LineError::MissingField)
    } else {
        Ok(
            (
                f[0],
                VariantEntry {
                    chromosome: chromosome_code(f[1]),
                    position: match decimal_u64(f[2]) {
                        Some(p) => p,
                        None => 0,
                    },
                    alleles: if f.len() >= 7 {
                        (f[5][0], f[6][0])
                    } else {
                        ('X', 'X')
                    },
                    strand: f[4][0],
                },
            ),
        )
    }
}

/// Reads one line of the reference list.
pub fn parse_bim_line(line: &str) -> (r: Result<SourceEntry, LineError>)
    ensures
        match r {
            Ok(e) => bim_line(line@) == Ok::<SourceModel, LineError>(e@),
            Err(k) => bim_line(line@) == Err::<SourceModel, LineError>(k),
        },
{
    let chars = chars_of(line);
    let mut toks = split_fields(&chars);
    proof {
        lemma_fields_not_empty(chars@);
    }
    assert(views(toks@).len() == toks@.len());
    if toks.len() < 6 {
        return Err(LineError::MissingField);
    }
    let ghost f = fields(line@);
    assert(forall|i: int| 0 <= i < toks.len() ==> toks@[i]@ == #[trigger] f[i]);
    let position = match parse_u64(&toks[3]) {
        Some(p) => p,
        None => {
            return Err(LineError::BadPosition);
        },
    };
    assert(f[4].len() > 0 && f[5].len() > 0);
    let chromosome = chromosome_of(&toks[0]);
    let alleles = (toks[4][0], toks[5][0]);
    let name = toks.remove(1);
    Ok(SourceEntry { name, chromosome, position, alleles })
}

/// Reads one line of a strand file into its identifier and its variant.
pub fn parse_strand_line(line: &str) -> (r: Result<(Vec<char>, VariantEntry), LineError>)
    ensures
        match r {
            Ok((n, v)) => strand_line(line@) == Ok::<(Seq<char>, VariantEntry), LineError>(
                (n@, v),
            ),
            Err(k) => strand_line(line@) == Err::<(Seq<char>, VariantEntry), LineError>(k),
        },
{
    let chars = chars_of(line);
    let mut toks = split_fields(&chars);
    proof {
        lemma_fields_not_empty(chars@);
    }
    assert(views(toks@).len() == toks@.len());
    if toks.len() < 5 {
        return Err(LineError::MissingField);
    }
    let ghost f = fields(line@);
    assert(forall|i: int| 0 <= i < toks.len() ==> toks@[i]@ == #[trigger] f[i]);
    let chromosome = chromosome_of(&toks[1]);
    let position = match parse_u64(&toks[2]) {
        Some(p) => p,
        None => 0,
    };
    assert(f[4].len() > 0);
    let strand = toks[4][0];
    let alleles = if toks.len() >= 7 {
        assert(f[5].len() > 0 && f[6].len() > 0);
        (toks[5][0], toks[6][0])
    } else {
        ('X', 'X')
    };
    let name = toks.remove(0);
    Ok((name, VariantEntry { chromosome, position, alleles, strand }))
}

/// Reads the reference list, one line per variant, in order; the first line
/// that cannot be read fails the whole list.
pub fn parse_bim(lines: &Vec<String>) -> (r: Result<Vec<SourceEntry>, ParseError>)
    ensures
        match r {
            Ok(v) => v.len() == lines.len() && forall|i: int|
                0 <= i < lines.len() ==> bim_line(#[trigger] lines@[i]@) == Ok::<
                    SourceModel,
                    LineError,
                >(v@[i]@),
            Err(e) => e.line < lines.len() && bim_line(lines@[e.line as int]@) == Err::<
                SourceModel,
                LineError,
            >(e.kind) && forall|i: int| 0 <= i < e.line ==> bim_line(#[trigger] lines@[i]@) is Ok,
        },
{
    let mut out: Vec<SourceEntry> = Vec::new();
    let mut i: usize = 0;
    while i < lines.len()
        invariant
            i <= lines.len(),
            out.len() == i,
            forall|k: int|
                0 <= k < i ==> bim_line(#[trigger] lines@[k]@) == Ok::<SourceModel, LineError>(
                    out@[k]@,
                ),
        decreases lines.len() - i,
    {
        match parse_bim_line(lines[i].as_str()) {
            Ok(e) => out.push(e),
            Err(kind) => {
                return Err(ParseError { line: i, kind });
            },
        }
        i = i + 1;
    }
    Ok(out)
}

} // verus!
