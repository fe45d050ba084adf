//! Guessing which genotyping chip produced a variant list, by scoring the
//! list against the strand files of candidate chips.
pub mod alleles;
pub mod candidates;
pub mod chromosome;
pub mod rank;
pub mod records;
pub mod score;
pub mod text;
