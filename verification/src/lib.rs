//! Reorganizes files from a messy source directory into a structured
//! destination: it formats file names into embedding-friendly fingerprints,
//! assembles and deterministically sorts match results against a destination
//! index, and drives a logged, partially-recoverable migration.

pub mod fingerprint;
pub mod matching;
pub mod migration;
