//! Energy measurement engine: counter domains, wraparound-safe deltas,
//! per-source phase accumulation, and the merge of several sources' results.

pub mod command;
pub mod config;
pub mod error;
pub mod measurement;
pub mod source;
pub mod text;
pub mod util;
