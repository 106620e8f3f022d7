//! An election ledger: the phases of an election, the registry of candidates
//! and voters, the counting of ballots (one for each voter), and the choice of
//! the winner.

pub mod intake;
pub mod laws;
pub mod model;
pub mod parse;
pub mod phase;
pub mod registry;
pub mod text;
pub mod types;
