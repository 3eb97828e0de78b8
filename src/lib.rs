//! A membership-governance engine: rosters admit members by time-boxed vote
//! and expel them through a propose, second, vote and decide process, with
//! deposits held in named reservations.
pub mod expulsions;
pub mod hooks;
pub mod identity;
pub mod laws;
pub mod ledger;
pub mod nominations;
pub mod pallet;
pub mod quorum;
pub mod rosters;
pub mod seqs;
pub mod types;
