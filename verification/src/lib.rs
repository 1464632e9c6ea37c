//! Verified core of a Soroban contract that hosts an idea board with
//! reputation-weighted votes and a prediction verifier that resolves
//! predictions against prices reported by whitelisted oracles.
//!
//! The contract's storage is modelled by two state types, `IdeaContract`
//! and `PredictionVerifier`; each contract call is a method that checks the
//! caller's request against the state and updates it. What the host
//! provides (authorization, the ledger time, the score that the reputation
//! contract reports) is handed to these methods as plain values.

pub mod board;
pub mod ideas;
pub mod oracle;
pub mod tally;
pub mod laws;
pub mod types;

pub use board::Ballot;
pub use ideas::IdeaContract;
pub use oracle::{resolution_result, PredictionVerifier};
pub use tally::{apply_vote_delta, delta_fits, reputation_weight};
pub use types::{
    IdeaData, IdeaError, Resolution, ResolutionResult, VerifierError, VoteCount, VoteDirection,
    VoteRecord,
};
