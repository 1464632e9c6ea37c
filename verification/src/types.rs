//! Plain data carried by the idea board and the prediction verifier.

use vstd::prelude::*;

verus! {

/// Direction of a vote on an idea.
#[derive(Clone, Copy, Debug, PartialEq, Eq, Structural)]
pub enum VoteDirection {
    Up,
    Down,
}

/// A voter's recorded vote: its direction and the weight it was cast with.
#[derive(Clone, Copy, Debug, PartialEq, Eq, Structural)]
pub struct VoteRecord {
    pub direction: VoteDirection,
    pub weight: i32,
}

/// Weighted tally of the votes on one idea.
#[derive(Clone, Copy, Debug, PartialEq, Eq, Structural)]
pub struct VoteCount {
    pub upvotes: i32,
    pub downvotes: i32,
    pub net_score: i32,
}

impl VoteCount {
    /// The tally of an idea nobody has voted on.
    pub fn zero() -> (r: VoteCount)
        ensures
            r == zero_count(),
    {
        VoteCount { upvotes: 0, downvotes: 0, net_score: 0 }
    }
}

/// The tally of an idea nobody has voted on.
pub open spec fn zero_count() -> VoteCount {
    VoteCount { upvotes: 0, downvotes: 0, net_score: 0 }
}

/// Errors of the idea board.
#[derive(Clone, Copy, Debug, PartialEq, Eq, PartialOrd, Ord, Structural)]
pub enum IdeaError {
    NotFound,
    Unauthorized,
    Deleted,
    VoteAlreadyExists,
    VoteNotFound,
    ReputationContractNotConfigured,
    InvalidVoteWeight,
}

impl IdeaError {
    /// The numeric code under which the contract reports this error.
    pub fn code(&self) -> (r: u32)
        ensures
            r == idea_error_code(*self),
    {
        match self {
            IdeaError::NotFound => 1,
            IdeaError::Unauthorized => 2,
            IdeaError::Deleted => 3,
            IdeaError::VoteAlreadyExists => 4,
            IdeaError::VoteNotFound => 5,
            IdeaError::ReputationContractNotConfigured => 6,
            IdeaError::InvalidVoteWeight => 7,
        }
    }
}

/// Numeric codes of the idea board's errors, one to seven in declaration order.
pub open spec fn idea_error_code(e: IdeaError) -> u32 {
    match e {
        IdeaError::NotFound => 1,
        IdeaError::Unauthorized => 2,
        IdeaError::Deleted => 3,
        IdeaError::VoteAlreadyExists => 4,
        IdeaError::VoteNotFound => 5,
        IdeaError::ReputationContractNotConfigured => 6,
        IdeaError::InvalidVoteWeight => 7,
    }
}

/// An idea as stored on the board. The author is held by its address
/// text; title, body and category are held as the bytes they were given.
#[derive(Clone, Debug, PartialEq, Eq)]
pub struct IdeaData {
    pub id: i128,
    pub author: String,
    pub title: Vec<u8>,
    pub body: Vec<u8>,
    pub category: Vec<u8>,
    pub created_at: u64,
    pub updated_at: u64,
    pub deleted: bool,
}

/// Outcome of a resolved prediction.
#[derive(Clone, Copy, Debug, PartialEq, Eq, Structural)]
pub enum ResolutionResult {
    Correct,
    Incorrect,
}

/// What an oracle reported for a prediction, as stored by the verifier.
#[derive(Clone, Debug, PartialEq, Eq)]
pub struct Resolution {
    pub prediction_id: i128,
    pub actual_price: u128,
    pub oracle: String,
    pub resolution_timestamp: u64,
    pub result: ResolutionResult,
}

impl Resolution {
    /// A copy of this resolution, field for field.
    pub fn copied(&self) -> (r: Resolution)
        ensures
            r == *self,
    {
        Resolution {
            prediction_id: self.prediction_id,
            actual_price: self.actual_price,
            oracle: self.oracle.clone(),
            resolution_timestamp: self.resolution_timestamp,
            result: self.result,
        }
    }
}

/// Errors of the prediction verifier.
#[derive(Clone, Copy, Debug, PartialEq, Eq, PartialOrd, Ord, Structural)]
pub enum VerifierError {
    NotInitialised,
    AlreadyInitialised,
    Unauthorized,
    OracleNotAuthorized,
    DeadlineNotReached,
    AlreadyResolved,
}

impl VerifierError {
    /// The numeric code under which the contract reports this error.
    pub fn code(&self) -> (r: u32)
        ensures
            r == verifier_error_code(*self),
    {
        match self {
            VerifierError::NotInitialised => 1,
            VerifierError::AlreadyInitialised => 2,
            VerifierError::Unauthorized => 3,
            VerifierError::OracleNotAuthorized => 4,
            VerifierError::DeadlineNotReached => 5,
            VerifierError::AlreadyResolved => 6,
        }
    }
}

/// Numeric codes of the verifier's errors, one to six in declaration order.
pub open spec fn verifier_error_code(e: VerifierError) -> u32 {
    match e {
        VerifierError::NotInitialised => 1,
        VerifierError::AlreadyInitialised => 2,
        VerifierError::Unauthorized => 3,
        VerifierError::OracleNotAuthorized => 4,
        VerifierError::DeadlineNotReached => 5,
        VerifierError::AlreadyResolved => 6,
    }
}

} // verus!
