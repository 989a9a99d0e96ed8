//! The records that the ledger stores, their views, and the error kinds.

use crate::address::Key;
use vstd::prelude::*;

verus! {

/// Longest poll description, in bytes.
pub const MAX_DESCRIPTION_LEN: usize = 200;

/// Longest candidate name, in bytes.
pub const MAX_NAME_LEN: usize = 32;

/// Most voters that one poll record has room for.
pub const MAX_VOTERS: usize = 1000;

/// A poll's end must lie above this timestamp to be plausible.
pub const POLL_END_FLOOR: u64 = 0;

/// One ballot.
pub struct Poll {
    pub poll_id: u64,
    pub description: String,
    pub poll_start: u64,
    pub poll_end: u64,
    pub candidate_amount: u64,
    pub total_votes: u64,
    pub voters: Vec<Key>,
}

/// One option within a poll.
pub struct Candidate {
    pub candidate_name: String,
    pub candidate_votes: u64,
}

/// What a poll holds, as mathematical values.
pub struct PollView {
    pub poll_id: u64,
    pub description: Seq<char>,
    pub poll_start: u64,
    pub poll_end: u64,
    pub candidate_amount: u64,
    pub total_votes: u64,
    pub voters: Seq<Key>,
}

/// What a candidate holds, as mathematical values.
pub struct CandidateView {
    pub candidate_name: Seq<char>,
    pub candidate_votes: u64,
}

impl View for Poll {
    type V = PollView;

    open spec fn view(&self) -> PollView {
        PollView {
            poll_id: self.poll_id,
            description: self.description@,
            poll_start: self.poll_start,
            poll_end: self.poll_end,
            candidate_amount: self.candidate_amount,
            total_votes: self.total_votes,
            voters: self.voters@,
        }
    }
}

impl View for Candidate {
    type V = CandidateView;

    open spec fn view(&self) -> CandidateView {
        CandidateView { candidate_name: self.candidate_name@, candidate_votes: self.candidate_votes }
    }
}

/// Inputs that a poll or a candidate is refused for, whatever the ledger holds.
#[derive(Clone, Copy, Debug, PartialEq, Eq, Structural)]
pub enum PollError {
    PollEndInThePast,
    InvalidPollEndTimestamp,
    DescriptionTooLong,
    NameTooLong,
}

/// Why an operation on the ledger was refused.
#[derive(Clone, Copy, Debug, PartialEq, Eq, Structural)]
pub enum ErrorCode {
    AlreadyVoted,
    InvalidVoteTime,
    PollNotFound,
    CandidateNotFound,
    AddressOccupied,
    NoViableAddress,
    VoterLimitReached,
    CounterOverflow,
    Invalid(PollError),
}

} // verus!
