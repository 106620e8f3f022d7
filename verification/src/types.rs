//! The records of an election: candidates, voters, ballots, and the failures
//! that the ledger reports.

use vstd::prelude::*;

verus! {

/// A person standing for election, with the tally of ballots received so far.
/// A candidate is identified by `code`.
#[derive(Clone, Debug)]
pub struct Candidate {
    pub name: String,
    pub num_votes: u64,
    pub code: u64,
}

/// What a [`Candidate`] stands for in contracts.
pub struct CandidateView {
    pub name: Seq<char>,
    pub num_votes: u64,
    pub code: u64,
}

impl View for Candidate {
    type V = CandidateView;

    open spec fn view(&self) -> CandidateView {
        CandidateView { name: self.name@, num_votes: self.num_votes, code: self.code }
    }
}

/// A person entitled to vote. `has_voted` flips once, when the ballot is
/// counted; from then on `choice_code` holds the code that was chosen.
#[derive(Clone, Debug)]
pub struct Voter {
    pub identifier: String,
    pub has_voted: bool,
    pub choice_code: Option<u64>,
}

/// What a [`Voter`] stands for in contracts.
pub struct VoterView {
    pub identifier: Seq<char>,
    pub has_voted: bool,
    pub choice_code: Option<u64>,
}

impl View for Voter {
    type V = VoterView;

    open spec fn view(&self) -> VoterView {
        VoterView {
            identifier: self.identifier@,
            has_voted: self.has_voted,
            choice_code: self.choice_code,
        }
    }
}

/// One voter's choice of one candidate. A ballot is handed to the ledger and
/// not kept: its effect shows in the voter's record and the candidate's tally.
#[derive(Clone, Debug)]
pub struct Ballot {
    pub identifier: String,
    pub choice_code: u64,
}

/// What a [`Ballot`] stands for in contracts.
pub struct BallotView {
    pub identifier: Seq<char>,
    pub choice_code: u64,
}

impl View for Ballot {
    type V = BallotView;

    open spec fn view(&self) -> BallotView {
        BallotView { identifier: self.identifier@, choice_code: self.choice_code }
    }
}

/// Why the ledger refused an operation. Every refusal leaves the ledger as it
/// was.
#[derive(Clone, Copy, Debug, PartialEq, Eq, Structural)]
pub enum ElectionError {
    /// A candidate with this code is already registered.
    DuplicateCandidateCode,
    /// A voter with this identifier is already registered.
    DuplicateVoterIdentifier,
    /// A lookup found no record under the given key.
    NotFound,
    /// The event is not the one that leads out of the current phase.
    IllegalTransition,
    /// Candidates and voters are registered only before voting opens.
    RegistrationClosed,
    /// Ballots are counted only while voting is open.
    VotingNotOpen,
    /// The voter's ballot has been counted before.
    AlreadyVoted,
    /// The ballot names a voter who is not registered.
    VoterNotRegistered,
    /// The ballot names a candidate who is not registered.
    CandidateNotFound,
    /// The chosen candidate's tally is at the largest value it can hold.
    TallyOverflow,
}

/// A candidate with the given name, tally and code.
pub fn create_candidate(name: String, num_votes: u64, code: u64) -> (candidate: Candidate)
    ensures
        candidate.name == name,
        candidate@ == (CandidateView { name: name@, num_votes, code }),
{
    Candidate { name, num_votes, code }
}

/// A voter with the given identifier whose ballot has not been counted.
pub fn create_voter(identifier: String) -> (voter: Voter)
    ensures
        voter.identifier == identifier,
        voter@ == (VoterView { identifier: identifier@, has_voted: false, choice_code: None }),
{
    Voter { identifier, has_voted: false, choice_code: None }
}

/// The ballot by which the voter `identifier` chooses the candidate
/// `choice_code`.
pub fn create_ballot(identifier: String, choice_code: u64) -> (ballot: Ballot)
    ensures
        ballot.identifier == identifier,
        ballot@ == (BallotView { identifier: identifier@, choice_code }),
{
    Ballot { identifier, choice_code }
}

/// Whether this record says that the voter's ballot has been counted.
pub fn has_voted(voter: &Voter) -> (voted: bool)
    ensures
        voted == voter@.has_voted,
{
    voter.has_voted
}

impl Candidate {
    /// A copy of this candidate, field for field.
    pub fn duplicate(&self) -> (copy: Candidate)
        ensures
            copy == *self,
    {
        Candidate { name: self.name.clone(), num_votes: self.num_votes, code: self.code }
    }
}

} // verus!
