//! The registry of an election as contracts speak of it, and what each
//! operation of the ledger makes of it.

use vstd::prelude::*;
use crate::phase::ElectionState;
use crate::types::{BallotView, Candidate, CandidateView, ElectionError, Voter, VoterView};

verus! {

/// What a [`Registry`](crate::registry::Registry) stands for in contracts: the candidates by code, and
/// the voters in the order in which they were registered.
#[verifier::ext_equal]
pub struct RegistryView {
    pub candidates: Map<u64, CandidateView>,
    pub voters: Seq<VoterView>,
}

impl RegistryView {
    /// The registry with no candidate and no voter.
    pub open spec fn empty() -> RegistryView {
        RegistryView { candidates: Map::empty(), voters: Seq::empty() }
    }

    /// Whether a candidate is registered under `code`.
    pub open spec fn has_candidate(self, code: u64) -> bool {
        self.candidates.contains_key(code)
    }

    /// Whether the voter at place `i` of the roll goes by `identifier`.
    pub open spec fn voter_at(self, i: int, identifier: Seq<char>) -> bool {
        0 <= i < self.voters.len() && self.voters[i].identifier == identifier
    }

    /// Whether a voter is registered under `identifier`.
    pub open spec fn has_voter(self, identifier: Seq<char>) -> bool {
        exists|i: int| self.voter_at(i, identifier)
    }

    /// The place on the roll of the voter registered under `identifier`.
    pub open spec fn voter_index(self, identifier: Seq<char>) -> int {
        choose|i: int| self.voter_at(i, identifier)
    }

    /// The record of the voter registered under `identifier`.
    pub open spec fn voter(self, identifier: Seq<char>) -> VoterView {
        self.voters[self.voter_index(identifier)]
    }

    /// What every registry satisfies: each candidate is filed under its own
    /// code, no two voters share an identifier, a voter has a chosen code
    /// exactly when the ballot was counted, and every chosen code is that of
    /// a registered candidate.
    pub open spec fn valid(self) -> bool {
        &&& self.candidates.dom().finite()
        &&& forall|code: u64| #[trigger]
            self.candidates.contains_key(code) ==> self.candidates[code].code == code
        &&& forall|i: int, j: int|
            0 <= i < j < self.voters.len() ==> (#[trigger] self.voters[i]).identifier != (
            #[trigger] self.voters[j]).identifier
        &&& forall|i: int|
            0 <= i < self.voters.len() ==> ((#[trigger] self.voters[i]).has_voted
                <==> self.voters[i].choice_code is Some)
        &&& forall|i: int|
            0 <= i < self.voters.len() && (#[trigger] self.voters[i]).choice_code is Some
                ==> self.candidates.contains_key(self.voters[i].choice_code->0)
    }

    /// In a valid registry the voter under an identifier stands at one place.
    pub proof fn lemma_voter_index(self, i: int, identifier: Seq<char>)
        requires
            self.valid(),
            self.voter_at(i, identifier),
        ensures
            self.has_voter(identifier),
            self.voter_index(identifier) == i,
            self.voter(identifier) == self.voters[i],
    {
        let j = self.voter_index(identifier);
        assert(self.voter_at(j, identifier));
        if i < j {
            assert(self.voters[i].identifier != self.voters[j].identifier);
        } else if j < i {
            assert(self.voters[j].identifier != self.voters[i].identifier);
        }
    }

    /// Registering `candidate`: refused where its code is taken, else the
    /// registry with the candidate filed under its code.
    pub open spec fn register_candidate(self, candidate: CandidateView) -> Result<
        RegistryView,
        ElectionError,
    > {
        if self.has_candidate(candidate.code) {
            Err(ElectionError::DuplicateCandidateCode)
        } else {
            Ok(
                RegistryView {
                    candidates: self.candidates.insert(candidate.code, candidate),
                    voters: self.voters,
                },
            )
        }
    }

    /// Registering a voter under `identifier`: refused where the identifier
    /// is taken, else the registry with a new voter, who has not voted, at the
    /// end of the roll.
    pub open spec fn register_voter(self, identifier: Seq<char>) -> Result<
        RegistryView,
        ElectionError,
    > {
        if self.has_voter(identifier) {
            Err(ElectionError::DuplicateVoterIdentifier)
        } else {
            Ok(
                RegistryView {
                    candidates: self.candidates,
                    voters: self.voters.push(
                        VoterView { identifier, has_voted: false, choice_code: None },
                    ),
                },
            )
        }
    }

    /// Counting `ballot`: refused where the voter is not registered, has
    /// voted before, or chooses a code that no candidate has, or where the
    /// tally is full; else the registry in which the chosen candidate has one
    /// vote more and the voter's record shows the choice.
    pub open spec fn cast(self, ballot: BallotView) -> Result<RegistryView, ElectionError> {
        if !self.has_voter(ballot.identifier) {
            Err(ElectionError::VoterNotRegistered)
        } else if self.voter(ballot.identifier).has_voted {
            Err(ElectionError::AlreadyVoted)
        } else if !self.has_candidate(ballot.choice_code) {
            Err(ElectionError::CandidateNotFound)
        } else if self.candidates[ballot.choice_code].num_votes == u64::MAX {
            Err(ElectionError::TallyOverflow)
        } else {
            let chosen = self.candidates[ballot.choice_code];
            Ok(
                RegistryView {
                    candidates: self.candidates.insert(
                        ballot.choice_code,
                        CandidateView {
                            name: chosen.name,
                            num_votes: (chosen.num_votes + 1) as u64,
                            code: chosen.code,
                        },
                    ),
                    voters: self.voters.update(
                        self.voter_index(ballot.identifier),
                        VoterView {
                            identifier: ballot.identifier,
                            has_voted: true,
                            choice_code: Some(ballot.choice_code),
                        },
                    ),
                },
            )
        }
    }

    /// Registering a candidate keeps a valid registry valid.
    pub proof fn lemma_register_candidate_valid(self, candidate: CandidateView)
        requires
            self.valid(),
            self.register_candidate(candidate) is Ok,
        ensures
            self.register_candidate(candidate)->Ok_0.valid(),
    {
    }

    /// Registering a voter keeps a valid registry valid.
    pub proof fn lemma_register_voter_valid(self, identifier: Seq<char>)
        requires
            self.valid(),
            self.register_voter(identifier) is Ok,
        ensures
            self.register_voter(identifier)->Ok_0.valid(),
    {
        let after = self.register_voter(identifier)->Ok_0;
        assert forall|i: int, j: int| 0 <= i < j < after.voters.len() implies (
        #[trigger] after.voters[i]).identifier != (#[trigger] after.voters[j]).identifier by {
            if j == self.voters.len() {
                assert(!self.voter_at(i, identifier));
            } else {
                assert(self.voters[i].identifier != self.voters[j].identifier);
            }
        }
        assert forall|i: int|
            0 <= i < after.voters.len() && (#[trigger] after.voters[i]).choice_code is Some implies after.candidates.contains_key(
            after.voters[i].choice_code->0,
        ) by {
            assert(self.voters[i].choice_code is Some);
        }
        assert forall|i: int| 0 <= i < after.voters.len() implies ((
        #[trigger] after.voters[i]).has_voted <==> after.voters[i].choice_code is Some) by {
            if i < self.voters.len() {
                assert(self.voters[i].has_voted <==> self.voters[i].choice_code is Some);
            }
        }
    }

    /// Counting a ballot keeps a valid registry valid.
    pub proof fn lemma_cast_valid(self, ballot: BallotView)
        requires
            self.valid(),
            self.cast(ballot) is Ok,
        ensures
            self.cast(ballot)->Ok_0.valid(),
    {
        let after = self.cast(ballot)->Ok_0;
        let place = self.voter_index(ballot.identifier);
        assert(self.voter_at(place, ballot.identifier));
        assert(after.candidates.dom() =~= self.candidates.dom());
        assert forall|i: int, j: int| 0 <= i < j < after.voters.len() implies (
        #[trigger] after.voters[i]).identifier != (#[trigger] after.voters[j]).identifier by {
            assert(self.voters[i].identifier != self.voters[j].identifier);
        }
        assert forall|i: int|
            0 <= i < after.voters.len() && (#[trigger] after.voters[i]).choice_code is Some implies after.candidates.contains_key(
            after.voters[i].choice_code->0,
        ) by {
            if i != place {
                assert(self.voters[i].choice_code is Some);
            }
        }
        assert forall|i: int| 0 <= i < after.voters.len() implies ((
        #[trigger] after.voters[i]).has_voted <==> after.voters[i].choice_code is Some) by {
            if i != place {
                assert(self.voters[i].has_voted <==> self.voters[i].choice_code is Some);
            }
        }
    }

    /// The registry after each of `ballots` in turn has been handed in while
    /// voting is open: a ballot that is refused changes nothing, and the next
    /// is taken up.
    pub open spec fn cast_all(self, ballots: Seq<BallotView>) -> RegistryView
        decreases ballots.len(),
    {
        if ballots.len() == 0 {
            self
        } else {
            let before = self.cast_all(ballots.drop_last());
            match before.cast(ballots.last()) {
                Ok(after) => after,
                Err(_) => before,
            }
        }
    }

    /// The registry after each of `candidates` in turn has been put forward
    /// for registration: one that is refused changes nothing, and the next
    /// is taken up.
    pub open spec fn register_candidates(self, candidates: Seq<CandidateView>) -> RegistryView
        decreases candidates.len(),
    {
        if candidates.len() == 0 {
            self
        } else {
            let before = self.register_candidates(candidates.drop_last());
            match before.register_candidate(candidates.last()) {
                Ok(after) => after,
                Err(_) => before,
            }
        }
    }

    /// The registry after the voter named by each of `ballots` in turn has
    /// been put forward for registration: one that is refused changes
    /// nothing, and the next is taken up.
    pub open spec fn register_voters(self, ballots: Seq<BallotView>) -> RegistryView
        decreases ballots.len(),
    {
        if ballots.len() == 0 {
            self
        } else {
            let before = self.register_voters(ballots.drop_last());
            match before.register_voter(ballots.last().identifier) {
                Ok(after) => after,
                Err(_) => before,
            }
        }
    }

    /// The votes of all candidates together.
    pub open spec fn total_votes(self) -> nat {
        total_votes(self.candidates)
    }

    /// The number of voters whose ballot has been counted.
    pub open spec fn ballots_counted(self) -> nat {
        ballots_counted(self.voters)
    }

    /// Whether the registry is as it is before the first ballot: no candidate
    /// has a vote, and no voter has voted.
    pub open spec fn untouched(self) -> bool {
        &&& forall|code: u64| #[trigger]
            self.candidates.contains_key(code) ==> self.candidates[code].num_votes == 0
        &&& forall|i: int| 0 <= i < self.voters.len() ==> !(#[trigger] self.voters[i]).has_voted
    }

    /// Whether the candidate under `code` wins: no candidate has more votes,
    /// and none with as many votes has a lower code.
    pub open spec fn is_winner(self, code: u64) -> bool {
        &&& self.candidates.contains_key(code)
        &&& forall|other: u64| #[trigger]
            self.candidates.contains_key(other) ==> precedes(
                self.candidates[code],
                self.candidates[other],
            )
    }

    /// Two codes that both win are one code.
    pub proof fn lemma_winner_unique(self, a: u64, b: u64)
        requires
            self.valid(),
            self.is_winner(a),
            self.is_winner(b),
        ensures
            a == b,
    {
        assert(precedes(self.candidates[a], self.candidates[b]));
        assert(precedes(self.candidates[b], self.candidates[a]));
    }

    /// The candidate under a winning code is the winner.
    pub proof fn lemma_winner_is(self, code: u64)
        requires
            self.valid(),
            self.is_winner(code),
        ensures
            self.winner() == Some(self.candidates[code]),
    {
        let chosen = choose|c: u64| self.is_winner(c);
        self.lemma_winner_unique(code, chosen);
    }

    /// Whether `answer` names the winner: the candidate under a winning code,
    /// or none where no candidate is registered.
    pub open spec fn names_winner(self, answer: Option<CandidateView>) -> bool {
        match answer {
            Some(candidate) => self.is_winner(candidate.code) && candidate
                == self.candidates[candidate.code],
            None => self.candidates.dom().is_empty(),
        }
    }

    /// The winning candidate, where there is any candidate.
    pub open spec fn winner(self) -> Option<CandidateView> {
        if exists|code: u64| self.is_winner(code) {
            Some(self.candidates[choose|code: u64| self.is_winner(code)])
        } else {
            None
        }
    }
}

/// The sum of the votes of `candidates`.
pub open spec fn total_votes(candidates: Map<u64, CandidateView>) -> nat
    decreases candidates.dom().len(),
    when candidates.dom().finite()
{
    if candidates.dom().is_empty() {
        0
    } else {
        let code = candidates.dom().choose();
        candidates[code].num_votes as nat + total_votes(candidates.remove(code))
    }
}

/// The number of `voters` whose ballot has been counted.
pub open spec fn ballots_counted(voters: Seq<VoterView>) -> nat
    decreases voters.len(),
{
    if voters.len() == 0 {
        0
    } else {
        ballots_counted(voters.drop_last()) + if voters.last().has_voted {
            1nat
        } else {
            0nat
        }
    }
}

/// The sum of the votes is the votes of any one candidate and the sum of the
/// votes of the others.
pub proof fn lemma_total_votes_without(candidates: Map<u64, CandidateView>, code: u64)
    requires
        candidates.dom().finite(),
        candidates.contains_key(code),
    ensures
        total_votes(candidates) == candidates[code].num_votes + total_votes(
            candidates.remove(code),
        ),
    decreases candidates.dom().len(),
{
    let picked = candidates.dom().choose();
    if picked != code {
        let rest = candidates.remove(picked);
        let others = candidates.remove(code);
        lemma_total_votes_without(rest, code);
        lemma_total_votes_without(others, picked);
        assert(rest.remove(code) =~= others.remove(picked));
    }
}

/// Filing a candidate under `code` makes the sum of the votes that of the
/// candidates under other codes and the votes of the one filed.
pub proof fn lemma_total_votes_insert(
    candidates: Map<u64, CandidateView>,
    code: u64,
    candidate: CandidateView,
)
    requires
        candidates.dom().finite(),
    ensures
        total_votes(candidates.insert(code, candidate)) == total_votes(candidates.remove(code))
            + candidate.num_votes,
{
    lemma_total_votes_without(candidates.insert(code, candidate), code);
    assert(candidates.insert(code, candidate).remove(code) =~= candidates.remove(code));
}

/// Candidates without votes have no votes together.
pub proof fn lemma_total_votes_zero(candidates: Map<u64, CandidateView>)
    requires
        candidates.dom().finite(),
        forall|code: u64| #[trigger]
            candidates.contains_key(code) ==> candidates[code].num_votes == 0,
    ensures
        total_votes(candidates) == 0,
    decreases candidates.dom().len(),
{
    if !candidates.dom().is_empty() {
        lemma_total_votes_zero(candidates.remove(candidates.dom().choose()));
    }
}

/// Changing one voter's record changes the number of ballots counted by
/// what that record says before and after.
pub proof fn lemma_ballots_counted_update(voters: Seq<VoterView>, place: int, record: VoterView)
    requires
        0 <= place < voters.len(),
    ensures
        ballots_counted(voters.update(place, record)) + (if voters[place].has_voted {
            1nat
        } else {
            0nat
        }) == ballots_counted(voters) + (if record.has_voted {
            1nat
        } else {
            0nat
        }),
    decreases voters.len(),
{
    let changed = voters.update(place, record);
    if place == voters.len() - 1 {
        assert(changed.drop_last() =~= voters.drop_last());
    } else {
        lemma_ballots_counted_update(voters.drop_last(), place, record);
        assert(changed.drop_last() =~= voters.drop_last().update(place, record));
    }
}

/// Where no voter has voted, no ballot has been counted.
pub proof fn lemma_ballots_counted_zero(voters: Seq<VoterView>)
    requires
        forall|i: int| 0 <= i < voters.len() ==> !(#[trigger] voters[i]).has_voted,
    ensures
        ballots_counted(voters) == 0,
    decreases voters.len(),
{
    if voters.len() > 0 {
        assert forall|i: int| 0 <= i < voters.drop_last().len() implies !(
        #[trigger] voters.drop_last()[i]).has_voted by {
            assert(!voters[i].has_voted);
        }
        lemma_ballots_counted_zero(voters.drop_last());
    }
}

/// What registering `candidate` makes of `registry` in phase `state`:
/// `RegistrationClosed` once voting has opened, else what the registry makes
/// of it.
pub open spec fn add_candidate_result(
    registry: RegistryView,
    state: ElectionState,
    candidate: CandidateView,
) -> Result<RegistryView, ElectionError> {
    if !state.registration_open() {
        Err(ElectionError::RegistrationClosed)
    } else {
        registry.register_candidate(candidate)
    }
}

/// What registering a voter under `identifier` makes of `registry` in phase
/// `state`: `RegistrationClosed` once voting has opened, else what the
/// registry makes of it.
pub open spec fn add_voter_result(
    registry: RegistryView,
    state: ElectionState,
    identifier: Seq<char>,
) -> Result<RegistryView, ElectionError> {
    if !state.registration_open() {
        Err(ElectionError::RegistrationClosed)
    } else {
        registry.register_voter(identifier)
    }
}

/// What counting `ballot` makes of `registry` in phase `state`:
/// `VotingNotOpen` unless voting is open, else what the registry makes of it.
pub open spec fn place_vote_result(
    registry: RegistryView,
    state: ElectionState,
    ballot: BallotView,
) -> Result<RegistryView, ElectionError> {
    if !state.voting_open() {
        Err(ElectionError::VotingNotOpen)
    } else {
        registry.cast(ballot)
    }
}

/// Whether an operation that makes `expected` of the registry `before`
/// answered `result` and left the registry `after`: on success the new
/// registry, on refusal the error and the registry untouched.
pub open spec fn carried_out(
    expected: Result<RegistryView, ElectionError>,
    before: RegistryView,
    after: RegistryView,
    result: Result<(), ElectionError>,
) -> bool {
    match expected {
        Ok(registry) => result is Ok && after == registry,
        Err(error) => result == Err::<(), ElectionError>(error) && after == before,
    }
}

/// The candidate that an answer names, as it stands in contracts.
pub open spec fn candidate_view(candidate: Option<Candidate>) -> Option<CandidateView> {
    match candidate {
        Some(c) => Some(c@),
        None => None,
    }
}

/// Whether `a` stands before `b` in the count: with more votes, or with as
/// many and a code that is not higher.
pub open spec fn precedes(a: CandidateView, b: CandidateView) -> bool {
    a.num_votes > b.num_votes || (a.num_votes == b.num_votes && a.code <= b.code)
}

/// The candidates of a map, each as it stands in contracts.
pub open spec fn candidate_views(candidates: Map<u64, Candidate>) -> Map<u64, CandidateView> {
    candidates.map_values(|c: Candidate| c@)
}

/// The voters of a roll, each as it stands in contracts.
pub open spec fn voter_views(voters: Seq<Voter>) -> Seq<VoterView> {
    voters.map_values(|v: Voter| v@)
}

} // verus!
