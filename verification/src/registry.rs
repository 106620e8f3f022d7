//! The registry of an election: its candidates, keyed by code, and its roll of
//! voters, each under an identifier of their own.

use std::collections::HashMap;
use vstd::prelude::*;
use crate::model::{
    add_candidate_result, add_voter_result, candidate_view, candidate_views, carried_out,
    place_vote_result, precedes, voter_views, RegistryView,
};
use crate::phase::ElectionState;
use crate::types::{Ballot, Candidate, ElectionError, Voter};

verus! {

/// The candidates and voters of one election.
pub struct Registry {
    candidates: HashMap<u64, Candidate>,
    voters: Vec<Voter>,
}

impl View for Registry {
    type V = RegistryView;

    closed spec fn view(&self) -> RegistryView {
        RegistryView {
            candidates: candidate_views(self.candidates@),
            voters: voter_views(self.voters@),
        }
    }
}

impl Registry {
    #[verifier::type_invariant]
    closed spec fn well_formed(&self) -> bool {
        self@.valid()
    }

    /// A registry with no candidate and no voter.
    pub fn new() -> (registry: Registry)
        ensures
            registry@ == RegistryView::empty(),
            registry@.valid(),
    {
        let candidates: HashMap<u64, Candidate> = HashMap::new();
        let voters: Vec<Voter> = Vec::new();
        proof {
            assert(candidate_views(candidates@) =~= Map::empty());
            assert(voter_views(voters@) =~= Seq::empty());
        }
        Registry { candidates, voters }
    }

    /// States what holds of every registry.
    pub fn validity(&self)
        ensures
            self@.valid(),
    {
        proof {
            use_type_invariant(self);
        }
    }

    /// The place on the roll of the voter registered under `identifier`.
    fn find_voter(&self, identifier: &String) -> (found: Option<usize>)
        ensures
            match found {
                Some(i) => self@.voter_at(i as int, identifier@) && i as int
                    == self@.voter_index(identifier@),
                None => !self@.has_voter(identifier@),
            },
    {
        proof {
            use_type_invariant(self);
        }
        let mut i: usize = 0;
        while i < self.voters.len()
            invariant
                i <= self.voters.len(),
                self@.valid(),
                forall|j: int| 0 <= j < i ==> !self@.voter_at(j, identifier@),
            decreases self.voters.len() - i,
        {
            if self.voters[i].identifier == *identifier {
                proof {
                    self@.lemma_voter_index(i as int, identifier@);
                }
                return Some(i);
            }
            i += 1;
        }
        None
    }

    /// Files `candidate` under its code, unless the code is taken.
    pub fn register_candidate(&mut self, candidate: Candidate) -> (result: Result<
        (),
        ElectionError,
    >)
        ensures
            final(self)@.valid(),
            carried_out(
                old(self)@.register_candidate(candidate@),
                old(self)@,
                final(self)@,
                result,
            ),
    {
        proof {
            use_type_invariant(&*self);
        }
        if self.candidates.contains_key(&candidate.code) {
            return Err(ElectionError::DuplicateCandidateCode);
        }
        // Both fields are taken out while the map changes, the roll first, so
        // that what is left in the registry is valid at every step.
        let mut voters: Vec<Voter> = Vec::new();
        let mut candidates: HashMap<u64, Candidate> = HashMap::new();
        proof {
            assert(candidate_views(candidates@) =~= Map::empty());
            assert(voter_views(voters@) =~= Seq::empty());
        }
        std::mem::swap(&mut voters, &mut self.voters);
        std::mem::swap(&mut candidates, &mut self.candidates);
        candidates.insert(candidate.code, candidate);
        proof {
            assert(candidate_views(candidates@) =~= old(self)@.candidates.insert(
                candidate.code,
                candidate@,
            ));
        }
        self.candidates = candidates;
        self.voters = voters;
        Ok(())
    }

    /// Puts a new voter, who has not voted, under `identifier` at the end of
    /// the roll, unless the identifier is taken.
    pub fn register_voter(&mut self, identifier: String) -> (result: Result<(), ElectionError>)
        ensures
            final(self)@.valid(),
            carried_out(
                old(self)@.register_voter(identifier@),
                old(self)@,
                final(self)@,
                result,
            ),
    {
        proof {
            use_type_invariant(&*self);
        }
        if self.find_voter(&identifier).is_some() {
            return Err(ElectionError::DuplicateVoterIdentifier);
        }
        let voter = Voter { identifier, has_voted: false, choice_code: None };
        let mut voters: Vec<Voter> = Vec::new();
        proof {
            assert(voter_views(voters@) =~= Seq::empty());
        }
        std::mem::swap(&mut voters, &mut self.voters);
        voters.push(voter);
        proof {
            assert(voter_views(voters@) =~= old(self)@.voters.push(voter@));
            let roll = old(self)@.voters.push(voter@);
            assert forall|i: int, j: int| 0 <= i < j < roll.len() implies (#[trigger] roll[i]).identifier
                != (#[trigger] roll[j]).identifier by {
                if j == roll.len() - 1 {
                    assert(!old(self)@.voter_at(i, identifier@));
                }
            }
        }
        self.voters = voters;
        Ok(())
    }

    /// The roll of voters, in the order in which they were registered.
    pub fn voters(&self) -> (roll: &Vec<Voter>)
        ensures
            voter_views(roll@) == self@.voters,
    {
        &self.voters
    }

    /// The candidates, each once, in no particular order.
    pub fn candidates(&self) -> (list: Vec<Candidate>)
        ensures
            list@.len() == self@.candidates.dom().len(),
            forall|i: int|
                0 <= i < list@.len() ==> self@.has_candidate((#[trigger] list@[i])@.code)
                    && list@[i]@ == self@.candidates[list@[i]@.code],
            forall|i: int, j: int|
                0 <= i < j < list@.len() ==> (#[trigger] list@[i])@.code != (
                #[trigger] list@[j])@.code,
    {
        proof {
            use_type_invariant(self);
        }
        let mut list: Vec<Candidate> = Vec::new();
        for entry in it: self.candidates.iter()
            invariant
                self@.valid(),
                it.seq().no_duplicates(),
                it.seq().len() == self.candidates@.dom().len(),
                list@.len() == it.index@,
                forall|i: int|
                    0 <= i < list@.len() ==> *(#[trigger] it.seq()[i]).0 == list@[i].code,
                forall|i: int|
                    0 <= i < list@.len() ==> self.candidates@.contains_key(
                        (#[trigger] list@[i]).code,
                    ) && self.candidates@[list@[i].code] == list@[i],
                forall|i: int, j: int|
                    0 <= i < j < list@.len() ==> (#[trigger] list@[i]).code != (
                    #[trigger] list@[j]).code,
        {
            let (code, candidate) = entry;
            let ghost place = list@.len() as int;
            assert(self@.candidates.contains_key(*code));
            assert forall|i: int| 0 <= i < place implies (#[trigger] list@[i]).code != *code by {
                if list@[i].code == *code {
                    assert(it.seq()[i] == it.seq()[place]);
                }
            }
            list.push(candidate.duplicate());
        }
        proof {
            assert(self@.candidates.dom() =~= self.candidates@.dom());
            assert forall|i: int| 0 <= i < list@.len() implies self@.has_candidate(
                (#[trigger] list@[i])@.code,
            ) && list@[i]@ == self@.candidates[list@[i]@.code] by {
                assert(self.candidates@.contains_key(list@[i].code));
            }
        }
        list
    }

    /// The candidate registered under `code`, or `NotFound`.
    pub fn lookup_candidate(&self, code: u64) -> (result: Result<&Candidate, ElectionError>)
        ensures
            match result {
                Ok(candidate) => self@.has_candidate(code) && candidate@
                    == self@.candidates[code],
                Err(error) => error == ElectionError::NotFound && !self@.has_candidate(code),
            },
    {
        match self.candidates.get(&code) {
            Some(candidate) => Ok(candidate),
            None => Err(ElectionError::NotFound),
        }
    }

    /// The voter registered under `identifier`, or `NotFound`.
    pub fn lookup_voter(&self, identifier: &String) -> (result: Result<&Voter, ElectionError>)
        ensures
            match result {
                Ok(voter) => self@.has_voter(identifier@) && voter@ == self@.voter(identifier@),
                Err(error) => error == ElectionError::NotFound && !self@.has_voter(identifier@),
            },
    {
        match self.find_voter(identifier) {
            Some(i) => Ok(&self.voters[i]),
            None => Err(ElectionError::NotFound),
        }
    }
}

/// Registers `candidate` while registration is open.
pub fn add_candidate(candidate: Candidate, state: &ElectionState, registry: &mut Registry) -> (result:
    Result<(), ElectionError>)
    ensures
        final(registry)@.valid(),
        carried_out(
            add_candidate_result(old(registry)@, *state, candidate@),
            old(registry)@,
            final(registry)@,
            result,
        ),
{
    match state {
        ElectionState::Announced | ElectionState::Started => registry.register_candidate(candidate),
        _ => {
            registry.validity();
            Err(ElectionError::RegistrationClosed)
        },
    }
}

/// Gives the person known by `identifier` the right to vote: while
/// registration is open, a new voter who has not voted joins the roll.
pub fn give_right_to_vote(identifier: String, state: &ElectionState, registry: &mut Registry) -> (result:
    Result<(), ElectionError>)
    ensures
        final(registry)@.valid(),
        carried_out(
            add_voter_result(old(registry)@, *state, identifier@),
            old(registry)@,
            final(registry)@,
            result,
        ),
{
    match state {
        ElectionState::Announced | ElectionState::Started => registry.register_voter(identifier),
        _ => {
            registry.validity();
            Err(ElectionError::RegistrationClosed)
        },
    }
}

/// Registers `voter` while registration is open. The roll takes the
/// identifier alone: whatever the record says, the new voter has not voted.
pub fn add_voter(voter: Voter, state: &ElectionState, registry: &mut Registry) -> (result: Result<
    (),
    ElectionError,
>)
    ensures
        final(registry)@.valid(),
        carried_out(
            add_voter_result(old(registry)@, *state, voter@.identifier),
            old(registry)@,
            final(registry)@,
            result,
        ),
{
    give_right_to_vote(voter.identifier, state, registry)
}

/// Whether a voter is registered under the identifier of `voter`.
pub fn exists_voter(voter: &Voter, registry: &Registry) -> (exists: bool)
    ensures
        exists == registry@.has_voter(voter@.identifier),
{
    registry.find_voter(&voter.identifier).is_some()
}

/// Counts `ballot`, once for each voter and only while voting is open: the
/// chosen candidate gets one vote more and the voter's record shows the
/// choice. A ballot that is refused changes nothing. The registry is taken by
/// exclusive reference, so no two ballots are counted at one time and none
/// is seen half counted.
pub fn place_vote(ballot: &Ballot, registry: &mut Registry, state: &ElectionState) -> (result: Result<
    (),
    ElectionError,
>)
    ensures
        final(registry)@.valid(),
        carried_out(
            place_vote_result(old(registry)@, *state, ballot@),
            old(registry)@,
            final(registry)@,
            result,
        ),
{
    proof {
        use_type_invariant(&*registry);
    }
    match state {
        ElectionState::Happening => {},
        _ => {
            return Err(ElectionError::VotingNotOpen);
        },
    }
    let place = match registry.find_voter(&ballot.identifier) {
        Some(place) => place,
        None => {
            return Err(ElectionError::VoterNotRegistered);
        },
    };
    if registry.voters[place].has_voted {
        return Err(ElectionError::AlreadyVoted);
    }
    let counted = match registry.candidates.get(&ballot.choice_code) {
        Some(chosen) => {
            if chosen.num_votes == u64::MAX {
                return Err(ElectionError::TallyOverflow);
            }
            Candidate {
                name: chosen.name.clone(),
                num_votes: chosen.num_votes + 1,
                code: chosen.code,
            }
        },
        None => {
            return Err(ElectionError::CandidateNotFound);
        },
    };
    let record = Voter {
        identifier: ballot.identifier.clone(),
        has_voted: true,
        choice_code: Some(ballot.choice_code),
    };
    // Both fields are taken out while they change, the roll first, so that
    // what is left in the registry is valid at every step.
    let mut voters: Vec<Voter> = Vec::new();
    let mut candidates: HashMap<u64, Candidate> = HashMap::new();
    proof {
        assert(candidate_views(candidates@) =~= Map::empty());
        assert(voter_views(voters@) =~= Seq::empty());
    }
    std::mem::swap(&mut voters, &mut registry.voters);
    std::mem::swap(&mut candidates, &mut registry.candidates);
    candidates.insert(ballot.choice_code, counted);
    voters.set(place, record);
    proof {
        let expected = old(registry)@.cast(ballot@)->Ok_0;
        assert(candidate_views(candidates@) =~= expected.candidates);
        assert(voter_views(voters@) =~= expected.voters);
        old(registry)@.lemma_cast_valid(ballot@);
    }
    registry.candidates = candidates;
    registry.voters = voters;
    Ok(())
}

/// The candidate with the most votes; among several with the most, the one
/// with the lowest code. `None` where no candidate is registered. The
/// registry is only read, so the leader can be asked for at any time.
pub fn winning_candidate(registry: &Registry) -> (winner: Option<Candidate>)
    ensures
        registry@.names_winner(candidate_view(winner)),
        candidate_view(winner) == registry@.winner(),
{
    proof {
        use_type_invariant(registry);
    }
    let mut best: Option<u64> = None;
    let mut top: u64 = 0;
    for entry in it: registry.candidates.iter()
        invariant
            registry@.valid(),
            best is Some <==> it.index@ > 0,
            best matches Some(code) ==> registry.candidates@.contains_key(code)
                && registry.candidates@[code].num_votes == top,
            forall|i: int|
                0 <= i < it.index@ ==> precedes(
                    registry.candidates@[best->0]@,
                    (#[trigger] it.seq()[i]).1@,
                ),
    {
        let (code, candidate) = entry;
        assert(registry@.candidates.contains_key(*code));
        let leads = match best {
            None => true,
            Some(leader) => candidate.num_votes > top || (candidate.num_votes == top && *code
                < leader),
        };
        if leads {
            assert(registry@.candidates.contains_key(best->0) || best is None);
            best = Some(*code);
            top = candidate.num_votes;
        }
    }
    match best {
        None => {
            assert(registry@.candidates.dom() =~= Set::empty());
            assert(forall|code: u64| !registry@.is_winner(code));
            None
        },
        Some(code) => {
            let found = registry.candidates.get(&code);
            let winner = found.unwrap().duplicate();
            proof {
                assert(registry@.is_winner(code));
                registry@.lemma_winner_is(code);
            }
            Some(winner)
        },
    }
}

} // verus!
