//! Taking in whole lists: the candidates and the voters that a text names,
//! and the ballots of a voter list.

use vstd::prelude::*;
use crate::laws::law_ballot_adds_one_vote;
use crate::parse::{
    ballot_list, ballots_of_lines, candidate_list, candidates_of_lines, read_candidates,
    read_voters, split,
};
use crate::phase::ElectionState;
use crate::registry::{add_candidate, give_right_to_vote, place_vote, Registry};
use crate::types::{Ballot, Candidate};

verus! {

/// Registers each of `candidates` in turn and says how many were accepted.
/// One that is refused is passed over; once registration is closed all are.
pub fn add_candidates(
    candidates: &Vec<Candidate>,
    state: &ElectionState,
    registry: &mut Registry,
) -> (accepted: usize)
    ensures
        final(registry)@.valid(),
        final(registry)@ == (if state.registration_open() {
            old(registry)@.register_candidates(candidate_list(candidates@))
        } else {
            old(registry)@
        }),
        accepted == final(registry)@.candidates.dom().len() - old(registry)@.candidates.dom().len(),
{
    registry.validity();
    let ghost list = candidate_list(candidates@);
    let mut accepted: usize = 0;
    let mut i: usize = 0;
    while i < candidates.len()
        invariant
            i <= candidates.len(),
            accepted <= i,
            list == candidate_list(candidates@),
            registry@.valid(),
            registry@ == (if state.registration_open() {
                old(registry)@.register_candidates(list.subrange(0, i as int))
            } else {
                old(registry)@
            }),
            accepted == registry@.candidates.dom().len() - old(registry)@.candidates.dom().len(),
        decreases candidates.len() - i,
    {
        assert(list.subrange(0, i + 1).drop_last() =~= list.subrange(0, i as int));
        if add_candidate(candidates[i].duplicate(), state, registry).is_ok() {
            accepted += 1;
        }
        i += 1;
    }
    assert(list.subrange(0, i as int) =~= list);
    accepted
}

/// Registers the voter named by each of `ballots` in turn and says how many
/// were accepted. One that is refused is passed over; once registration is
/// closed all are.
pub fn add_voters(ballots: &Vec<Ballot>, state: &ElectionState, registry: &mut Registry) -> (accepted:
    usize)
    ensures
        final(registry)@.valid(),
        final(registry)@ == (if state.registration_open() {
            old(registry)@.register_voters(ballot_list(ballots@))
        } else {
            old(registry)@
        }),
        accepted == final(registry)@.voters.len() - old(registry)@.voters.len(),
{
    registry.validity();
    let ghost list = ballot_list(ballots@);
    let mut accepted: usize = 0;
    let mut i: usize = 0;
    while i < ballots.len()
        invariant
            i <= ballots.len(),
            accepted <= i,
            list == ballot_list(ballots@),
            registry@.valid(),
            registry@ == (if state.registration_open() {
                old(registry)@.register_voters(list.subrange(0, i as int))
            } else {
                old(registry)@
            }),
            accepted == registry@.voters.len() - old(registry)@.voters.len(),
        decreases ballots.len() - i,
    {
        assert(list.subrange(0, i + 1).drop_last() =~= list.subrange(0, i as int));
        if give_right_to_vote(ballots[i].identifier.clone(), state, registry).is_ok() {
            accepted += 1;
        }
        i += 1;
    }
    assert(list.subrange(0, i as int) =~= list);
    accepted
}

/// Hands in each of `ballots` in turn and says how many were counted. One
/// that is refused is passed over; unless voting is open all are.
pub fn place_votes(ballots: &Vec<Ballot>, registry: &mut Registry, state: &ElectionState) -> (counted:
    usize)
    ensures
        final(registry)@.valid(),
        final(registry)@ == (if state.voting_open() {
            old(registry)@.cast_all(ballot_list(ballots@))
        } else {
            old(registry)@
        }),
        counted == final(registry)@.ballots_counted() - old(registry)@.ballots_counted(),
        counted == final(registry)@.total_votes() - old(registry)@.total_votes(),
{
    registry.validity();
    let ghost list = ballot_list(ballots@);
    let mut counted: usize = 0;
    let mut i: usize = 0;
    while i < ballots.len()
        invariant
            i <= ballots.len(),
            counted <= i,
            list == ballot_list(ballots@),
            registry@.valid(),
            registry@ == (if state.voting_open() {
                old(registry)@.cast_all(list.subrange(0, i as int))
            } else {
                old(registry)@
            }),
            counted == registry@.ballots_counted() - old(registry)@.ballots_counted(),
            counted == registry@.total_votes() - old(registry)@.total_votes(),
        decreases ballots.len() - i,
    {
        assert(list.subrange(0, i + 1).drop_last() =~= list.subrange(0, i as int));
        let ghost before = registry@;
        if place_vote(&ballots[i], registry, state).is_ok() {
            proof {
                law_ballot_adds_one_vote(before, ballots@[i as int]@);
            }
            counted += 1;
        }
        i += 1;
    }
    assert(list.subrange(0, i as int) =~= list);
    counted
}

/// Reads a candidate list, one record to a line, registers the candidates
/// it names and says how many were accepted. Lines that record no candidate
/// and candidates that are refused are passed over.
pub fn load_candidates(text: &str, state: &ElectionState, registry: &mut Registry) -> (accepted:
    usize)
    ensures
        final(registry)@.valid(),
        final(registry)@ == (if state.registration_open() {
            old(registry)@.register_candidates(candidates_of_lines(split(text@, '\n')))
        } else {
            old(registry)@
        }),
        accepted == final(registry)@.candidates.dom().len() - old(registry)@.candidates.dom().len(),
{
    let candidates = read_candidates(text);
    add_candidates(&candidates, state, registry)
}

/// Reads a voter list, one record to a line, registers the voters it names
/// and hands back the ballots it records, to be counted when voting is open.
/// Lines that record no ballot and voters that are refused are passed over.
pub fn load_voters(text: &str, state: &ElectionState, registry: &mut Registry) -> (ballots: Vec<
    Ballot,
>)
    ensures
        final(registry)@.valid(),
        ballot_list(ballots@) == ballots_of_lines(split(text@, '\n')),
        final(registry)@ == (if state.registration_open() {
            old(registry)@.register_voters(ballot_list(ballots@))
        } else {
            old(registry)@
        }),
{
    let ballots = read_voters(text);
    add_voters(&ballots, state, registry);
    ballots
}

} // verus!
