//! What holds of the ledger whatever is asked of it, stated over the
//! registry and the phases as contracts speak of them.

use vstd::prelude::*;
use crate::model::{
    add_candidate_result, add_voter_result, lemma_ballots_counted_update,
    lemma_ballots_counted_zero, lemma_total_votes_insert, lemma_total_votes_without,
    lemma_total_votes_zero, place_vote_result, RegistryView,
};
use crate::phase::{transition_result, ElectionEvent, ElectionState};
use crate::types::{BallotView, CandidateView, ElectionError};

verus! {

/// Whatever is asked of a registry, it stays valid: each candidate is filed
/// under its own code, no two voters share an identifier, and every code
/// that a voter has chosen is that of a registered candidate.
pub proof fn law_registry_stays_valid(
    registry: RegistryView,
    candidate: CandidateView,
    identifier: Seq<char>,
    ballot: BallotView,
)
    requires
        registry.valid(),
    ensures
        RegistryView::empty().valid(),
        registry.register_candidate(candidate) matches Ok(after) ==> after.valid(),
        registry.register_voter(identifier) matches Ok(after) ==> after.valid(),
        registry.cast(ballot) matches Ok(after) ==> after.valid(),
{
    if registry.register_candidate(candidate) is Ok {
        registry.lemma_register_candidate_valid(candidate);
    }
    if registry.register_voter(identifier) is Ok {
        registry.lemma_register_voter_valid(identifier);
    }
    if registry.cast(ballot) is Ok {
        registry.lemma_cast_valid(ballot);
    }
}

/// A ballot that is counted adds one vote to the votes of all candidates
/// together and one voter to those who have voted.
pub proof fn law_ballot_adds_one_vote(registry: RegistryView, ballot: BallotView)
    requires
        registry.valid(),
        registry.cast(ballot) is Ok,
    ensures
        registry.cast(ballot)->Ok_0.valid(),
        registry.cast(ballot)->Ok_0.total_votes() == registry.total_votes() + 1,
        registry.cast(ballot)->Ok_0.ballots_counted() == registry.ballots_counted() + 1,
{
    let place = registry.voter_index(ballot.identifier);
    let after = registry.cast(ballot)->Ok_0;
    assert(registry.voter_at(place, ballot.identifier));
    registry.lemma_cast_valid(ballot);
    lemma_total_votes_without(registry.candidates, ballot.choice_code);
    lemma_total_votes_insert(
        registry.candidates,
        ballot.choice_code,
        after.candidates[ballot.choice_code],
    );
    lemma_ballots_counted_update(registry.voters, place, after.voters[place]);
}

/// Whatever ballots are handed in, and however many of them are refused, the
/// votes of all candidates together grow by exactly the number of voters
/// whose ballot was counted.
pub proof fn law_votes_follow_ballots(registry: RegistryView, ballots: Seq<BallotView>)
    requires
        registry.valid(),
    ensures
        registry.cast_all(ballots).valid(),
        registry.cast_all(ballots).total_votes() - registry.total_votes() == registry.cast_all(
            ballots,
        ).ballots_counted() - registry.ballots_counted(),
    decreases ballots.len(),
{
    if ballots.len() > 0 {
        law_votes_follow_ballots(registry, ballots.drop_last());
        let before = registry.cast_all(ballots.drop_last());
        if before.cast(ballots.last()) is Ok {
            law_ballot_adds_one_vote(before, ballots.last());
        }
    }
}

/// Where the votes of all candidates together are as many as the voters
/// who have voted, they stay so whatever ballots are handed in.
pub proof fn law_votes_equal_ballots(registry: RegistryView, ballots: Seq<BallotView>)
    requires
        registry.valid(),
        registry.total_votes() == registry.ballots_counted(),
    ensures
        registry.cast_all(ballots).total_votes() == registry.cast_all(ballots).ballots_counted(),
{
    law_votes_follow_ballots(registry, ballots);
}

/// Before the first ballot, with no vote entered for any candidate, the
/// votes are as many as the voters who have voted: none.
pub proof fn law_no_votes_before_the_first_ballot(registry: RegistryView)
    requires
        registry.valid(),
        registry.untouched(),
    ensures
        registry.total_votes() == 0,
        registry.ballots_counted() == 0,
{
    lemma_total_votes_zero(registry.candidates);
    lemma_ballots_counted_zero(registry.voters);
}

/// Registration counts no ballot: a new voter changes neither the votes nor
/// the number of voters who have voted, and a new candidate brings the votes
/// entered with it and no others.
pub proof fn law_registration_counts_no_ballot(
    registry: RegistryView,
    candidate: CandidateView,
    identifier: Seq<char>,
)
    requires
        registry.valid(),
    ensures
        registry.register_voter(identifier) matches Ok(after) ==> after.total_votes()
            == registry.total_votes() && after.ballots_counted() == registry.ballots_counted(),
        registry.register_candidate(candidate) matches Ok(after) ==> after.total_votes()
            == registry.total_votes() + candidate.num_votes && after.ballots_counted()
            == registry.ballots_counted(),
{
    if registry.register_voter(identifier) is Ok {
        let after = registry.register_voter(identifier)->Ok_0;
        assert(after.voters.drop_last() =~= registry.voters);
    }
    if registry.register_candidate(candidate) is Ok {
        lemma_total_votes_insert(registry.candidates, candidate.code, candidate);
        assert(registry.candidates.remove(candidate.code) =~= registry.candidates);
    }
}

/// A voter who has voted has voted for good: whatever ballots follow, the
/// record stays in its place and says so.
pub proof fn law_vote_stays_counted(
    registry: RegistryView,
    place: int,
    identifier: Seq<char>,
    ballots: Seq<BallotView>,
)
    requires
        registry.valid(),
        registry.voter_at(place, identifier),
        registry.voters[place].has_voted,
    ensures
        registry.cast_all(ballots).valid(),
        registry.cast_all(ballots).voter_at(place, identifier),
        registry.cast_all(ballots).voters[place] == registry.voters[place],
    decreases ballots.len(),
{
    if ballots.len() > 0 {
        law_vote_stays_counted(registry, place, identifier, ballots.drop_last());
        let before = registry.cast_all(ballots.drop_last());
        let ballot = ballots.last();
        if before.cast(ballot) is Ok {
            before.lemma_cast_valid(ballot);
            let changed = before.voter_index(ballot.identifier);
            assert(before.voter_at(changed, ballot.identifier));
            if changed == place {
                before.lemma_voter_index(place, identifier);
            }
        }
    }
}

/// Each voter's ballot is counted once. After it has been counted, every
/// further ballot of that voter is refused as `AlreadyVoted`, whatever
/// candidate it names and whatever was handed in between, and so changes no
/// tally.
pub proof fn law_one_ballot_per_voter(
    registry: RegistryView,
    first: BallotView,
    between: Seq<BallotView>,
    again: BallotView,
)
    requires
        registry.valid(),
        registry.cast(first) is Ok,
        again.identifier == first.identifier,
    ensures
        registry.cast(first)->Ok_0.cast_all(between).cast(again) == Err::<
            RegistryView,
            ElectionError,
        >(ElectionError::AlreadyVoted),
{
    let counted = registry.cast(first)->Ok_0;
    let place = registry.voter_index(first.identifier);
    assert(registry.voter_at(place, first.identifier));
    registry.lemma_cast_valid(first);
    law_vote_stays_counted(counted, place, first.identifier, between);
    counted.cast_all(between).lemma_voter_index(place, first.identifier);
}

/// The winner depends on the registry alone: two answers to the question who
/// wins, given of one registry, are one answer.
pub proof fn law_winner_is_determined(
    registry: RegistryView,
    one: Option<CandidateView>,
    other: Option<CandidateView>,
)
    requires
        registry.valid(),
        registry.names_winner(one),
        registry.names_winner(other),
    ensures
        one == other,
        one == registry.winner(),
{
    match (one, other) {
        (Some(a), Some(b)) => {
            registry.lemma_winner_unique(a.code, b.code);
            registry.lemma_winner_is(a.code);
        },
        (Some(a), None) => {
            assert(registry.candidates.dom().contains(a.code));
        },
        (None, Some(b)) => {
            assert(registry.candidates.dom().contains(b.code));
        },
        (None, None) => {
            assert forall|code: u64| !registry.is_winner(code) by {
                assert(!registry.candidates.dom().contains(code));
            }
        },
    }
}

/// A code is given out once. After a candidate has been registered, a second
/// registration under the same code is refused as `DuplicateCandidateCode`,
/// and the candidate first registered stands as registered, votes included.
pub proof fn law_code_is_given_once(
    registry: RegistryView,
    first: CandidateView,
    second: CandidateView,
)
    requires
        registry.register_candidate(first) is Ok,
        second.code == first.code,
    ensures
        registry.register_candidate(first)->Ok_0.candidates[first.code] == first,
        registry.register_candidate(first)->Ok_0.register_candidate(second) == Err::<
            RegistryView,
            ElectionError,
        >(ElectionError::DuplicateCandidateCode),
{
}

/// Every legal step leads to the phase that comes next: none goes back, and
/// none passes a phase over. Every other step is an `IllegalTransition`.
pub proof fn law_phases_advance_by_one(state: ElectionState, event: ElectionEvent)
    ensures
        match transition_result(state, event) {
            Ok(next) => next.rank() == state.rank() + 1,
            Err(error) => error == ElectionError::IllegalTransition,
        },
{
}

/// The events `Start`, `Open`, `Close`, in this order, take an announced
/// election to its end, and no other order of events is legal all the way:
/// from `Announced`, a run of events is legal exactly when it is the
/// beginning of that order.
pub proof fn law_phase_order(events: Seq<ElectionEvent>)
    ensures
        ElectionState::Announced.run(
            seq![ElectionEvent::Start, ElectionEvent::Open, ElectionEvent::Close],
        ) == Some(ElectionState::Ended),
        ElectionState::Announced.run(events) is Some <==> events.is_prefix_of(
            seq![ElectionEvent::Start, ElectionEvent::Open, ElectionEvent::Close],
        ),
{
    let order = seq![ElectionEvent::Start, ElectionEvent::Open, ElectionEvent::Close];
    reveal_with_fuel(ElectionState::run, 5);
    assert(order.drop_first() =~= seq![ElectionEvent::Open, ElectionEvent::Close]);
    assert(order.drop_first().drop_first() =~= seq![ElectionEvent::Close]);
    assert(order.drop_first().drop_first().drop_first() =~= Seq::empty());
    if events.len() > 3 {
        let rest = events.drop_first().drop_first().drop_first();
        assert(rest.len() > 0);
    }
    if events.is_prefix_of(order) {
        assert(forall|i: int| 0 <= i < events.len() ==> events[i] == order[i]);
    }
    if ElectionState::Announced.run(events) is Some {
        assert(events.len() <= 3);
        assert(events =~= order.subrange(0, events.len() as int));
    }
}

/// An election that has ended stays as it is: no event leads on, nobody is
/// registered, and no ballot is counted.
pub proof fn law_ended_is_final(
    registry: RegistryView,
    event: ElectionEvent,
    candidate: CandidateView,
    identifier: Seq<char>,
    ballot: BallotView,
)
    ensures
        transition_result(ElectionState::Ended, event) is Err,
        add_candidate_result(registry, ElectionState::Ended, candidate) == Err::<
            RegistryView,
            ElectionError,
        >(ElectionError::RegistrationClosed),
        add_voter_result(registry, ElectionState::Ended, identifier) == Err::<
            RegistryView,
            ElectionError,
        >(ElectionError::RegistrationClosed),
        place_vote_result(registry, ElectionState::Ended, ballot) == Err::<
            RegistryView,
            ElectionError,
        >(ElectionError::VotingNotOpen),
{
}

} // verus!
