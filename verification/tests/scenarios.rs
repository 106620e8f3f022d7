use election_ledger::phase::{
    announce_election, end_election, open_voting, start_election, ElectionState,
};
use election_ledger::registry::{
    add_candidate, add_voter, exists_voter, give_right_to_vote, place_vote, winning_candidate,
    Registry,
};
use election_ledger::types::{
    create_ballot, create_candidate, create_voter, has_voted, ElectionError,
};

fn two_candidates_three_voters() -> (ElectionState, Registry) {
    let mut state = announce_election();
    let mut registry = Registry::new();
    assert_eq!(add_candidate(create_candidate("Alfredo".to_string(), 0, 3), &state, &mut registry), Ok(()));
    assert_eq!(add_candidate(create_candidate("Bea".to_string(), 0, 7), &state, &mut registry), Ok(()));
    for id in ["V1", "V2", "V3"] {
        assert_eq!(give_right_to_vote(id.to_string(), &state, &mut registry), Ok(()));
    }
    assert_eq!(start_election(&mut state), Ok(()));
    assert_eq!(open_voting(&mut state), Ok(()));
    (state, registry)
}

fn votes_of(registry: &Registry, code: u64) -> u64 {
    registry.lookup_candidate(code).unwrap().num_votes
}

#[test]
fn three_ballots_two_candidates() {
    let (mut state, mut registry) = two_candidates_three_voters();
    assert_eq!(place_vote(&create_ballot("V1".to_string(), 3), &mut registry, &state), Ok(()));
    assert_eq!(place_vote(&create_ballot("V2".to_string(), 7), &mut registry, &state), Ok(()));
    assert_eq!(place_vote(&create_ballot("V3".to_string(), 3), &mut registry, &state), Ok(()));
    assert_eq!(end_election(&mut state), Ok(()));
    assert_eq!(state, ElectionState::Ended);
    assert_eq!(votes_of(&registry, 3), 2);
    assert_eq!(votes_of(&registry, 7), 1);
    let winner = winning_candidate(&registry).unwrap();
    assert_eq!(winner.code, 3);
    assert_eq!(winner.name, "Alfredo");
    assert_eq!(winner.num_votes, 2);
}

#[test]
fn second_ballot_of_a_voter_is_refused() {
    let (state, mut registry) = two_candidates_three_voters();
    assert_eq!(place_vote(&create_ballot("V1".to_string(), 3), &mut registry, &state), Ok(()));
    assert_eq!(
        place_vote(&create_ballot("V1".to_string(), 7), &mut registry, &state),
        Err(ElectionError::AlreadyVoted)
    );
    assert_eq!(votes_of(&registry, 3), 1);
    assert_eq!(votes_of(&registry, 7), 0);
    let voter = registry.lookup_voter(&"V1".to_string()).unwrap();
    assert!(has_voted(voter));
    assert_eq!(voter.choice_code, Some(3));
}

#[test]
fn tie_goes_to_the_lower_code() {
    let (state, mut registry) = two_candidates_three_voters();
    assert_eq!(place_vote(&create_ballot("V1".to_string(), 7), &mut registry, &state), Ok(()));
    assert_eq!(place_vote(&create_ballot("V2".to_string(), 3), &mut registry, &state), Ok(()));
    assert_eq!(votes_of(&registry, 3), 1);
    assert_eq!(votes_of(&registry, 7), 1);
    assert_eq!(winning_candidate(&registry).unwrap().code, 3);
}

#[test]
fn tie_goes_to_the_lower_code_whatever_the_order_of_registration() {
    let state = announce_election();
    let mut registry = Registry::new();
    for code in [9u64, 2, 5, 11, 4] {
        assert_eq!(add_candidate(create_candidate(format!("c{}", code), 6, code), &state, &mut registry), Ok(()));
    }
    assert_eq!(winning_candidate(&registry).unwrap().code, 2);
    assert_eq!(add_candidate(create_candidate("late".to_string(), 6, 1), &state, &mut registry), Ok(()));
    assert_eq!(winning_candidate(&registry).unwrap().code, 1);
    assert_eq!(add_candidate(create_candidate("top".to_string(), 7, 100), &state, &mut registry), Ok(()));
    assert_eq!(winning_candidate(&registry).unwrap().code, 100);
}

#[test]
fn no_candidates_no_winner() {
    let registry = Registry::new();
    assert!(winning_candidate(&registry).is_none());
}

#[test]
fn winner_with_code_zero_and_no_votes() {
    let state = announce_election();
    let mut registry = Registry::new();
    assert_eq!(add_candidate(create_candidate("Zero".to_string(), 0, 0), &state, &mut registry), Ok(()));
    let winner = winning_candidate(&registry).unwrap();
    assert_eq!((winner.code, winner.num_votes), (0, 0));
}

#[test]
fn asking_for_the_winner_again_gives_the_same_answer() {
    let (state, mut registry) = two_candidates_three_voters();
    assert_eq!(place_vote(&create_ballot("V2".to_string(), 7), &mut registry, &state), Ok(()));
    let first = winning_candidate(&registry).unwrap();
    let second = winning_candidate(&registry).unwrap();
    let third = winning_candidate(&registry).unwrap();
    assert_eq!((first.code, first.num_votes, first.name.clone()), (7, 1, "Bea".to_string()));
    assert_eq!((second.code, second.num_votes, second.name), (first.code, first.num_votes, first.name.clone()));
    assert_eq!((third.code, third.num_votes, third.name), (first.code, first.num_votes, first.name));
    assert_eq!(votes_of(&registry, 7), 1);
    assert_eq!(votes_of(&registry, 3), 0);
}

#[test]
fn leader_can_be_asked_for_before_the_end() {
    let state = announce_election();
    let mut registry = Registry::new();
    assert_eq!(add_candidate(create_candidate("Alfredo".to_string(), 0, 3), &state, &mut registry), Ok(()));
    assert_eq!(winning_candidate(&registry).unwrap().code, 3);
}

#[test]
fn same_code_twice_is_refused_and_the_first_stands() {
    let state = announce_election();
    let mut registry = Registry::new();
    assert_eq!(add_candidate(create_candidate("Alfredo".to_string(), 4, 3), &state, &mut registry), Ok(()));
    assert_eq!(
        add_candidate(create_candidate("Impostor".to_string(), 99, 3), &state, &mut registry),
        Err(ElectionError::DuplicateCandidateCode)
    );
    let kept = registry.lookup_candidate(3).unwrap();
    assert_eq!(kept.name, "Alfredo");
    assert_eq!(kept.num_votes, 4);
    assert_eq!(registry.candidates().len(), 1);
}

#[test]
fn same_code_twice_is_refused_after_votes_too() {
    let (_, mut registry) = two_candidates_three_voters();
    let happening = ElectionState::Happening;
    assert_eq!(place_vote(&create_ballot("V1".to_string(), 3), &mut registry, &happening), Ok(()));
    assert_eq!(
        registry.register_candidate(create_candidate("Impostor".to_string(), 0, 3)),
        Err(ElectionError::DuplicateCandidateCode)
    );
    assert_eq!(votes_of(&registry, 3), 1);
    assert_eq!(registry.lookup_candidate(3).unwrap().name, "Alfredo");
}

#[test]
fn same_identifier_twice_is_refused() {
    let state = announce_election();
    let mut registry = Registry::new();
    assert_eq!(give_right_to_vote("V1".to_string(), &state, &mut registry), Ok(()));
    assert_eq!(
        give_right_to_vote("V1".to_string(), &state, &mut registry),
        Err(ElectionError::DuplicateVoterIdentifier)
    );
    assert_eq!(
        add_voter(create_voter("V1".to_string()), &state, &mut registry),
        Err(ElectionError::DuplicateVoterIdentifier)
    );
    assert_eq!(registry.voters().len(), 1);
}

#[test]
fn a_new_voter_has_not_voted_whatever_the_record_says() {
    let state = announce_election();
    let mut registry = Registry::new();
    let mut record = create_voter("V9".to_string());
    record.has_voted = true;
    record.choice_code = Some(12);
    assert_eq!(add_voter(record, &state, &mut registry), Ok(()));
    let stored = registry.lookup_voter(&"V9".to_string()).unwrap();
    assert!(!has_voted(stored));
    assert_eq!(stored.choice_code, None);
    assert_eq!(stored.identifier, "V9");
}

#[test]
fn exists_voter_goes_by_the_identifier() {
    let state = announce_election();
    let mut registry = Registry::new();
    assert!(!exists_voter(&create_voter("1234".to_string()), &registry));
    assert_eq!(give_right_to_vote("1234".to_string(), &state, &mut registry), Ok(()));
    assert!(exists_voter(&create_voter("1234".to_string()), &registry));
    assert!(!exists_voter(&create_voter("123".to_string()), &registry));
    assert!(!exists_voter(&create_voter("12345".to_string()), &registry));
    assert!(!exists_voter(&create_voter("".to_string()), &registry));
}

#[test]
fn lookups_miss_with_not_found() {
    let (_, registry) = two_candidates_three_voters();
    assert_eq!(registry.lookup_candidate(4).err(), Some(ElectionError::NotFound));
    assert_eq!(registry.lookup_voter(&"V4".to_string()).err(), Some(ElectionError::NotFound));
    assert_eq!(registry.lookup_candidate(7).unwrap().name, "Bea");
    assert_eq!(registry.lookup_voter(&"V2".to_string()).unwrap().identifier, "V2");
}

#[test]
fn created_records_hold_what_was_given() {
    let voter = create_voter("1234".to_string());
    assert_eq!(voter.identifier, "1234");
    assert!(!has_voted(&voter));
    assert_eq!(voter.choice_code, None);
    let candidate = create_candidate("Alfredo Martins".to_string(), 100, 3);
    assert_eq!(candidate.name, "Alfredo Martins");
    assert_eq!(candidate.num_votes, 100);
    assert_eq!(candidate.code, 3);
    let ballot = create_ballot("1234".to_string(), 2);
    assert_eq!(ballot.identifier, "1234");
    assert_eq!(ballot.choice_code, 2);
}

#[test]
fn copies_are_field_for_field() {
    let candidate = create_candidate("Bea".to_string(), 5, 7).duplicate();
    assert_eq!((candidate.name.as_str(), candidate.num_votes, candidate.code), ("Bea", 5, 7));
    let again = candidate.duplicate();
    assert_eq!((again.name, again.num_votes, again.code), (candidate.name, 5, 7));
}

#[test]
fn roll_keeps_the_order_of_registration() {
    let (_, registry) = two_candidates_three_voters();
    let names: Vec<&str> = registry.voters().iter().map(|v| v.identifier.as_str()).collect();
    assert_eq!(names, vec!["V1", "V2", "V3"]);
    let mut codes: Vec<u64> = registry.candidates().iter().map(|c| c.code).collect();
    codes.sort();
    assert_eq!(codes, vec![3, 7]);
    registry.validity();
}
