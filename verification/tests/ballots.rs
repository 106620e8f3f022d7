use election_ledger::intake::{add_candidates, add_voters, place_votes};
use election_ledger::phase::ElectionState;
use election_ledger::registry::{place_vote, Registry};
use election_ledger::types::{create_ballot, create_candidate, Ballot, ElectionError};

const OPEN: ElectionState = ElectionState::Happening;

fn registry_with(candidates: &[(&str, u64, u64)], voters: &[&str]) -> Registry {
    let mut registry = Registry::new();
    for (name, votes, code) in candidates {
        assert_eq!(registry.register_candidate(create_candidate(name.to_string(), *votes, *code)), Ok(()));
    }
    for id in voters {
        assert_eq!(registry.register_voter(id.to_string()), Ok(()));
    }
    registry
}

fn total_votes(registry: &Registry) -> u64 {
    registry.candidates().iter().map(|c| c.num_votes).sum()
}

fn ballots_counted(registry: &Registry) -> usize {
    registry.voters().iter().filter(|v| v.has_voted).count()
}

fn ballot(id: &str, code: u64) -> Ballot {
    create_ballot(id.to_string(), code)
}

#[test]
fn unknown_voter_is_refused() {
    let mut registry = registry_with(&[("A", 0, 1)], &["V1"]);
    assert_eq!(place_vote(&ballot("V2", 1), &mut registry, &OPEN), Err(ElectionError::VoterNotRegistered));
    assert_eq!(total_votes(&registry), 0);
    assert_eq!(ballots_counted(&registry), 0);
}

#[test]
fn unknown_candidate_is_refused_and_the_voter_may_vote_again() {
    let mut registry = registry_with(&[("A", 0, 1)], &["V1"]);
    assert_eq!(place_vote(&ballot("V1", 2), &mut registry, &OPEN), Err(ElectionError::CandidateNotFound));
    let voter = registry.lookup_voter(&"V1".to_string()).unwrap();
    assert!(!voter.has_voted);
    assert_eq!(voter.choice_code, None);
    assert_eq!(place_vote(&ballot("V1", 1), &mut registry, &OPEN), Ok(()));
    assert_eq!(registry.lookup_candidate(1).unwrap().num_votes, 1);
}

#[test]
fn unknown_voter_comes_before_unknown_candidate() {
    let mut registry = registry_with(&[("A", 0, 1)], &["V1"]);
    assert_eq!(place_vote(&ballot("V2", 2), &mut registry, &OPEN), Err(ElectionError::VoterNotRegistered));
}

#[test]
fn already_voted_comes_before_unknown_candidate() {
    let mut registry = registry_with(&[("A", 0, 1)], &["V1"]);
    assert_eq!(place_vote(&ballot("V1", 1), &mut registry, &OPEN), Ok(()));
    assert_eq!(place_vote(&ballot("V1", 2), &mut registry, &OPEN), Err(ElectionError::AlreadyVoted));
}

#[test]
fn a_vote_for_code_zero_counts_as_a_vote() {
    let mut registry = registry_with(&[("Zero", 0, 0)], &["V1"]);
    assert_eq!(place_vote(&ballot("V1", 0), &mut registry, &OPEN), Ok(()));
    let voter = registry.lookup_voter(&"V1".to_string()).unwrap();
    assert!(voter.has_voted);
    assert_eq!(voter.choice_code, Some(0));
    assert_eq!(place_vote(&ballot("V1", 0), &mut registry, &OPEN), Err(ElectionError::AlreadyVoted));
    assert_eq!(registry.lookup_candidate(0).unwrap().num_votes, 1);
}

#[test]
fn a_full_tally_refuses_the_ballot() {
    let mut registry = registry_with(&[("Full", u64::MAX, 1), ("Near", u64::MAX - 1, 2)], &["V1", "V2", "V3"]);
    assert_eq!(place_vote(&ballot("V1", 1), &mut registry, &OPEN), Err(ElectionError::TallyOverflow));
    assert_eq!(registry.lookup_candidate(1).unwrap().num_votes, u64::MAX);
    assert!(!registry.lookup_voter(&"V1".to_string()).unwrap().has_voted);
    assert_eq!(place_vote(&ballot("V1", 2), &mut registry, &OPEN), Ok(()));
    assert_eq!(registry.lookup_candidate(2).unwrap().num_votes, u64::MAX);
    assert_eq!(place_vote(&ballot("V2", 2), &mut registry, &OPEN), Err(ElectionError::TallyOverflow));
}

#[test]
fn a_counted_ballot_changes_one_tally_and_one_record() {
    let mut registry = registry_with(&[("A", 0, 1), ("B", 5, 2), ("C", 0, 3)], &["V1", "V2", "V3"]);
    assert_eq!(place_vote(&ballot("V2", 2), &mut registry, &OPEN), Ok(()));
    assert_eq!(registry.lookup_candidate(1).unwrap().num_votes, 0);
    assert_eq!(registry.lookup_candidate(2).unwrap().num_votes, 6);
    assert_eq!(registry.lookup_candidate(2).unwrap().name, "B");
    assert_eq!(registry.lookup_candidate(2).unwrap().code, 2);
    assert_eq!(registry.lookup_candidate(3).unwrap().num_votes, 0);
    let roll = registry.voters();
    assert_eq!(roll.len(), 3);
    assert_eq!((roll[0].identifier.as_str(), roll[0].has_voted, roll[0].choice_code), ("V1", false, None));
    assert_eq!((roll[1].identifier.as_str(), roll[1].has_voted, roll[1].choice_code), ("V2", true, Some(2)));
    assert_eq!((roll[2].identifier.as_str(), roll[2].has_voted, roll[2].choice_code), ("V3", false, None));
}

#[test]
fn votes_are_as_many_as_voters_who_voted() {
    let mut registry = registry_with(&[("A", 0, 3), ("B", 0, 7), ("C", 0, 9)], &["V1", "V2", "V3", "V4", "V5"]);
    let handed_in = [
        ("V1", 3),
        ("V1", 7),
        ("V9", 3),
        ("V2", 8),
        ("V2", 7),
        ("V3", 3),
        ("V3", 3),
        ("V1", 9),
        ("V5", 9),
    ];
    let mut accepted = 0;
    for (id, code) in handed_in {
        if place_vote(&ballot(id, code), &mut registry, &OPEN).is_ok() {
            accepted += 1;
        }
        assert_eq!(total_votes(&registry), accepted);
        assert_eq!(ballots_counted(&registry) as u64, accepted);
    }
    assert_eq!(accepted, 4);
    assert_eq!(registry.lookup_candidate(3).unwrap().num_votes, 2);
    assert_eq!(registry.lookup_candidate(7).unwrap().num_votes, 1);
    assert_eq!(registry.lookup_candidate(9).unwrap().num_votes, 1);
}

#[test]
fn votes_grow_by_the_ballots_counted_where_tallies_begin_above_zero() {
    let mut registry = registry_with(&[("A", 100, 3), ("B", 40, 7)], &["V1", "V2"]);
    let counted = place_votes(&vec![ballot("V1", 3), ballot("V2", 3), ballot("V1", 7)], &mut registry, &OPEN);
    assert_eq!(counted, 2);
    assert_eq!(total_votes(&registry), 142);
    assert_eq!(ballots_counted(&registry), 2);
}

#[test]
fn a_voter_changes_the_tallies_once_however_often_they_try() {
    let mut registry = registry_with(&[("A", 0, 3), ("B", 0, 7)], &["V1", "V2"]);
    assert_eq!(place_vote(&ballot("V1", 3), &mut registry, &OPEN), Ok(()));
    for round in 0..20u64 {
        let code = if round % 2 == 0 { 7 } else { 3 };
        assert_eq!(place_vote(&ballot("V1", code), &mut registry, &OPEN), Err(ElectionError::AlreadyVoted));
        if round == 10 {
            assert_eq!(place_vote(&ballot("V2", 7), &mut registry, &OPEN), Ok(()));
        }
    }
    assert_eq!(registry.lookup_candidate(3).unwrap().num_votes, 1);
    assert_eq!(registry.lookup_candidate(7).unwrap().num_votes, 1);
    assert_eq!(registry.lookup_voter(&"V1".to_string()).unwrap().choice_code, Some(3));
}

#[test]
fn lists_are_taken_in_item_by_item() {
    let mut registry = Registry::new();
    let announced = ElectionState::Announced;
    let candidates = vec![
        create_candidate("A".to_string(), 0, 3),
        create_candidate("B".to_string(), 0, 7),
        create_candidate("A again".to_string(), 9, 3),
        create_candidate("C".to_string(), 0, 1),
    ];
    assert_eq!(add_candidates(&candidates, &announced, &mut registry), 3);
    assert_eq!(registry.lookup_candidate(3).unwrap().name, "A");
    assert_eq!(registry.lookup_candidate(3).unwrap().num_votes, 0);
    let ballots = vec![ballot("V1", 3), ballot("V2", 7), ballot("V1", 7), ballot("V3", 4)];
    assert_eq!(add_voters(&ballots, &announced, &mut registry), 3);
    let names: Vec<&str> = registry.voters().iter().map(|v| v.identifier.as_str()).collect();
    assert_eq!(names, vec!["V1", "V2", "V3"]);
    assert_eq!(place_votes(&ballots, &mut registry, &ElectionState::Started), 0);
    assert_eq!(total_votes(&registry), 0);
    assert_eq!(place_votes(&ballots, &mut registry, &OPEN), 2);
    assert_eq!(registry.lookup_candidate(3).unwrap().num_votes, 1);
    assert_eq!(registry.lookup_candidate(7).unwrap().num_votes, 1);
    assert_eq!(registry.lookup_candidate(1).unwrap().num_votes, 0);
    assert!(!registry.lookup_voter(&"V3".to_string()).unwrap().has_voted);
    assert_eq!(add_candidates(&candidates, &OPEN, &mut registry), 0);
    assert_eq!(add_voters(&vec![ballot("V7", 1)], &ElectionState::Ended, &mut registry), 0);
    assert_eq!(registry.voters().len(), 3);
}
