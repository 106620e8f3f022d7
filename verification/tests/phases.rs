use election_ledger::phase::{
    announce_election, apply_event, end_election, open_voting, start_election, transition,
    ElectionEvent, ElectionState,
};
use election_ledger::registry::{add_candidate, add_voter, give_right_to_vote, place_vote, Registry};
use election_ledger::types::{create_ballot, create_candidate, create_voter, ElectionError};

const STATES: [ElectionState; 4] = [
    ElectionState::Announced,
    ElectionState::Started,
    ElectionState::Happening,
    ElectionState::Ended,
];

const EVENTS: [ElectionEvent; 3] = [ElectionEvent::Start, ElectionEvent::Open, ElectionEvent::Close];

#[test]
fn the_course_of_an_election() {
    let mut state = announce_election();
    assert_eq!(state, ElectionState::Announced);
    assert_eq!(start_election(&mut state), Ok(()));
    assert_eq!(state, ElectionState::Started);
    assert_eq!(open_voting(&mut state), Ok(()));
    assert_eq!(state, ElectionState::Happening);
    assert_eq!(end_election(&mut state), Ok(()));
    assert_eq!(state, ElectionState::Ended);
}

#[test]
fn announced_cannot_open_or_close() {
    let mut state = announce_election();
    assert_eq!(open_voting(&mut state), Err(ElectionError::IllegalTransition));
    assert_eq!(state, ElectionState::Announced);
    assert_eq!(end_election(&mut state), Err(ElectionError::IllegalTransition));
    assert_eq!(state, ElectionState::Announced);
}

#[test]
fn every_pair_of_phase_and_event() {
    for (i, state) in STATES.iter().enumerate() {
        for (j, event) in EVENTS.iter().enumerate() {
            let result = transition(*state, *event);
            if i == j {
                assert_eq!(result, Ok(STATES[i + 1]));
            } else {
                assert_eq!(result, Err(ElectionError::IllegalTransition));
            }
            let mut changed = *state;
            let applied = apply_event(&mut changed, *event);
            if i == j {
                assert_eq!(applied, Ok(()));
                assert_eq!(changed, STATES[i + 1]);
            } else {
                assert_eq!(applied, Err(ElectionError::IllegalTransition));
                assert_eq!(changed, *state);
            }
        }
    }
}

#[test]
fn no_phase_is_entered_twice() {
    let mut state = announce_election();
    assert_eq!(start_election(&mut state), Ok(()));
    assert_eq!(start_election(&mut state), Err(ElectionError::IllegalTransition));
    assert_eq!(open_voting(&mut state), Ok(()));
    assert_eq!(open_voting(&mut state), Err(ElectionError::IllegalTransition));
    assert_eq!(start_election(&mut state), Err(ElectionError::IllegalTransition));
    assert_eq!(end_election(&mut state), Ok(()));
    for event in EVENTS {
        assert_eq!(apply_event(&mut state, event), Err(ElectionError::IllegalTransition));
        assert_eq!(state, ElectionState::Ended);
    }
}

#[test]
fn registration_is_open_before_voting_only() {
    for state in STATES {
        let mut registry = Registry::new();
        let open = state == ElectionState::Announced || state == ElectionState::Started;
        let expected = if open { Ok(()) } else { Err(ElectionError::RegistrationClosed) };
        assert_eq!(add_candidate(create_candidate("A".to_string(), 0, 1), &state, &mut registry), expected);
        assert_eq!(give_right_to_vote("V1".to_string(), &state, &mut registry), expected);
        assert_eq!(add_voter(create_voter("V2".to_string()), &state, &mut registry), expected);
        assert_eq!(registry.candidates().len(), if open { 1 } else { 0 });
        assert_eq!(registry.voters().len(), if open { 2 } else { 0 });
    }
}

#[test]
fn registration_closed_comes_before_duplicate() {
    let mut registry = Registry::new();
    let announced = ElectionState::Announced;
    assert_eq!(add_candidate(create_candidate("A".to_string(), 0, 1), &announced, &mut registry), Ok(()));
    assert_eq!(give_right_to_vote("V1".to_string(), &announced, &mut registry), Ok(()));
    let ended = ElectionState::Ended;
    assert_eq!(
        add_candidate(create_candidate("A".to_string(), 0, 1), &ended, &mut registry),
        Err(ElectionError::RegistrationClosed)
    );
    assert_eq!(
        give_right_to_vote("V1".to_string(), &ended, &mut registry),
        Err(ElectionError::RegistrationClosed)
    );
}

#[test]
fn ballots_are_counted_while_voting_is_open_only() {
    for state in STATES {
        let mut registry = Registry::new();
        assert_eq!(registry.register_candidate(create_candidate("A".to_string(), 0, 1)), Ok(()));
        assert_eq!(registry.register_voter("V1".to_string()), Ok(()));
        let result = place_vote(&create_ballot("V1".to_string(), 1), &mut registry, &state);
        if state == ElectionState::Happening {
            assert_eq!(result, Ok(()));
            assert_eq!(registry.lookup_candidate(1).unwrap().num_votes, 1);
        } else {
            assert_eq!(result, Err(ElectionError::VotingNotOpen));
            assert_eq!(registry.lookup_candidate(1).unwrap().num_votes, 0);
            assert!(!registry.lookup_voter(&"V1".to_string()).unwrap().has_voted);
        }
    }
}

#[test]
fn voting_not_open_comes_before_the_other_refusals() {
    let mut registry = Registry::new();
    let result = place_vote(&create_ballot("nobody".to_string(), 1), &mut registry, &ElectionState::Started);
    assert_eq!(result, Err(ElectionError::VotingNotOpen));
}
