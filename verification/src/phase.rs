//! The phases of an election and the events that lead from one to the next.

use vstd::prelude::*;
use crate::types::ElectionError;

verus! {

/// The phase an election is in. An election is announced, then started, then
/// voting happens, then it has ended; no phase is entered twice.
#[derive(Clone, Copy, Debug, PartialEq, Eq, Structural)]
pub enum ElectionState {
    Announced,
    Started,
    Happening,
    Ended,
}

/// What moves an election from one phase to the next.
#[derive(Clone, Copy, Debug, PartialEq, Eq, Structural)]
pub enum ElectionEvent {
    /// Leads from `Announced` to `Started`.
    Start,
    /// Leads from `Started` to `Happening`.
    Open,
    /// Leads from `Happening` to `Ended`.
    Close,
}

impl ElectionState {
    /// The place of a phase in the course of an election, counted from 0.
    pub open spec fn rank(self) -> nat {
        match self {
            ElectionState::Announced => 0,
            ElectionState::Started => 1,
            ElectionState::Happening => 2,
            ElectionState::Ended => 3,
        }
    }

    /// The phase that `event` leads to from this one, if it leads anywhere.
    pub open spec fn next(self, event: ElectionEvent) -> Option<ElectionState> {
        match (self, event) {
            (ElectionState::Announced, ElectionEvent::Start) => Some(ElectionState::Started),
            (ElectionState::Started, ElectionEvent::Open) => Some(ElectionState::Happening),
            (ElectionState::Happening, ElectionEvent::Close) => Some(ElectionState::Ended),
            _ => None,
        }
    }

    /// Whether candidates and voters may be registered in this phase.
    pub open spec fn registration_open(self) -> bool {
        self == ElectionState::Announced || self == ElectionState::Started
    }

    /// Whether ballots are counted in this phase.
    pub open spec fn voting_open(self) -> bool {
        self == ElectionState::Happening
    }

    /// The phase reached from this one by `events` in order, if each of them
    /// is legal where it arrives.
    pub open spec fn run(self, events: Seq<ElectionEvent>) -> Option<ElectionState>
        decreases events.len(),
    {
        if events.len() == 0 {
            Some(self)
        } else {
            match self.next(events[0]) {
                Some(phase) => phase.run(events.drop_first()),
                None => None,
            }
        }
    }
}

/// What `event` does to an election in phase `state`: the new phase, or
/// `IllegalTransition` where the event does not belong to that phase.
pub open spec fn transition_result(state: ElectionState, event: ElectionEvent) -> Result<
    ElectionState,
    ElectionError,
> {
    match state.next(event) {
        Some(phase) => Ok(phase),
        None => Err(ElectionError::IllegalTransition),
    }
}

/// The phase that `event` leads to from `state`, or `IllegalTransition`.
pub fn transition(state: ElectionState, event: ElectionEvent) -> (result: Result<
    ElectionState,
    ElectionError,
>)
    ensures
        result == transition_result(state, event),
{
    match (state, event) {
        (ElectionState::Announced, ElectionEvent::Start) => Ok(ElectionState::Started),
        (ElectionState::Started, ElectionEvent::Open) => Ok(ElectionState::Happening),
        (ElectionState::Happening, ElectionEvent::Close) => Ok(ElectionState::Ended),
        _ => Err(ElectionError::IllegalTransition),
    }
}

/// Applies `event` to `state` in place; on refusal the phase stays as it was.
pub fn apply_event(state: &mut ElectionState, event: ElectionEvent) -> (result: Result<
    (),
    ElectionError,
>)
    ensures
        match transition_result(*old(state), event) {
            Ok(phase) => result is Ok && *final(state) == phase,
            Err(error) => result == Err::<(), ElectionError>(error) && *final(state) == *old(state),
        },
{
    match transition(*state, event) {
        Ok(phase) => {
            *state = phase;
            Ok(())
        },
        Err(error) => Err(error),
    }
}

/// The phase in which every election begins.
pub fn announce_election() -> (state: ElectionState)
    ensures
        state == ElectionState::Announced,
{
    ElectionState::Announced
}

/// Starts an announced election.
pub fn start_election(state: &mut ElectionState) -> (result: Result<(), ElectionError>)
    ensures
        *old(state) == ElectionState::Announced ==> result is Ok && *final(state)
            == ElectionState::Started,
        *old(state) != ElectionState::Announced ==> result == Err::<(), ElectionError>(
            ElectionError::IllegalTransition,
        ) && *final(state) == *old(state),
{
    apply_event(state, ElectionEvent::Start)
}

/// Opens the voting of a started election.
pub fn open_voting(state: &mut ElectionState) -> (result: Result<(), ElectionError>)
    ensures
        *old(state) == ElectionState::Started ==> result is Ok && *final(state)
            == ElectionState::Happening,
        *old(state) != ElectionState::Started ==> result == Err::<(), ElectionError>(
            ElectionError::IllegalTransition,
        ) && *final(state) == *old(state),
{
    apply_event(state, ElectionEvent::Open)
}

/// Closes the voting and ends the election.
pub fn end_election(state: &mut ElectionState) -> (result: Result<(), ElectionError>)
    ensures
        *old(state) == ElectionState::Happening ==> result is Ok && *final(state)
            == ElectionState::Ended,
        *old(state) != ElectionState::Happening ==> result == Err::<(), ElectionError>(
            ElectionError::IllegalTransition,
        ) && *final(state) == *old(state),
{
    apply_event(state, ElectionEvent::Close)
}

} // verus!
