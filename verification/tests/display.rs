use election_ledger::parse::{number_in, to_chars};
use election_ledger::phase::ElectionState;
use election_ledger::registry::{place_vote, Registry};
use election_ledger::text::push_number;
use election_ledger::types::{create_ballot, create_candidate, create_voter};

#[test]
fn candidate_is_written_as_name_tally_code() {
    let candidate = create_candidate("Alfredo Martins".to_string(), 100, 3);
    assert_eq!(candidate.to_text(), "(Alfredo Martins, 100, 3)");
    assert_eq!(create_candidate("".to_string(), 0, 0).to_text(), "(, 0, 0)");
    assert_eq!(
        create_candidate("Zoë".to_string(), u64::MAX, 10).to_text(),
        "(Zoë, 18446744073709551615, 10)"
    );
}

#[test]
fn voter_is_written_as_identifier_and_choice() {
    let voter = create_voter("1234".to_string());
    assert_eq!(voter.to_text(), "(1234, -)");
    let mut registry = Registry::new();
    assert_eq!(registry.register_candidate(create_candidate("Bea".to_string(), 0, 2)), Ok(()));
    assert_eq!(registry.register_voter("1234".to_string()), Ok(()));
    assert_eq!(
        place_vote(&create_ballot("1234".to_string(), 2), &mut registry, &ElectionState::Happening),
        Ok(())
    );
    assert_eq!(registry.lookup_voter(&"1234".to_string()).unwrap().to_text(), "(1234, 2)");
    assert_eq!(registry.lookup_candidate(2).unwrap().to_text(), "(Bea, 1, 2)");
}

#[test]
fn numbers_are_written_as_the_standard_library_writes_them() {
    let mut samples: Vec<u64> = vec![0, 1, 9, 10, 11, 99, 100, 101, 1000, 12345, u64::MAX - 1, u64::MAX];
    let mut power: u64 = 1;
    for _ in 0..19 {
        power *= 10;
        samples.push(power - 1);
        samples.push(power);
        samples.push(power + 1);
    }
    for n in samples {
        let mut text = String::from("n=");
        push_number(&mut text, n);
        assert_eq!(text, format!("n={}", n));
    }
}

#[test]
fn a_number_written_is_read_back() {
    for n in [0u64, 7, 10, 42, 1_000_000, u64::MAX] {
        let mut text = String::new();
        push_number(&mut text, n);
        let chars = to_chars(&text);
        assert_eq!(number_in(&chars, 0, chars.len()), Some(n));
    }
}
