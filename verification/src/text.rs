//! The records written out for display: a candidate as `(name, tally, code)`,
//! a voter as `(identifier, chosen code)`.

use vstd::prelude::*;
use vstd::string::StringExecFns;
use crate::parse::{all_digits, decimal_value, digit_value, is_digit, parse_number, unsigned_part};
use crate::types::{Candidate, CandidateView, Voter, VoterView};

verus! {

/// The digit that stands for `d`, a number below ten.
pub open spec fn digit_char(d: nat) -> char {
    if d == 0 {
        '0'
    } else if d == 1 {
        '1'
    } else if d == 2 {
        '2'
    } else if d == 3 {
        '3'
    } else if d == 4 {
        '4'
    } else if d == 5 {
        '5'
    } else if d == 6 {
        '6'
    } else if d == 7 {
        '7'
    } else if d == 8 {
        '8'
    } else {
        '9'
    }
}

/// The decimal form of `n`: its digits, the first of them not `0` unless
/// `n` is 0.
pub open spec fn decimal_text(n: nat) -> Seq<char>
    decreases n,
{
    if n < 10 {
        seq![digit_char(n)]
    } else {
        decimal_text(n / 10).push(digit_char(n % 10))
    }
}

/// A candidate written out: `(name, tally, code)`.
pub open spec fn candidate_text(candidate: CandidateView) -> Seq<char> {
    seq!['('] + candidate.name + seq![',', ' '] + decimal_text(candidate.num_votes as nat) + seq![
        ',',
        ' ',
    ] + decimal_text(candidate.code as nat) + seq![')']
}

/// A voter written out: `(identifier, chosen code)`, with `-` for the code
/// of a voter who has not chosen.
pub open spec fn voter_text(voter: VoterView) -> Seq<char> {
    seq!['('] + voter.identifier + seq![',', ' '] + (match voter.choice_code {
        Some(code) => decimal_text(code as nat),
        None => seq!['-'],
    }) + seq![')']
}

/// A number written in decimal is read back as that number.
pub proof fn law_number_reads_back(n: u64)
    ensures
        parse_number(decimal_text(n as nat)) == Some(n),
{
    lemma_decimal_text(n as nat);
    assert(unsigned_part(decimal_text(n as nat)) == decimal_text(n as nat));
}

/// The decimal form of a number is one digit or more, digits only, and
/// stands for the number.
pub proof fn lemma_decimal_text(n: nat)
    ensures
        decimal_text(n).len() >= 1,
        all_digits(decimal_text(n)),
        decimal_value(decimal_text(n)) == n,
    decreases n,
{
    let text = decimal_text(n);
    if n < 10 {
        assert(text.drop_last() =~= Seq::empty());
        assert(decimal_value(text.drop_last()) == 0);
        assert(digit_value(digit_char(n)) == n);
    } else {
        lemma_decimal_text(n / 10);
        assert(text.drop_last() =~= decimal_text(n / 10));
        assert(digit_value(digit_char(n % 10)) == n % 10);
        assert forall|i: int| 0 <= i < text.len() implies is_digit(#[trigger] text[i]) by {
            if i < text.len() - 1 {
                assert(is_digit(decimal_text(n / 10)[i]));
            }
        }
    }
}

/// The digit that stands for `d`.
fn digit_of(d: u64) -> (c: char)
    requires
        d < 10,
    ensures
        c == digit_char(d as nat),
{
    if d == 0 {
        '0'
    } else if d == 1 {
        '1'
    } else if d == 2 {
        '2'
    } else if d == 3 {
        '3'
    } else if d == 4 {
        '4'
    } else if d == 5 {
        '5'
    } else if d == 6 {
        '6'
    } else if d == 7 {
        '7'
    } else if d == 8 {
        '8'
    } else {
        '9'
    }
}

/// Writes `n` in decimal at the end of `text`.
pub fn push_number(text: &mut String, n: u64)
    ensures
        final(text)@ == old(text)@ + decimal_text(n as nat),
{
    let mut later: Vec<char> = Vec::new();
    let mut rest: u64 = n;
    while rest >= 10
        invariant
            decimal_text(n as nat) == decimal_text(rest as nat) + later@.reverse(),
        decreases rest,
    {
        let ghost before = later@;
        let digit = digit_of(rest % 10);
        later.push(digit);
        assert(later@.reverse() =~= seq![digit] + before.reverse());
        assert(decimal_text(rest as nat) == decimal_text((rest / 10) as nat).push(digit));
        assert(decimal_text((rest / 10) as nat).push(digit) + before.reverse() =~= decimal_text(
            (rest / 10) as nat,
        ) + later@.reverse());
        rest = rest / 10;
    }
    text.push(digit_of(rest));
    let mut i: usize = later.len();
    while i > 0
        invariant
            i <= later.len(),
            text@ == old(text)@ + decimal_text(rest as nat) + later@.reverse().subrange(
                0,
                later.len() - i,
            ),
        decreases i,
    {
        i -= 1;
        text.push(later[i]);
        assert(later@.reverse().subrange(0, later.len() - i) =~= later@.reverse().subrange(
            0,
            later.len() - i - 1,
        ).push(later@[i as int]));
    }
    assert(later@.reverse().subrange(0, later.len() as int) =~= later@.reverse());
    assert(old(text)@ + decimal_text(rest as nat) + later@.reverse() =~= old(text)@ + (
    decimal_text(rest as nat) + later@.reverse()));
}

impl Candidate {
    /// This candidate written out: `(name, tally, code)`.
    pub fn to_text(&self) -> (text: String)
        ensures
            text@ == candidate_text(self@),
    {
        let mut text = String::new();
        text.push('(');
        text.append(self.name.as_str());
        text.push(',');
        text.push(' ');
        push_number(&mut text, self.num_votes);
        text.push(',');
        text.push(' ');
        push_number(&mut text, self.code);
        text.push(')');
        assert(text@ =~= candidate_text(self@));
        text
    }
}

impl Voter {
    /// This voter written out: `(identifier, chosen code)`, with `-` for
    /// the code of a voter who has not chosen.
    pub fn to_text(&self) -> (text: String)
        ensures
            text@ == voter_text(self@),
    {
        let mut text = String::new();
        text.push('(');
        text.append(self.identifier.as_str());
        text.push(',');
        text.push(' ');
        match self.choice_code {
            Some(code) => {
                push_number(&mut text, code);
            },
            None => {
                text.push('-');
            },
        }
        text.push(')');
        assert(text@ =~= voter_text(self@));
        text
    }
}

} // verus!
