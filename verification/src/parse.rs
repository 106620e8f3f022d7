//! The text form of the candidate list and of the voter list: one record to
//! a line, its fields parted by commas.

use vstd::prelude::*;
use crate::model::candidate_view;
use crate::types::{Ballot, BallotView, Candidate, CandidateView};

verus! {

/// `String::push` of the standard library: the pushed character is appended,
/// and the characters before it stay as they were.
pub assume_specification[ String::push ](text: &mut String, c: char)
    ensures
        final(text)@ == old(text)@.push(c),
;

/// The characters of `text`, in order.
pub fn to_chars(text: &str) -> (chars: Vec<char>)
    ensures
        chars@ == text@,
{
    let mut chars: Vec<char> = Vec::new();
    for c in it: text.chars()
        invariant
            it.seq() == text@,
            chars@ == text@.subrange(0, it.index@ as int),
    {
        chars.push(c);
    }
    chars
}

/// The text made of the characters of `chars` from `from` up to `to`.
pub fn text_of(chars: &Vec<char>, from: usize, to: usize) -> (text: String)
    requires
        from <= to <= chars.len(),
    ensures
        text@ == chars@.subrange(from as int, to as int),
{
    let mut text = String::new();
    let mut i: usize = from;
    while i < to
        invariant
            from <= i <= to <= chars.len(),
            text@ == chars@.subrange(from as int, i as int),
        decreases to - i,
    {
        text.push(chars[i]);
        i += 1;
    }
    text
}

/// Whether `c` is white space: a character with the Unicode property
/// `White_Space`.
pub open spec fn is_space(c: char) -> bool {
    let n = c as u32;
    ||| 0x09 <= n <= 0x0D
    ||| n == 0x20
    ||| n == 0x85
    ||| n == 0xA0
    ||| n == 0x1680
    ||| 0x2000 <= n <= 0x200A
    ||| n == 0x2028
    ||| n == 0x2029
    ||| n == 0x202F
    ||| n == 0x205F
    ||| n == 0x3000
}

/// `text` without the white space it begins with.
pub open spec fn trim_start(text: Seq<char>) -> Seq<char>
    decreases text.len(),
{
    if text.len() > 0 && is_space(text[0]) {
        trim_start(text.drop_first())
    } else {
        text
    }
}

/// `text` without the white space it ends with.
pub open spec fn trim_end(text: Seq<char>) -> Seq<char>
    decreases text.len(),
{
    if text.len() > 0 && is_space(text.last()) {
        trim_end(text.drop_last())
    } else {
        text
    }
}

/// `text` without the white space around it.
pub open spec fn trim(text: Seq<char>) -> Seq<char> {
    trim_end(trim_start(text))
}

/// Whether `c` is white space.
pub fn is_whitespace(c: char) -> (space: bool)
    ensures
        space == is_space(c),
{
    let n: u32 = c as u32;
    (0x09 <= n && n <= 0x0D) || n == 0x20 || n == 0x85 || n == 0xA0 || n == 0x1680 || (0x2000 <= n
        && n <= 0x200A) || n == 0x2028 || n == 0x2029 || n == 0x202F || n == 0x205F || n == 0x3000
}

/// The bounds within `chars` of what is left of the part from `from` up to
/// `to` when the white space around it is taken off.
pub fn trim_bounds(chars: &Vec<char>, from: usize, to: usize) -> (bounds: (usize, usize))
    requires
        from <= to <= chars.len(),
    ensures
        from <= bounds.0 <= bounds.1 <= to,
        chars@.subrange(bounds.0 as int, bounds.1 as int) == trim(
            chars@.subrange(from as int, to as int),
        ),
{
    let mut start: usize = from;
    while start < to && is_whitespace(chars[start])
        invariant
            from <= start <= to <= chars.len(),
            trim_start(chars@.subrange(from as int, to as int)) == trim_start(
                chars@.subrange(start as int, to as int),
            ),
        decreases to - start,
    {
        assert(chars@.subrange(start as int, to as int).drop_first() =~= chars@.subrange(
            start + 1,
            to as int,
        ));
        start += 1;
    }
    let mut end: usize = to;
    while start < end && is_whitespace(chars[end - 1])
        invariant
            start <= end <= to <= chars.len(),
            trim_end(chars@.subrange(start as int, to as int)) == trim_end(
                chars@.subrange(start as int, end as int),
            ),
        decreases end - start,
    {
        assert(chars@.subrange(start as int, end as int).drop_last() =~= chars@.subrange(
            start as int,
            end - 1,
        ));
        end -= 1;
    }
    (start, end)
}

/// Whether `c` is one of the digits `0` to `9`.
pub open spec fn is_digit(c: char) -> bool {
    '0' <= c <= '9'
}

/// The number that the digit `c` stands for.
pub open spec fn digit_value(c: char) -> nat {
    (c as u32 - '0' as u32) as nat
}

/// Whether `text` holds digits only.
pub open spec fn all_digits(text: Seq<char>) -> bool {
    forall|i: int| 0 <= i < text.len() ==> is_digit(#[trigger] text[i])
}

/// The number written in decimal by the digits of `text`.
pub open spec fn decimal_value(text: Seq<char>) -> nat
    decreases text.len(),
{
    if text.len() == 0 {
        0
    } else {
        10 * decimal_value(text.drop_last()) + digit_value(text.last())
    }
}

/// The digits of a number in `text`: what follows a `+` sign, if `text`
/// begins with one, else the whole of it.
pub open spec fn unsigned_part(text: Seq<char>) -> Seq<char> {
    if text.len() > 0 && text[0] == '+' {
        text.drop_first()
    } else {
        text
    }
}

/// The number that `text` is the decimal form of: one or more digits, with
/// or without a `+` sign before them, whose value fits in 64 bits. Other
/// text stands for no number.
pub open spec fn parse_number(text: Seq<char>) -> Option<u64> {
    let digits = unsigned_part(text);
    if digits.len() > 0 && all_digits(digits) && decimal_value(digits) <= u64::MAX {
        Some(decimal_value(digits) as u64)
    } else {
        None
    }
}

/// More digits never make a smaller number.
pub proof fn lemma_decimal_value_grows(text: Seq<char>, shorter: int)
    requires
        0 <= shorter <= text.len(),
    ensures
        decimal_value(text.subrange(0, shorter)) <= decimal_value(text),
    decreases text.len() - shorter,
{
    if shorter == text.len() {
        assert(text.subrange(0, shorter) =~= text);
    } else {
        lemma_decimal_value_grows(text.drop_last(), shorter);
        assert(text.drop_last().subrange(0, shorter) =~= text.subrange(0, shorter));
    }
}

/// The number written by the characters of `chars` from `from` up to `to`.
pub fn number_in(chars: &Vec<char>, from: usize, to: usize) -> (number: Option<u64>)
    requires
        from <= to <= chars.len(),
    ensures
        number == parse_number(chars@.subrange(from as int, to as int)),
{
    let ghost text = chars@.subrange(from as int, to as int);
    let first: usize = if from < to && chars[from] == '+' {
        from + 1
    } else {
        from
    };
    let ghost digits = chars@.subrange(first as int, to as int);
    assert(digits =~= unsigned_part(text));
    if first == to {
        return None;
    }
    let mut value: u64 = 0;
    let mut i: usize = first;
    while i < to
        invariant
            from <= first <= i <= to <= chars.len(),
            digits == chars@.subrange(first as int, to as int),
            digits == unsigned_part(chars@.subrange(from as int, to as int)),
            all_digits(digits.subrange(0, i - first)),
            value == decimal_value(digits.subrange(0, i - first)),
        decreases to - i,
    {
        let c = chars[i];
        let ghost seen = digits.subrange(0, i - first + 1);
        assert(seen.drop_last() =~= digits.subrange(0, i - first));
        assert(seen.last() == c);
        if !('0' <= c && c <= '9') {
            assert(!is_digit(digits[i - first]));
            return None;
        }
        let d: u64 = (c as u32 - '0' as u32) as u64;
        proof {
            lemma_decimal_value_grows(digits, i - first + 1);
        }
        assert(decimal_value(seen) == 10 * value + d);
        if value > (u64::MAX - d) / 10 {
            return None;
        }
        value = value * 10 + d;
        i += 1;
        assert forall|k: int| 0 <= k < seen.len() implies is_digit(#[trigger] seen[k]) by {
            if k < seen.len() - 1 {
                assert(is_digit(digits.subrange(0, seen.len() - 1)[k]));
            }
        }
    }
    assert(digits.subrange(0, i - first) =~= digits);
    Some(value)
}

/// The pieces into which the separator `sep` parts `text`: one more than
/// there are separators, each without a separator in it, some perhaps empty.
pub open spec fn split(text: Seq<char>, sep: char) -> Seq<Seq<char>>
    decreases text.len(),
{
    if text.len() == 0 {
        seq![Seq::empty()]
    } else {
        let before = split(text.drop_last(), sep);
        if text.last() == sep {
            before.push(Seq::empty())
        } else {
            before.update(before.len() - 1, before.last().push(text.last()))
        }
    }
}

/// The pieces put together again, with `sep` between each two.
pub open spec fn join(pieces: Seq<Seq<char>>, sep: char) -> Seq<char>
    decreases pieces.len(),
{
    if pieces.len() == 0 {
        Seq::empty()
    } else if pieces.len() == 1 {
        pieces[0]
    } else {
        join(pieces.drop_last(), sep).push(sep) + pieces.last()
    }
}

/// How often `sep` occurs in `text`.
pub open spec fn occurrences(text: Seq<char>, sep: char) -> nat
    decreases text.len(),
{
    if text.len() == 0 {
        0
    } else {
        occurrences(text.drop_last(), sep) + if text.last() == sep {
            1nat
        } else {
            0nat
        }
    }
}

/// The pieces of a text are one more than its separators, none of them
/// holds a separator, and put together again they are the text.
pub proof fn law_split_parts(text: Seq<char>, sep: char)
    ensures
        split(text, sep).len() == occurrences(text, sep) + 1,
        forall|k: int, i: int|
            0 <= k < split(text, sep).len() && 0 <= i < split(text, sep)[k].len() ==> (
            #[trigger] split(text, sep)[k][i]) != sep,
        join(split(text, sep), sep) == text,
    decreases text.len(),
{
    let pieces = split(text, sep);
    if text.len() == 0 {
        assert(join(pieces, sep) =~= text);
    } else {
        let before = split(text.drop_last(), sep);
        law_split_parts(text.drop_last(), sep);
        if text.last() == sep {
            assert(pieces.drop_last() =~= before);
            assert(join(pieces, sep) =~= text);
        } else {
            if before.len() > 1 {
                assert(pieces.drop_last() =~= before.drop_last());
            }
            assert(join(pieces, sep) =~= join(before, sep).push(text.last()));
            assert(join(pieces, sep) =~= text);
        }
    }
}

/// Trimming the beginning takes off white space only, and all there is.
pub proof fn lemma_trim_start(text: Seq<char>)
    ensures
        trim_start(text).len() <= text.len(),
        trim_start(text) == text.subrange(
            text.len() - trim_start(text).len(),
            text.len() as int,
        ),
        forall|i: int| 0 <= i < text.len() - trim_start(text).len() ==> is_space(#[trigger] text[i]),
        trim_start(text).len() > 0 ==> !is_space(trim_start(text)[0]),
    decreases text.len(),
{
    if text.len() > 0 && is_space(text[0]) {
        let rest = text.drop_first();
        lemma_trim_start(rest);
        let kept = trim_start(rest);
        assert(kept =~= text.subrange(text.len() - kept.len(), text.len() as int));
        assert forall|i: int| 0 <= i < text.len() - kept.len() implies is_space(
            #[trigger] text[i],
        ) by {
            if i > 0 {
                assert(is_space(rest[i - 1]));
            }
        }
    } else {
        assert(text =~= text.subrange(0, text.len() as int));
    }
}

/// Trimming the end takes off white space only, and all there is.
pub proof fn lemma_trim_end(text: Seq<char>)
    ensures
        trim_end(text).len() <= text.len(),
        trim_end(text) == text.subrange(0, trim_end(text).len() as int),
        forall|i: int| trim_end(text).len() <= i < text.len() ==> is_space(#[trigger] text[i]),
        trim_end(text).len() > 0 ==> !is_space(trim_end(text).last()),
    decreases text.len(),
{
    if text.len() > 0 && is_space(text.last()) {
        let rest = text.drop_last();
        lemma_trim_end(rest);
        let kept = trim_end(rest);
        assert(kept =~= text.subrange(0, kept.len() as int));
        assert forall|i: int| kept.len() <= i < text.len() implies is_space(#[trigger] text[i]) by {
            if i < text.len() - 1 {
                assert(is_space(rest[i]));
            }
        }
    } else {
        assert(text =~= text.subrange(0, text.len() as int));
    }
}

/// What is left of a text after trimming is a stretch of it with white
/// space only before it and after it, and with none at its own ends.
pub proof fn law_trim_parts(text: Seq<char>)
    ensures
        exists|from: int, to: int|
            {
                &&& 0 <= from <= to <= text.len()
                &&& #[trigger] text.subrange(from, to) == trim(text)
                &&& forall|i: int| 0 <= i < from ==> is_space(#[trigger] text[i])
                &&& forall|i: int| to <= i < text.len() ==> is_space(#[trigger] text[i])
            },
        trim(text).len() > 0 ==> !is_space(trim(text)[0]) && !is_space(trim(text).last()),
{
    let tail = trim_start(text);
    let from = text.len() - tail.len();
    let to = from + trim(text).len();
    lemma_trim_start(text);
    lemma_trim_end(tail);
    assert(text.subrange(from, to) =~= trim(text));
    assert forall|i: int| to <= i < text.len() implies is_space(#[trigger] text[i]) by {
        assert(is_space(tail[i - from]));
    }
}

/// Whether `bounds` are the bounds within `chars` of the pieces `pieces`, all
/// of them between `from` and `to`.
pub open spec fn bounds_of(
    chars: Seq<char>,
    from: int,
    to: int,
    bounds: Seq<(usize, usize)>,
    pieces: Seq<Seq<char>>,
) -> bool {
    &&& bounds.len() == pieces.len()
    &&& forall|k: int|
        0 <= k < bounds.len() ==> from <= (#[trigger] bounds[k]).0 <= bounds[k].1 <= to
            && chars.subrange(bounds[k].0 as int, bounds[k].1 as int) == pieces[k]
}

/// The bounds within `chars` of the pieces into which `sep` parts the
/// characters from `from` up to `to`.
pub fn split_bounds(chars: &Vec<char>, from: usize, to: usize, sep: char) -> (bounds: Vec<
    (usize, usize),
>)
    requires
        from <= to <= chars.len(),
    ensures
        bounds_of(
            chars@,
            from as int,
            to as int,
            bounds@,
            split(chars@.subrange(from as int, to as int), sep),
        ),
{
    let mut bounds: Vec<(usize, usize)> = Vec::new();
    let mut start: usize = from;
    let mut i: usize = from;
    assert(chars@.subrange(from as int, from as int) =~= Seq::empty());
    while i < to
        invariant
            from <= start <= i <= to <= chars.len(),
            bounds_of(
                chars@,
                from as int,
                to as int,
                bounds@,
                split(chars@.subrange(from as int, i as int), sep).drop_last(),
            ),
            split(chars@.subrange(from as int, i as int), sep).len() >= 1,
            chars@.subrange(start as int, i as int) == split(
                chars@.subrange(from as int, i as int),
                sep,
            ).last(),
        decreases to - i,
    {
        let ghost seen = chars@.subrange(from as int, i as int);
        let ghost next = chars@.subrange(from as int, i + 1);
        let ghost pieces = split(seen, sep);
        assert(next.drop_last() =~= seen);
        assert(next.last() == chars@[i as int]);
        if chars[i] == sep {
            bounds.push((start, i));
            assert(split(next, sep) == pieces.push(Seq::empty()));
            assert(split(next, sep).drop_last() =~= pieces);
            assert forall|k: int| 0 <= k < bounds@.len() implies from <= (#[trigger] bounds@[k]).0
                <= bounds@[k].1 <= to && chars@.subrange(
                bounds@[k].0 as int,
                bounds@[k].1 as int,
            ) == pieces[k] by {
                if k < bounds@.len() - 1 {
                    assert(pieces.drop_last()[k] == pieces[k]);
                }
            }
            start = i + 1;
            assert(chars@.subrange(i + 1, i + 1) =~= Seq::empty());
        } else {
            assert(split(next, sep) == pieces.update(
                pieces.len() - 1,
                pieces.last().push(chars@[i as int]),
            ));
            assert(split(next, sep).drop_last() =~= pieces.drop_last());
            assert(chars@.subrange(start as int, i + 1) =~= chars@.subrange(
                start as int,
                i as int,
            ).push(chars@[i as int]));
        }
        i += 1;
    }
    let ghost pieces = split(chars@.subrange(from as int, to as int), sep);
    bounds.push((start, to));
    assert forall|k: int| 0 <= k < bounds@.len() implies from <= (#[trigger] bounds@[k]).0
        <= bounds@[k].1 <= to && chars@.subrange(bounds@[k].0 as int, bounds@[k].1 as int)
        == pieces[k] by {
        if k < bounds@.len() - 1 {
            assert(pieces.drop_last()[k] == pieces[k]);
        }
    }
    bounds
}

/// The candidate that `line` records: three fields parted by commas, which
/// without the white space around them are the name, the tally and the code,
/// both numbers. Any other line records none.
pub open spec fn candidate_of_line(line: Seq<char>) -> Option<CandidateView> {
    let fields = split(line, ',');
    if fields.len() == 3 && parse_number(trim(fields[1])) is Some && parse_number(
        trim(fields[2]),
    ) is Some {
        Some(
            CandidateView {
                name: trim(fields[0]),
                num_votes: parse_number(trim(fields[1]))->0,
                code: parse_number(trim(fields[2]))->0,
            },
        )
    } else {
        None
    }
}

/// The ballot that `line` records: two fields parted by a comma, which
/// without the white space around them are the voter's identifier and the
/// code chosen, a number. Any other line records none.
pub open spec fn ballot_of_line(line: Seq<char>) -> Option<BallotView> {
    let fields = split(line, ',');
    if fields.len() == 2 && parse_number(trim(fields[1])) is Some {
        Some(
            BallotView {
                identifier: trim(fields[0]),
                choice_code: parse_number(trim(fields[1]))->0,
            },
        )
    } else {
        None
    }
}

/// The ballot that an answer names, as it stands in contracts.
pub open spec fn ballot_view(ballot: Option<Ballot>) -> Option<BallotView> {
    match ballot {
        Some(b) => Some(b@),
        None => None,
    }
}

/// The candidates of a list, each as it stands in contracts.
pub open spec fn candidate_list(candidates: Seq<Candidate>) -> Seq<CandidateView> {
    candidates.map_values(|c: Candidate| c@)
}

/// The ballots of a list, each as it stands in contracts.
pub open spec fn ballot_list(ballots: Seq<Ballot>) -> Seq<BallotView> {
    ballots.map_values(|b: Ballot| b@)
}

/// The candidates that `lines` record, in the order of the lines; a line
/// that records none is passed over.
pub open spec fn candidates_of_lines(lines: Seq<Seq<char>>) -> Seq<CandidateView>
    decreases lines.len(),
{
    if lines.len() == 0 {
        Seq::empty()
    } else {
        let before = candidates_of_lines(lines.drop_last());
        match candidate_of_line(lines.last()) {
            Some(candidate) => before.push(candidate),
            None => before,
        }
    }
}

/// The ballots that `lines` record, in the order of the lines; a line that
/// records none is passed over.
pub open spec fn ballots_of_lines(lines: Seq<Seq<char>>) -> Seq<BallotView>
    decreases lines.len(),
{
    if lines.len() == 0 {
        Seq::empty()
    } else {
        let before = ballots_of_lines(lines.drop_last());
        match ballot_of_line(lines.last()) {
            Some(ballot) => before.push(ballot),
            None => before,
        }
    }
}

/// The candidate recorded by the characters of `chars` from `from` up to
/// `to`, taken as one line.
fn candidate_in(chars: &Vec<char>, from: usize, to: usize) -> (candidate: Option<Candidate>)
    requires
        from <= to <= chars.len(),
    ensures
        candidate_view(candidate) == candidate_of_line(chars@.subrange(from as int, to as int)),
{
    let fields = split_bounds(chars, from, to, ',');
    if fields.len() != 3 {
        return None;
    }
    let (name_from, name_to) = trim_bounds(chars, fields[0].0, fields[0].1);
    let (votes_from, votes_to) = trim_bounds(chars, fields[1].0, fields[1].1);
    let (code_from, code_to) = trim_bounds(chars, fields[2].0, fields[2].1);
    let num_votes = match number_in(chars, votes_from, votes_to) {
        Some(n) => n,
        None => {
            return None;
        },
    };
    let code = match number_in(chars, code_from, code_to) {
        Some(n) => n,
        None => {
            return None;
        },
    };
    let name = text_of(chars, name_from, name_to);
    Some(Candidate { name, num_votes, code })
}

/// The ballot recorded by the characters of `chars` from `from` up to `to`,
/// taken as one line.
fn ballot_in(chars: &Vec<char>, from: usize, to: usize) -> (ballot: Option<Ballot>)
    requires
        from <= to <= chars.len(),
    ensures
        ballot_view(ballot) == ballot_of_line(chars@.subrange(from as int, to as int)),
{
    let fields = split_bounds(chars, from, to, ',');
    if fields.len() != 2 {
        return None;
    }
    let (id_from, id_to) = trim_bounds(chars, fields[0].0, fields[0].1);
    let (code_from, code_to) = trim_bounds(chars, fields[1].0, fields[1].1);
    let choice_code = match number_in(chars, code_from, code_to) {
        Some(n) => n,
        None => {
            return None;
        },
    };
    let identifier = text_of(chars, id_from, id_to);
    Some(Ballot { identifier, choice_code })
}

/// Reads one line of a candidate list: `name, tally, code`.
pub fn parse_candidate(line: &str) -> (candidate: Option<Candidate>)
    ensures
        candidate_view(candidate) == candidate_of_line(line@),
{
    let chars = to_chars(line);
    assert(chars@.subrange(0, chars@.len() as int) =~= line@);
    candidate_in(&chars, 0, chars.len())
}

/// Reads one line of a voter list: `identifier, chosen code`.
pub fn parse_voters(line: &str) -> (ballot: Option<Ballot>)
    ensures
        ballot_view(ballot) == ballot_of_line(line@),
{
    let chars = to_chars(line);
    assert(chars@.subrange(0, chars@.len() as int) =~= line@);
    ballot_in(&chars, 0, chars.len())
}

/// Reads a candidate list, one record to a line; lines that record no
/// candidate are passed over. A line ends at a line feed; a carriage return
/// before it is white space at the end of the last field.
pub fn read_candidates(text: &str) -> (candidates: Vec<Candidate>)
    ensures
        candidate_list(candidates@) == candidates_of_lines(split(text@, '\n')),
{
    let chars = to_chars(text);
    assert(chars@.subrange(0, chars@.len() as int) =~= text@);
    let lines = split_bounds(&chars, 0, chars.len(), '\n');
    let ghost pieces = split(text@, '\n');
    let mut candidates: Vec<Candidate> = Vec::new();
    let mut k: usize = 0;
    assert(candidate_list(candidates@) =~= Seq::empty());
    while k < lines.len()
        invariant
            k <= lines.len(),
            bounds_of(chars@, 0, chars@.len() as int, lines@, pieces),
            candidate_list(candidates@) == candidates_of_lines(pieces.subrange(0, k as int)),
        decreases lines.len() - k,
    {
        let ghost before = candidate_list(candidates@);
        assert(pieces.subrange(0, k + 1).drop_last() =~= pieces.subrange(0, k as int));
        match candidate_in(&chars, lines[k].0, lines[k].1) {
            Some(candidate) => {
                candidates.push(candidate);
                assert(candidate_list(candidates@) =~= before.push(candidate@));
            },
            None => {},
        }
        k += 1;
    }
    assert(pieces.subrange(0, k as int) =~= pieces);
    candidates
}

/// Reads a voter list, one record to a line; lines that record no ballot
/// are passed over. A line ends at a line feed; a carriage return before it
/// is white space at the end of the last field.
pub fn read_voters(text: &str) -> (ballots: Vec<Ballot>)
    ensures
        ballot_list(ballots@) == ballots_of_lines(split(text@, '\n')),
{
    let chars = to_chars(text);
    assert(chars@.subrange(0, chars@.len() as int) =~= text@);
    let lines = split_bounds(&chars, 0, chars.len(), '\n');
    let ghost pieces = split(text@, '\n');
    let mut ballots: Vec<Ballot> = Vec::new();
    let mut k: usize = 0;
    assert(ballot_list(ballots@) =~= Seq::empty());
    while k < lines.len()
        invariant
            k <= lines.len(),
            bounds_of(chars@, 0, chars@.len() as int, lines@, pieces),
            ballot_list(ballots@) == ballots_of_lines(pieces.subrange(0, k as int)),
        decreases lines.len() - k,
    {
        let ghost before = ballot_list(ballots@);
        assert(pieces.subrange(0, k + 1).drop_last() =~= pieces.subrange(0, k as int));
        match ballot_in(&chars, lines[k].0, lines[k].1) {
            Some(ballot) => {
                ballots.push(ballot);
                assert(ballot_list(ballots@) =~= before.push(ballot@));
            },
            None => {},
        }
        k += 1;
    }
    assert(pieces.subrange(0, k as int) =~= pieces);
    ballots
}

} // verus!
