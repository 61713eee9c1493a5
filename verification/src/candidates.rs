//! Where the candidates of a scan come from: a list that the caller wrote
//! out, or the generator.

use vstd::prelude::*;
use vstd::string::*;

use crate::generator::{
    alphabet, candidate_count, combination_count, combinations, generate_combinations,
};
use crate::text::{find_from, leading_run, other_than, texts, trimmed, trimmed_part};

verus! {

/// The pieces into which the separator cuts `text`. A text without the
/// separator is one piece, the empty text too; between two separators that
/// touch lies an empty piece.
pub open spec fn split_on(text: Seq<char>, separator: char) -> Seq<Seq<char>>
    decreases text.len(),
{
    let at = leading_run(text, other_than(separator));
    if at >= text.len() {
        seq![text]
    } else {
        seq![text.subrange(0, at as int)] + split_on(text.skip(at as int + 1), separator)
    }
}

/// Each of the pieces without the white space at its two ends.
pub open spec fn all_trimmed(pieces: Seq<Seq<char>>) -> Seq<Seq<char>> {
    Seq::new(pieces.len(), |i: int| trimmed(pieces[i]))
}

/// The candidates that a comma-separated list names.
pub open spec fn listed_candidates(list: Seq<char>) -> Seq<Seq<char>> {
    all_trimmed(split_on(list, ','))
}

/// The candidates that a comma-separated list names: the pieces between
/// the commas, each without the white space around it, in their order.
pub fn parse_candidate_list(list: &str) -> (candidates: Vec<String>)
    ensures
        texts(candidates@) == listed_candidates(list@),
{
    let len: usize = list.unicode_len();
    let mut candidates: Vec<String> = Vec::new();
    let mut from: usize = 0;
    assert(list@.skip(0) =~= list@);
    assert(texts(candidates@) + listed_candidates(list@) =~= listed_candidates(list@));
    loop
        invariant_except_break
            from <= len,
            len == list@.len(),
            texts(candidates@) + listed_candidates(list@.skip(from as int)) == listed_candidates(
                list@,
            ),
        ensures
            texts(candidates@) == listed_candidates(list@),
        decreases len - from,
    {
        let at = find_from(list, from, ',');
        let piece = trimmed_part(list, from, at);
        let ghost rest = list@.skip(from as int);
        let ghost before = texts(candidates@);
        proof {
            assert(rest.subrange(0, at - from) =~= list@.subrange(from as int, at as int));
        }
        candidates.push(piece);
        assert(texts(candidates@) =~= before.push(piece@));
        if at >= len {
            proof {
                assert(rest.subrange(0, rest.len() as int) =~= rest);
                assert(split_on(rest, ',') =~= seq![rest]);
                assert(listed_candidates(rest) =~= seq![piece@]);
                assert(texts(candidates@) =~= before + listed_candidates(rest));
            }
            break ;
        }
        proof {
            assert(rest.skip(at - from + 1) =~= list@.skip(at + 1));
            let tail = split_on(list@.skip(at + 1), ',');
            assert(split_on(rest, ',') =~= seq![rest.subrange(0, at - from)] + tail);
            assert(listed_candidates(rest) =~= seq![piece@] + listed_candidates(
                list@.skip(at + 1),
            ));
            assert(texts(candidates@) + listed_candidates(list@.skip(at + 1)) =~= before
                + listed_candidates(rest));
        }
        from = at + 1;
    }
    candidates
}

/// The candidates of a scan, as mathematical values: those of the list
/// where one is given, else the generated ones.
pub open spec fn chosen_candidates(
    list: Option<Seq<char>>,
    length: nat,
    letters_only: bool,
    numbers_only: bool,
) -> Seq<Seq<char>> {
    match list {
        Some(text) => listed_candidates(text),
        None => combinations(length, letters_only, numbers_only),
    }
}

/// The candidates of a scan: those that `list` names where one is given,
/// else every string of `length` symbols over the chosen alphabet. `None`
/// where there is no list and the number of generated candidates does not
/// fit in a `usize`.
pub fn select_candidates(
    list: Option<&str>,
    length: u8,
    letters_only: bool,
    numbers_only: bool,
) -> (candidates: Option<Vec<String>>)
    ensures
        candidates is None <==> list is None && candidate_count(
            alphabet(letters_only, numbers_only),
            length as nat,
        ) > usize::MAX,
        candidates is Some ==> texts(candidates->Some_0@) == chosen_candidates(
            match list {
                Some(text) => Some(text@),
                None => None,
            },
            length as nat,
            letters_only,
            numbers_only,
        ),
{
    match list {
        Some(text) => Some(parse_candidate_list(text)),
        None => {
            match combination_count(length, letters_only, numbers_only) {
                Some(_) => Some(generate_combinations(length, letters_only, numbers_only)),
                None => None,
            }
        },
    }
}

} // verus!
