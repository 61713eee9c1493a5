//! What is kept of a finished scan: the text of the output file.

use vstd::prelude::*;
use vstd::string::*;

use crate::text::texts;

verus! {

/// The domains written one to a line, each line ended by a line feed.
pub open spec fn lines_of(domains: Seq<Seq<char>>) -> Seq<char>
    decreases domains.len(),
{
    if domains.len() == 0 {
        Seq::empty()
    } else {
        lines_of(domains.drop_last()) + domains.last() + seq!['\n']
    }
}

/// The text of the optional string.
pub open spec fn file_text(contents: Option<String>) -> Option<Seq<char>> {
    match contents {
        Some(text) => Some(text@),
        None => None,
    }
}

/// What the output file is to hold: the available domains, one to a line.
/// `None` where there is none: then no file is written at all.
pub fn output_text(domains: &Vec<String>) -> (contents: Option<String>)
    ensures
        file_text(contents) == (if domains@.len() == 0 {
            None
        } else {
            Some(lines_of(texts(domains@)))
        }),
{
    if domains.len() == 0 {
        return None;
    }
    let mut text = String::new();
    let mut i: usize = 0;
    proof {
        reveal_strlit("\n");
        assert(texts(domains@).take(0) =~= Seq::<Seq<char>>::empty());
    }
    while i < domains.len()
        invariant
            i <= domains@.len(),
            "\n"@ == seq!['\n'],
            text@ == lines_of(texts(domains@).take(i as int)),
        decreases domains@.len() - i,
    {
        proof {
            let now = texts(domains@).take(i + 1);
            assert(now.drop_last() =~= texts(domains@).take(i as int));
            assert(now.last() == domains@[i as int]@);
        }
        text.append(domains[i].as_str());
        text.append("\n");
        i += 1;
    }
    assert(texts(domains@).take(domains@.len() as int) =~= texts(domains@));
    Some(text)
}

} // verus!
