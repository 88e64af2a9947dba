//! Helpers for Wordnet-style sense identifiers: offsets are shifted
//! into a single SQL-format id space by part of speech.

use vstd::prelude::*;
use vstd::string::StrSliceExecFns;
use vstd::string::StringExecFns;

verus! {

/// The number to add to a Wordnet offset for a part-of-speech letter:
/// nouns, verbs, adjectives (including satellites) and adverbs each
/// occupy one block of one hundred million; any other letter maps to
/// zero.
pub open spec fn spec_pos_num(pos: Seq<char>) -> int {
    if pos =~= seq!['n'] {
        100000000
    } else if pos =~= seq!['v'] {
        200000000
    } else if pos =~= seq!['s'] || pos =~= seq!['a'] {
        300000000
    } else if pos =~= seq!['r'] {
        400000000
    } else {
        0
    }
}

/// Computes the number to add to a Wordnet offset to convert it to the
/// SQL id format, given a Wordnet-style part-of-speech letter.
pub fn pos_num_to_subtract(pos: &str) -> (r: Option<i32>)
    ensures
        r matches Some(n) && n == spec_pos_num(pos@),
{
    if pos.unicode_len() == 1 {
        let c = pos.get_char(0);
        proof {
            assert(pos@ =~= seq![pos@[0]]);
        }
        match c {
            'n' => Some(100000000),
            'v' => Some(200000000),
            's' => Some(300000000),
            'a' => Some(300000000),
            'r' => Some(400000000),
            _ => Some(0),
        }
    } else {
        proof {
            assert(pos@.len() != 1);
        }
        Some(0)
    }
}

/// The part-of-speech letter of an id block: below two hundred million
/// a noun, then verbs, adjectives and adverbs in blocks of one hundred
/// million; ids on a block boundary have no letter.
pub open spec fn spec_pos_letter(synset_id: int) -> Seq<char> {
    if synset_id < 200000000 {
        seq!['n']
    } else if 200000000 < synset_id < 300000000 {
        seq!['v']
    } else if 300000000 < synset_id < 400000000 {
        seq!['a']
    } else if synset_id > 400000000 {
        seq!['r']
    } else {
        Seq::empty()
    }
}

/// Retrieves the Wordnet-style part-of-speech letter of a SQL-format
/// synset id.
pub fn pos_letter(synset_id: &i32) -> (r: Option<String>)
    ensures
        r matches Some(s) && s@ == spec_pos_letter(*synset_id as int),
{
    proof {
        reveal_strlit("n");
        reveal_strlit("v");
        reveal_strlit("a");
        reveal_strlit("r");
        reveal_strlit("");
    }
    let s: String = if *synset_id < 200000000 {
        String::from_str("n")
    } else if *synset_id > 200000000 && *synset_id < 300000000 {
        String::from_str("v")
    } else if *synset_id > 300000000 && *synset_id < 400000000 {
        String::from_str("a")
    } else if *synset_id > 400000000 {
        String::from_str("r")
    } else {
        String::from_str("")
    };
    proof {
        assert(s@ =~= spec_pos_letter(*synset_id as int));
    }
    Some(s)
}

} // verus!
