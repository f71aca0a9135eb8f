//! The batch resolver: one match set per masked word of a phrase.
use vstd::prelude::*;

use crate::matcher::{get_possible_words, matches_of, words_view};
use crate::text::lower_of;

verus! {

/// The match sets of a phrase, each as the character sequences it holds.
pub open spec fn sets_view(v: Seq<Vec<String>>) -> Seq<Seq<Seq<char>>> {
    v.map_values(|m: Vec<String>| words_view(m@))
}

/// The largest length among `sets`, or 0 when there are none.
pub open spec fn max_len(sets: Seq<Seq<Seq<char>>>) -> nat
    decreases sets.len(),
{
    if sets.len() == 0 {
        0
    } else {
        let rest = max_len(sets.drop_last());
        if sets.last().len() > rest {
            sets.last().len()
        } else {
            rest
        }
    }
}

/// What matching each masked word of a phrase against `dict` gives, in order.
pub open spec fn resolved(dict: Seq<Seq<char>>, limit: int, user_words: Seq<String>) -> Seq<
    Seq<Seq<char>>,
> {
    user_words.map_values(|u: String| matches_of(dict, limit, lower_of(u@)))
}

/// Matches each masked word of `user_words` against the dictionary on its own,
/// keeping their order, and returns the match sets together with the largest
/// number of matches that any of them holds.
pub fn get_all_pos_words(words: &Vec<String>, max_num_words: i32, user_words: &Vec<String>) -> (r: (
    Vec<Vec<String>>,
    usize,
))
    requires
        max_num_words >= 1,
    ensures
        sets_view(r.0@) == resolved(words_view(words@), max_num_words as int, user_words@),
        r.1 == max_len(sets_view(r.0@)),
{
    let ghost dict = words_view(words@);
    let mut all_pos_words: Vec<Vec<String>> = Vec::new();
    let mut most_words: usize = 0;
    let mut i: usize = 0;
    while i < user_words.len()
        invariant
            dict == words_view(words@),
            max_num_words >= 1,
            i <= user_words@.len(),
            sets_view(all_pos_words@) == resolved(dict, max_num_words as int, user_words@.take(
                i as int,
            )),
            most_words == max_len(sets_view(all_pos_words@)),
        decreases user_words@.len() - i,
    {
        let pos_words = get_possible_words(words, max_num_words, user_words[i].as_str());
        proof {
            let s = sets_view(all_pos_words@.push(pos_words));
            assert(s =~= sets_view(all_pos_words@).push(words_view(pos_words@)));
            assert(s.drop_last() =~= sets_view(all_pos_words@));
            assert(resolved(dict, max_num_words as int, user_words@.take(i as int + 1))
                =~= resolved(dict, max_num_words as int, user_words@.take(i as int)).push(
                words_view(pos_words@),
            ));
            assert(words_view(pos_words@).len() == pos_words@.len());
        }
        if pos_words.len() > most_words {
            most_words = pos_words.len();
        }
        all_pos_words.push(pos_words);
        i += 1;
    }
    proof {
        assert(user_words@.take(i as int) =~= user_words@);
    }
    (all_pos_words, most_words)
}

/// The maximum of a phrase's match-set lengths bounds each of them, is reached
/// by one of them, and is 0 for an empty phrase.
pub proof fn lemma_max_len_is_maximum(sets: Seq<Seq<Seq<char>>>)
    ensures
        forall|i: int| 0 <= i < sets.len() ==> #[trigger] sets[i].len() <= max_len(sets),
        sets.len() == 0 ==> max_len(sets) == 0,
        sets.len() > 0 ==> exists|i: int| 0 <= i < sets.len() && #[trigger] sets[i].len() == max_len(sets),
    decreases sets.len(),
{
    if sets.len() > 0 {
        let rest = sets.drop_last();
        lemma_max_len_is_maximum(rest);
        assert forall|i: int| 0 <= i < sets.len() implies #[trigger] sets[i].len() <= max_len(sets) by {
            if i < rest.len() {
                assert(rest[i] == sets[i]);
            }
        }
        if sets.last().len() > max_len(rest) {
            assert(sets[sets.len() - 1].len() == max_len(sets));
        } else if rest.len() == 0 {
            assert(sets[0].len() == max_len(sets));
        } else {
            let j = choose|j: int| 0 <= j < rest.len() && #[trigger] rest[j].len() == max_len(rest);
            assert(sets[j].len() == max_len(sets));
        }
    }
}

} // verus!
