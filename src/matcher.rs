//! The pattern matcher: the first dictionary entries that fit a masked word.
use vstd::prelude::*;

use crate::text::{chars_of, lower_of, to_lower};

verus! {

/// The character that marks an unknown position in a masked word.
pub const WILDCARD: char = ' ';

/// The character sequences that a vector of strings holds, in order.
pub open spec fn words_view(v: Seq<String>) -> Seq<Seq<char>> {
    v.map_values(|s: String| s@)
}

/// A word fits a pattern when it has the pattern's length and agrees with it
/// at every position that is not a wildcard.
pub open spec fn fits(pattern: Seq<char>, word: Seq<char>) -> bool {
    &&& word.len() == pattern.len()
    &&& forall|i: int| 0 <= i < pattern.len() && pattern[i] != WILDCARD ==> word[i] == pattern[i]
}

/// The lowercase form of each dictionary entry, in dictionary order.
pub open spec fn lowered(dict: Seq<Seq<char>>) -> Seq<Seq<char>> {
    dict.map_values(|w: Seq<char>| lower_of(w))
}

/// Every lowercased dictionary entry that fits the pattern, in dictionary order.
pub open spec fn qualifying(dict: Seq<Seq<char>>, pattern: Seq<char>) -> Seq<Seq<char>> {
    lowered(dict).filter(|w: Seq<char>| fits(pattern, w))
}

/// The first `n` elements of `s`, or all of them when there are fewer.
pub open spec fn first_n<A>(s: Seq<A>, n: int) -> Seq<A> {
    if n < s.len() {
        s.take(n)
    } else {
        s
    }
}

/// The result of matching: the first `limit` qualifying entries.
pub open spec fn matches_of(dict: Seq<Seq<char>>, limit: int, pattern: Seq<char>) -> Seq<Seq<char>> {
    first_n(qualifying(dict, pattern), limit)
}

/// How `qualifying` grows by one dictionary entry.
pub proof fn lemma_qualifying_step(dict: Seq<Seq<char>>, pattern: Seq<char>)
    requires
        dict.len() > 0,
    ensures
        qualifying(dict, pattern) == if fits(pattern, lower_of(dict.last())) {
            qualifying(dict.drop_last(), pattern).push(lower_of(dict.last()))
        } else {
            qualifying(dict.drop_last(), pattern)
        },
{
    reveal(Seq::filter);
    assert(lowered(dict).drop_last() =~= lowered(dict.drop_last()));
}

/// The matches among a prefix of the dictionary are a prefix of all its matches.
pub proof fn lemma_qualifying_prefix(dict: Seq<Seq<char>>, pattern: Seq<char>, i: int)
    requires
        0 <= i <= dict.len(),
    ensures
        qualifying(dict.take(i), pattern).len() <= qualifying(dict, pattern).len(),
        qualifying(dict.take(i), pattern) == qualifying(dict, pattern).take(
            qualifying(dict.take(i), pattern).len() as int,
        ),
    decreases dict.len(),
{
    let q = qualifying(dict, pattern);
    if i == dict.len() {
        assert(dict.take(i) =~= dict);
        assert(q.take(q.len() as int) =~= q);
    } else {
        lemma_qualifying_prefix(dict.drop_last(), pattern, i);
        assert(dict.drop_last().take(i) =~= dict.take(i));
        lemma_qualifying_step(dict, pattern);
        let p = qualifying(dict.drop_last(), pattern);
        if fits(pattern, lower_of(dict.last())) {
            assert(p.push(lower_of(dict.last())).take(p.len() as int) =~= p);
            let k = qualifying(dict.take(i), pattern).len() as int;
            assert(q.take(k) =~= p.take(k));
        }
    }
}

/// Whether `word` fits `pattern`, both given as characters.
fn fits_chars(pattern: &Vec<char>, word: &Vec<char>) -> (r: bool)
    ensures
        r == fits(pattern@, word@),
{
    if word.len() != pattern.len() {
        return false;
    }
    let mut j: usize = 0;
    while j < pattern.len()
        invariant
            word@.len() == pattern@.len(),
            j <= pattern@.len(),
            forall|k: int| 0 <= k < j && pattern@[k] != WILDCARD ==> word@[k] == pattern@[k],
        decreases pattern@.len() - j,
    {
        if pattern[j] != WILDCARD && pattern[j] != word[j] {
            return false;
        }
        j += 1;
    }
    true
}

/// Whether an already lowercased `word` fits an already lowercased `pattern`,
/// in which a space stands for any character.
pub fn fits_pattern(pattern: &str, word: &str) -> (r: bool)
    ensures
        r == fits(pattern@, word@),
{
    let p = chars_of(pattern);
    let w = chars_of(word);
    fits_chars(&p, &w)
}

/// The first `max_words` dictionary entries, lowercased and in dictionary order,
/// that fit the lowercase form of `e_user_word`, in which a space stands for any
/// character. Scanning stops as soon as `max_words` matches are found.
pub fn get_possible_words(words: &Vec<String>, max_words: i32, e_user_word: &str) -> (r: Vec<String>)
    requires
        max_words >= 1,
    ensures
        words_view(r@) == matches_of(words_view(words@), max_words as int, lower_of(e_user_word@)),
{
    let ghost dict = words_view(words@);
    let user_word = to_lower(e_user_word);
    let pattern = chars_of(user_word.as_str());
    let ghost pat = lower_of(e_user_word@);
    let mut list: Vec<String> = Vec::new();
    let mut i: usize = 0;
    while i < words.len()
        invariant
            dict == words_view(words@),
            pattern@ == pat,
            pat == lower_of(e_user_word@),
            max_words >= 1,
            i <= words@.len(),
            words_view(list@) == qualifying(dict.take(i as int), pat),
            list@.len() < max_words,
        decreases words@.len() - i,
    {
        let word = to_lower(words[i].as_str());
        let candidate = chars_of(word.as_str());
        proof {
            assert(dict.take(i as int + 1).drop_last() =~= dict.take(i as int));
            lemma_qualifying_step(dict.take(i as int + 1), pat);
        }
        if fits_chars(&pattern, &candidate) {
            proof {
                assert(words_view(list@.push(word)) =~= words_view(list@).push(word@));
            }
            list.push(word);
            if list.len() >= max_words as usize {
                proof {
                    lemma_qualifying_prefix(dict, pat, i as int + 1);
                    let q = qualifying(dict, pat);
                    let k = max_words as int;
                    assert(words_view(list@) == q.take(k));
                    if k >= q.len() {
                        assert(q.take(k) =~= q);
                    }
                }
                return list;
            }
        }
        i += 1;
    }
    proof {
        assert(dict.take(i as int) =~= dict);
    }
    list
}

} // verus!
