//! General properties of matching, stated over the matcher's model.
use vstd::prelude::*;

use crate::matcher::{
    first_n, fits, lemma_qualifying_step, lowered, matches_of, qualifying, WILDCARD,
};
use crate::text::lower_of;

verus! {

/// Whether `w` is the lowercase form of some entry of `dict`.
pub open spec fn is_lowered_entry(dict: Seq<Seq<char>>, w: Seq<char>) -> bool {
    exists|k: int| 0 <= k < dict.len() && w == #[trigger] lower_of(dict[k])
}

/// Every qualifying entry fits the pattern and is the lowercase form of some
/// dictionary entry.
proof fn lemma_qualifying_members(dict: Seq<Seq<char>>, pattern: Seq<char>)
    ensures
        forall|i: int|
            0 <= i < qualifying(dict, pattern).len() ==> fits(
                pattern,
                #[trigger] qualifying(dict, pattern)[i],
            ),
        forall|i: int|
            0 <= i < qualifying(dict, pattern).len() ==> is_lowered_entry(
                dict,
                #[trigger] qualifying(dict, pattern)[i],
            ),
    decreases dict.len(),
{
    if dict.len() == 0 {
        reveal(Seq::filter);
    } else {
        let rest = dict.drop_last();
        lemma_qualifying_members(rest, pattern);
        lemma_qualifying_step(dict, pattern);
        let q = qualifying(dict, pattern);
        let p = qualifying(rest, pattern);
        assert forall|i: int| 0 <= i < q.len() implies is_lowered_entry(dict, #[trigger] q[i]) by {
            if i < p.len() {
                assert(q[i] == p[i]);
                assert(is_lowered_entry(rest, p[i]));
                let k = choose|k: int| 0 <= k < rest.len() && p[i] == #[trigger] lower_of(rest[k]);
                assert(rest[k] == dict[k]);
            } else {
                assert(q[i] == lower_of(dict[dict.len() - 1]));
            }
        }
        assert forall|i: int| 0 <= i < q.len() implies fits(pattern, #[trigger] q[i]) by {
            if i < p.len() {
                assert(q[i] == p[i]);
            }
        }
    }
}

/// The elements of `first_n(s, n)` are the first elements of `s`.
proof fn lemma_first_n_is_prefix<A>(s: Seq<A>, n: int)
    requires
        n >= 0,
    ensures
        first_n(s, n).len() <= s.len(),
        first_n(s, n).len() <= n,
        forall|i: int| 0 <= i < first_n(s, n).len() ==> #[trigger] first_n(s, n)[i] == s[i],
{
}

/// Every word that matching returns has exactly as many characters as the pattern.
pub proof fn lemma_match_same_length(dict: Seq<Seq<char>>, limit: int, pattern: Seq<char>)
    requires
        limit >= 1,
    ensures
        forall|i: int|
            0 <= i < matches_of(dict, limit, pattern).len() ==> (#[trigger] matches_of(
                dict,
                limit,
                pattern,
            )[i]).len() == pattern.len(),
{
    lemma_qualifying_members(dict, pattern);
    lemma_first_n_is_prefix(qualifying(dict, pattern), limit);
    let m = matches_of(dict, limit, pattern);
    let q = qualifying(dict, pattern);
    assert forall|i: int| 0 <= i < m.len() implies (#[trigger] m[i]).len() == pattern.len() by {
        assert(m[i] == q[i]);
    }
}

/// Every word that matching returns is the lowercase form of a dictionary entry
/// and agrees with the pattern at each position that is not a wildcard.
pub proof fn lemma_match_agrees_with_literals(
    dict: Seq<Seq<char>>,
    limit: int,
    pattern: Seq<char>,
)
    requires
        limit >= 1,
    ensures
        forall|i: int, j: int|
            0 <= i < matches_of(dict, limit, pattern).len() && 0 <= j < pattern.len()
                && pattern[j] != WILDCARD ==> #[trigger] matches_of(dict, limit, pattern)[i][j]
                == pattern[j],
        forall|i: int|
            0 <= i < matches_of(dict, limit, pattern).len() ==> is_lowered_entry(
                dict,
                #[trigger] matches_of(dict, limit, pattern)[i],
            ),
{
    lemma_qualifying_members(dict, pattern);
    lemma_first_n_is_prefix(qualifying(dict, pattern), limit);
    let m = matches_of(dict, limit, pattern);
    let q = qualifying(dict, pattern);
    assert forall|i: int, j: int|
        0 <= i < m.len() && 0 <= j < pattern.len() && pattern[j] != WILDCARD implies #[trigger] m[i][j]
        == pattern[j] by {
        assert(m[i] == q[i]);
        assert(fits(pattern, q[i]));
    }
    assert forall|i: int| 0 <= i < m.len() implies is_lowered_entry(dict, #[trigger] m[i]) by {
        assert(m[i] == q[i]);
    }
}

/// Matching returns at most `limit` words, and exactly the first of the
/// qualifying entries in dictionary order: all of them when there are no more
/// than `limit`, else the first `limit`.
pub proof fn lemma_match_first_n(dict: Seq<Seq<char>>, limit: int, pattern: Seq<char>)
    requires
        limit >= 1,
    ensures
        matches_of(dict, limit, pattern).len() <= limit,
        matches_of(dict, limit, pattern).len() == if qualifying(dict, pattern).len() <= limit {
            qualifying(dict, pattern).len() as int
        } else {
            limit
        },
        matches_of(dict, limit, pattern) == qualifying(dict, pattern).take(
            matches_of(dict, limit, pattern).len() as int,
        ),
{
    let q = qualifying(dict, pattern);
    if limit >= q.len() {
        assert(q.take(q.len() as int) =~= q);
    }
}

/// The lowercase dictionary entries of `len` characters, in dictionary order.
pub open spec fn words_of_length(dict: Seq<Seq<char>>, len: nat) -> Seq<Seq<char>> {
    lowered(dict).filter(|w: Seq<char>| w.len() == len)
}

/// A pattern of wildcards only.
pub open spec fn all_wildcards(pattern: Seq<char>) -> bool {
    forall|i: int| 0 <= i < pattern.len() ==> pattern[i] == WILDCARD
}

proof fn lemma_wildcards_qualify_by_length(dict: Seq<Seq<char>>, pattern: Seq<char>)
    requires
        all_wildcards(pattern),
    ensures
        qualifying(dict, pattern) == words_of_length(dict, pattern.len()),
    decreases dict.len(),
{
    reveal(Seq::filter);
    if dict.len() > 0 {
        lemma_wildcards_qualify_by_length(dict.drop_last(), pattern);
        lemma_qualifying_step(dict, pattern);
        assert(lowered(dict).drop_last() =~= lowered(dict.drop_last()));
    }
}

/// A pattern of `L` wildcards, with a limit no smaller than the number of
/// `L`-character entries, returns every such entry, lowercased, in dictionary order.
pub proof fn lemma_all_wildcards_match_by_length(
    dict: Seq<Seq<char>>,
    limit: int,
    pattern: Seq<char>,
)
    requires
        all_wildcards(pattern),
        limit >= words_of_length(dict, pattern.len()).len(),
    ensures
        matches_of(dict, limit, pattern) == words_of_length(dict, pattern.len()),
{
    lemma_wildcards_qualify_by_length(dict, pattern);
}

} // verus!
