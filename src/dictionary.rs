//! The dictionary loader: a newline-delimited word list split into entries.
use vstd::prelude::*;

use crate::matcher::words_view;
use crate::text::push_char;

verus! {

/// The character that ends each dictionary entry.
pub const LINE_FEED: char = '\n';

/// The pieces of `s` between line feeds, in order. There is always one more
/// piece than there are line feeds; pieces may be empty.
pub open spec fn split_lines(s: Seq<char>) -> Seq<Seq<char>>
    decreases s.len(),
{
    if s.len() == 0 {
        seq![Seq::<char>::empty()]
    } else {
        let prev = split_lines(s.drop_last());
        if s.last() == LINE_FEED {
            prev.push(Seq::<char>::empty())
        } else {
            prev.update(prev.len() - 1, prev.last().push(s.last()))
        }
    }
}

/// The pieces joined back together, with a line feed between each two.
pub open spec fn join_lines(parts: Seq<Seq<char>>) -> Seq<char>
    decreases parts.len(),
{
    if parts.len() == 0 {
        Seq::<char>::empty()
    } else if parts.len() == 1 {
        parts[0]
    } else {
        join_lines(parts.drop_last()) + seq![LINE_FEED] + parts.last()
    }
}

/// Splitting loses nothing and cuts at every line feed: there is at least one
/// piece, no piece holds a line feed, and joining the pieces with line feeds
/// gives back the source text.
pub proof fn lemma_split_lines_join(s: Seq<char>)
    ensures
        split_lines(s).len() >= 1,
        forall|i: int| 0 <= i < split_lines(s).len() ==> !(#[trigger] split_lines(s)[i]).contains(LINE_FEED),
        join_lines(split_lines(s)) == s,
    decreases s.len(),
{
    if s.len() > 0 {
        let t = s.drop_last();
        let c = s.last();
        lemma_split_lines_join(t);
        let prev = split_lines(t);
        let cur = split_lines(s);
        if c == LINE_FEED {
            assert(cur.drop_last() =~= prev);
            assert(s =~= join_lines(prev) + seq![LINE_FEED] + Seq::<char>::empty());
            assert forall|i: int| 0 <= i < cur.len() implies !(#[trigger] cur[i]).contains(LINE_FEED) by {
                if i < prev.len() {
                    assert(cur[i] == prev[i]);
                } else {
                    assert(cur[i] =~= Seq::<char>::empty());
                }
            }
        } else {
            let last = prev.last();
            assert(!prev[prev.len() - 1].contains(LINE_FEED));
            assert forall|i: int| 0 <= i < cur.len() implies !(#[trigger] cur[i]).contains(LINE_FEED) by {
                if i < prev.len() - 1 {
                    assert(cur[i] == prev[i]);
                } else {
                    assert(cur[i] == last.push(c));
                    if last.push(c).contains(LINE_FEED) {
                        let j = choose|j: int| 0 <= j < last.push(c).len() && last.push(c)[j] == LINE_FEED;
                        assert(last.contains(LINE_FEED) || c == LINE_FEED) by {
                            if j < last.len() {
                                assert(last[j] == LINE_FEED);
                            }
                        }
                    }
                }
            }
            if prev.len() == 1 {
                assert(cur[0] =~= s);
            } else {
                assert(cur.drop_last() =~= prev.drop_last());
                assert(join_lines(cur) =~= join_lines(prev).push(c));
            }
            assert(t.push(c) =~= s);
        }
    }
}

/// Splits `source` on line feeds into dictionary entries, in order, without
/// trimming, deduplicating or dropping any (a trailing line feed gives a
/// final empty entry).
pub fn get_word_list(source: &str) -> (r: Vec<String>)
    ensures
        words_view(r@) == split_lines(source@),
{
    let mut words: Vec<String> = Vec::new();
    let mut cur = String::new();
    for c in it: source.chars()
        invariant
            it.seq() == source@,
            words_view(words@).push(cur@) == split_lines(source@.take(it.index() as int)),
    {
        let ghost i = it.index() as int;
        proof {
            assert(source@.take(i + 1).drop_last() =~= source@.take(i));
            assert(source@.take(i + 1).last() == c);
        }
        if c == LINE_FEED {
            let done = cur;
            proof {
                assert(words_view(words@.push(done)) =~= words_view(words@).push(done@));
            }
            words.push(done);
            cur = String::new();
        } else {
            let ghost before = cur@;
            push_char(&mut cur, c);
            proof {
                assert(words_view(words@).push(cur@) =~= words_view(words@).push(before).update(
                    words@.len() as int,
                    before.push(c),
                ));
            }
        }
    }
    proof {
        assert(source@.take(source@.len() as int) =~= source@);
        assert(words_view(words@.push(cur)) =~= words_view(words@).push(cur@));
    }
    words.push(cur);
    words
}

} // verus!
