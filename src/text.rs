//! Character-level helpers over `String` and `&str`.
use vstd::prelude::*;

verus! {

/// The lowercase form of a character sequence, as computed by `str::to_lowercase`.
pub uninterp spec fn lower_of(s: Seq<char>) -> Seq<char>;

/// Relies on `str::to_lowercase`: the result is the lowercase form of the
/// input, and depends on its characters alone.
#[verifier::external_body]
pub(crate) fn to_lower(s: &str) -> (r: String)
    ensures
        r@ == lower_of(s@),
{
    s.to_lowercase()
}

/// Relies on `String::push`: appends one character at the end.
#[verifier::external_body]
pub(crate) fn push_char(s: &mut String, c: char)
    ensures
        final(s)@ == old(s)@.push(c),
{
    s.push(c)
}

/// The characters of a string, in order.
pub fn chars_of(s: &str) -> (r: Vec<char>)
    ensures
        r@ == s@,
{
    let mut out: Vec<char> = Vec::new();
    for c in it: s.chars()
        invariant
            it.seq() == s@,
            out@ == s@.take(it.index() as int),
    {
        proof {
            assert(s@.take(it.index() as int + 1) =~= out@.push(c));
        }
        out.push(c);
    }
    proof {
        assert(s@.take(s@.len() as int) =~= s@);
    }
    out
}

/// Whether a character is a line terminator (`'\n'` or `'\r'`).
pub open spec fn is_line_break(c: char) -> bool {
    c == '\n' || c == '\r'
}

/// Removes every line-feed and carriage-return character, keeping the rest in order.
pub fn remove_newline(input: String) -> (r: String)
    ensures
        r@ == input@.filter(|c: char| !is_line_break(c)),
{
    let mut out = String::new();
    for c in it: input.as_str().chars()
        invariant
            it.seq() == input@,
            out@ == input@.take(it.index() as int).filter(|c: char| !is_line_break(c)),
    {
        proof {
            let i = it.index() as int;
            assert(input@.take(i + 1).drop_last() =~= input@.take(i));
            assert(input@.take(i + 1).last() == c);
            reveal(Seq::filter);
        }
        if c != '\n' && c != '\r' {
            push_char(&mut out, c);
        }
    }
    proof {
        assert(input@.take(input@.len() as int) =~= input@);
    }
    out
}

} // verus!
