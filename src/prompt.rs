//! Decisions on the numbers a user types before a phrase is matched.
use vstd::prelude::*;

verus! {

/// What an interaction does when a number it asked for cannot be used.
#[derive(Debug, Clone, Copy, PartialEq, Eq, Structural)]
pub enum LoopControl {
    /// Leave the program.
    Exit,
    /// Discard this interaction and start collecting input again.
    Restart,
}

/// Decides on the number of words in a phrase, given the typed number (`None`
/// when the text was not an integer): zero exits, a negative count or a
/// non-integer restarts, a positive count goes on.
pub fn word_count_outcome(parsed: Option<i32>) -> (r: Result<i32, LoopControl>)
    ensures
        r == match parsed {
            None => Err(LoopControl::Restart),
            Some(n) => if n == 0 {
                Err(LoopControl::Exit)
            } else if n < 0 {
                Err(LoopControl::Restart)
            } else {
                Ok(n)
            },
        },
{
    match parsed {
        None => Err(LoopControl::Restart),
        Some(n) => {
            if n == 0 {
                Err(LoopControl::Exit)
            } else if n < 0 {
                Err(LoopControl::Restart)
            } else {
                Ok(n)
            }
        },
    }
}

/// Decides on the match limit, given the typed number (`None` when the text was
/// not an integer): a positive limit goes on, anything else restarts.
pub fn max_words_outcome(parsed: Option<i32>) -> (r: Result<i32, LoopControl>)
    ensures
        r == match parsed {
            Some(n) => if n >= 1 {
                Ok(n)
            } else {
                Err(LoopControl::Restart)
            },
            None => Err(LoopControl::Restart),
        },
{
    match parsed {
        Some(n) => {
            if n < 1 {
                Err(LoopControl::Restart)
            } else {
                Ok(n)
            }
        },
        None => Err(LoopControl::Restart),
    }
}

} // verus!
