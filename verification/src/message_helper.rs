//! Colors for diagnostics, as ANSI escape sequences.
use crate::strs::concat3;
use vstd::prelude::*;

verus! {

/// `text` in ANSI red.
pub open spec fn spec_red(text: Seq<char>) -> Seq<char> {
    "\x1b[31m"@ + text + "\x1b[0m"@
}

/// `text` in ANSI yellow.
pub open spec fn spec_yellow(text: Seq<char>) -> Seq<char> {
    "\x1b[33m"@ + text + "\x1b[0m"@
}

/// The text between the escape sequences that color it red and reset the
/// color.
pub fn red(text: &str) -> (r: String)
    ensures
        r@ == spec_red(text@),
{
    concat3("\x1b[31m", text, "\x1b[0m")
}

/// The text between the escape sequences that color it yellow and reset the
/// color.
pub fn yellow(text: &str) -> (r: String)
    ensures
        r@ == spec_yellow(text@),
{
    concat3("\x1b[33m", text, "\x1b[0m")
}

} // verus!
