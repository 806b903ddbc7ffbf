//! What the library takes from std's strings beyond what vstd states.

use vstd::prelude::*;

verus! {

/// Appends a character to a string.
///
/// Not proved: that `String::push` of std leaves the string's characters as
/// they were and sets `c` behind them, as its documentation says.
pub assume_specification[ String::push ](s: &mut String, c: char)
    ensures
        final(s)@ == old(s)@.push(c),
;

} // verus!
