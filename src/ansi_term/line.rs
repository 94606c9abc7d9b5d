//! Line clearing sequences.

use vstd::prelude::*;
use crate::ansi_term::{csi, get_sequence};

verus! {

/// Clears from the cursor to the end of the line.
pub fn get_clear_to_end() -> (r: String)
    ensures
        r@ == csi(seq!['0', 'K']),
{
    proof {
        reveal_strlit("0K");
    }
    get_sequence("0K")
}

/// Clears from the start of the line to the cursor.
pub fn get_clear_to_start() -> (r: String)
    ensures
        r@ == csi(seq!['1', 'K']),
{
    proof {
        reveal_strlit("1K");
    }
    get_sequence("1K")
}

/// Clears the whole line.
pub fn get_clear() -> (r: String)
    ensures
        r@ == csi(seq!['2', 'K']),
{
    proof {
        reveal_strlit("2K");
    }
    get_sequence("2K")
}

} // verus!
