//! Screen sequences.

use vstd::prelude::*;
use crate::ansi_term::{csi, get_sequence};

verus! {

/// Saves the screen.
pub fn get_save() -> (r: String)
    ensures
        r@ == csi(seq!['?', '4', '7', 'h']),
{
    proof {
        reveal_strlit("?47h");
    }
    get_sequence("?47h")
}

/// Restores the screen last saved.
pub fn get_restore() -> (r: String)
    ensures
        r@ == csi(seq!['?', '4', '7', 'l']),
{
    proof {
        reveal_strlit("?47l");
    }
    get_sequence("?47l")
}

/// Switches to the alternative screen buffer, which does not scroll.
pub fn get_activate_alternative_buffer() -> (r: String)
    ensures
        r@ == csi(seq!['?', '1', '0', '4', '9', 'h']),
{
    proof {
        reveal_strlit("?1049h");
    }
    get_sequence("?1049h")
}

/// Switches back from the alternative screen buffer.
pub fn get_disable_alternative_buffer() -> (r: String)
    ensures
        r@ == csi(seq!['?', '1', '0', '4', '9', 'l']),
{
    proof {
        reveal_strlit("?1049l");
    }
    get_sequence("?1049l")
}

/// Clears from the cursor to the end of the screen.
pub fn get_clear_to_end() -> (r: String)
    ensures
        r@ == csi(seq!['0', 'J']),
{
    proof {
        reveal_strlit("0J");
    }
    get_sequence("0J")
}

/// Clears from the start of the screen to the cursor.
pub fn get_clear_to_start() -> (r: String)
    ensures
        r@ == csi(seq!['1', 'J']),
{
    proof {
        reveal_strlit("1J");
    }
    get_sequence("1J")
}

/// Clears the whole screen.
pub fn get_clear() -> (r: String)
    ensures
        r@ == csi(seq!['2', 'J']),
{
    proof {
        reveal_strlit("2J");
    }
    get_sequence("2J")
}

} // verus!
