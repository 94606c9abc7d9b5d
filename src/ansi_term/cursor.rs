//! Cursor movement sequences.

use vstd::prelude::*;
use vstd::string::StringExecFns;
use crate::ansi_term::{csi, decimal, esc, get_private_sequence, get_sequence, numbered_sequence};

verus! {

/// Moves the cursor to the home position, the top left corner.
pub fn get_move_home() -> (r: String)
    ensures
        r@ == csi(seq!['H']),
{
    proof {
        reveal_strlit("H");
    }
    get_sequence("H")
}

/// Moves the cursor to the given column and row.
pub fn get_move_to_position(column: u16, row: u16) -> (r: String)
    ensures
        r@ == csi(decimal(row as nat) + seq![';'] + decimal(column as nat) + seq!['H']),
{
    let mut s = String::from_str("\x1b[");
    proof {
        reveal_strlit("\x1b[");
        reveal_strlit(";");
        reveal_strlit("H");
    }
    let r = crate::ansi_term::decimal_string(row as u32);
    let c = crate::ansi_term::decimal_string(column as u32);
    s.append(r.as_str());
    s.append(";");
    s.append(c.as_str());
    s.append("H");
    proof {
        assert(s@ =~= csi(decimal(row as nat) + seq![';'] + decimal(column as nat) + seq!['H']));
    }
    s
}

/// A counted move: nothing for a count of zero, else the count and the
/// command letter.
pub open spec fn counted(n: nat, letter: char) -> Seq<char> {
    if n > 0 {
        csi(decimal(n) + seq![letter])
    } else {
        Seq::empty()
    }
}

fn counted_sequence(n: u16, letter: &str) -> (r: String)
    requires
        letter@.len() == 1,
    ensures
        r@ == counted(n as nat, letter@[0]),
{
    if n > 0 {
        let s = numbered_sequence(n as u32, letter);
        proof {
            assert(letter@ =~= seq![letter@[0]]);
        }
        s
    } else {
        proof {
            reveal_strlit("");
        }
        String::from_str("")
    }
}

/// Moves the cursor up by `rows` lines.
pub fn get_move_up(rows: u16) -> (r: String)
    ensures
        r@ == counted(rows as nat, 'A'),
{
    proof {
        reveal_strlit("A");
    }
    counted_sequence(rows, "A")
}

/// Moves the cursor down by `rows` lines.
pub fn get_move_down(rows: u16) -> (r: String)
    ensures
        r@ == counted(rows as nat, 'B'),
{
    proof {
        reveal_strlit("B");
    }
    counted_sequence(rows, "B")
}

/// Moves the cursor right by `columns` columns.
pub fn get_move_right(columns: u16) -> (r: String)
    ensures
        r@ == counted(columns as nat, 'C'),
{
    proof {
        reveal_strlit("C");
    }
    counted_sequence(columns, "C")
}

/// Moves the cursor left by `columns` columns.
pub fn get_move_left(columns: u16) -> (r: String)
    ensures
        r@ == counted(columns as nat, 'D'),
{
    proof {
        reveal_strlit("D");
    }
    counted_sequence(columns, "D")
}

/// Moves the cursor down by `rows` lines, to the start of the line.
pub fn get_move_down_to_line_start(rows: u16) -> (r: String)
    ensures
        r@ == counted(rows as nat, 'E'),
{
    proof {
        reveal_strlit("E");
    }
    counted_sequence(rows, "E")
}

/// Moves the cursor up by `rows` lines, to the start of the line.
pub fn get_move_up_to_line_start(rows: u16) -> (r: String)
    ensures
        r@ == counted(rows as nat, 'F'),
{
    proof {
        reveal_strlit("F");
    }
    counted_sequence(rows, "F")
}

/// Moves the cursor to the given column of its line.
pub fn get_move_to_column(column: u16) -> (r: String)
    ensures
        r@ == csi(decimal(column as nat) + seq!['G']),
{
    proof {
        reveal_strlit("G");
        assert("G"@ =~= seq!['G']);
    }
    numbered_sequence(column as u32, "G")
}

/// Saves the cursor position.
pub fn get_save_position() -> (r: String)
    ensures
        r@ == esc() + seq!['7'],
{
    proof {
        reveal_strlit("7");
    }
    get_private_sequence("7")
}

/// Restores the cursor position last saved.
pub fn get_restore_position() -> (r: String)
    ensures
        r@ == esc() + seq!['8'],
{
    proof {
        reveal_strlit("8");
    }
    get_private_sequence("8")
}

/// Makes the cursor visible.
pub fn get_show() -> (r: String)
    ensures
        r@ == csi(seq!['?', '2', '5', 'h']),
{
    proof {
        reveal_strlit("?25h");
    }
    get_sequence("?25h")
}

/// Makes the cursor invisible.
pub fn get_hide() -> (r: String)
    ensures
        r@ == csi(seq!['?', '2', '5', 'l']),
{
    proof {
        reveal_strlit("?25l");
    }
    get_sequence("?25l")
}

} // verus!
