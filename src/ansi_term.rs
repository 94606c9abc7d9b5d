//! ANSI escape sequences for terminal output, built as strings.

use vstd::prelude::*;
use vstd::string::StringExecFns;

pub mod cursor;
pub mod format;
pub mod line;
pub mod screen;

verus! {

/// The escape character that starts every sequence.
pub open spec fn esc() -> Seq<char> {
    seq!['\x1b']
}

/// A control sequence: escape, `[`, then the command.
pub open spec fn csi(command: Seq<char>) -> Seq<char> {
    seq!['\x1b', '['] + command
}

/// The decimal digit `d` as a character.
pub open spec fn digit_char(d: nat) -> char {
    ((d + 48) as u8) as char
}

/// The decimal representation of `n`, without leading zeros.
pub open spec fn decimal(n: nat) -> Seq<char>
    decreases n,
{
    if n < 10 {
        seq![digit_char(n)]
    } else {
        decimal(n / 10).push(digit_char(n % 10))
    }
}

/// The decimal digit `d` as a one-character string.
fn digit_str(d: u32) -> (r: &'static str)
    requires
        d < 10,
    ensures
        r@ == seq![digit_char(d as nat)],
{
    proof {
        reveal_strlit("0");
        reveal_strlit("1");
        reveal_strlit("2");
        reveal_strlit("3");
        reveal_strlit("4");
        reveal_strlit("5");
        reveal_strlit("6");
        reveal_strlit("7");
        reveal_strlit("8");
        reveal_strlit("9");
    }
    match d {
        0 => "0",
        1 => "1",
        2 => "2",
        3 => "3",
        4 => "4",
        5 => "5",
        6 => "6",
        7 => "7",
        8 => "8",
        _ => "9",
    }
}

/// The number in base ten, without sign or leading zeros.
pub(crate) fn decimal_string(n: u32) -> (r: String)
    ensures
        r@ == decimal(n as nat),
    decreases n,
{
    if n < 10 {
        String::from_str(digit_str(n))
    } else {
        let mut s = decimal_string(n / 10);
        s.append(digit_str(n % 10));
        s
    }
}

/// The control sequence for `command_str`.
pub fn get_sequence(command_str: &str) -> (r: String)
    ensures
        r@ == csi(command_str@),
{
    let mut s = String::from_str("\x1b[");
    proof {
        reveal_strlit("\x1b[");
    }
    s.append(command_str);
    s
}

/// The private sequence for `command_str`: escape, then the command.
pub fn get_private_sequence(command_str: &str) -> (r: String)
    ensures
        r@ == esc() + command_str@,
{
    let mut s = String::from_str("\x1b");
    proof {
        reveal_strlit("\x1b");
    }
    s.append(command_str);
    s
}

/// The control sequence for a number followed by the command letters.
pub(crate) fn numbered_sequence(n: u32, command: &str) -> (r: String)
    ensures
        r@ == csi(decimal(n as nat) + command@),
{
    let mut s = String::from_str("\x1b[");
    proof {
        reveal_strlit("\x1b[");
    }
    let digits = decimal_string(n);
    s.append(digits.as_str());
    s.append(command);
    proof {
        assert(s@ =~= csi(decimal(n as nat) + command@));
    }
    s
}

} // verus!
