//! Formatting and cursor commands that gather every plain style code into
//! one sequence.

use vstd::prelude::*;
use vstd::string::StringExecFns;
use crate::ansi_term::{csi, decimal, decimal_string};

verus! {

#[derive(Clone, Copy, PartialEq, Eq, Structural, Debug)]
pub enum Color {
    Black,
    Red,
    Green,
    Yellow,
    Blue,
    Magenta,
    Cyan,
    White,
    Default,
    ColorId(u8),
    RGB(u8, u8, u8),
}

#[derive(Clone, Copy, PartialEq, Eq, Structural, Debug)]
pub enum Format {
    Reset,
    Bold,
    Dim,
    Italic,
    Underline,
    Blinking,
    Reverse,
    Hidden,
    Strikethrough,
    Fg(Color),
    Bg(Color),
}

#[derive(Clone, Copy, PartialEq, Eq, Structural, Debug)]
pub enum CursorMovement {
    HomePosition,
    ToPosition(u32, u32),
    Up(u32),
    Down(u32),
    Right(u32),
    Left(u32),
    DownToLineStart(u32),
    UpToLineStart(u32),
    ToColumn(u32),
    UpScroll(u32),
    SavePos,
    RestorePos,
}

#[derive(Clone, Copy, PartialEq, Eq, Structural, Debug)]
pub enum Command {
    EraseToScreenEnd,
    EraseToScreenStart,
    EraseScreen,
    EraseToLineEnd,
    EraseToLineStart,
    EraseLine,
    EraseUp(u32),
    EraseDown(u32),
    Move(CursorMovement),
}

/// The code of a named color: `base` plus its index; `None` for the colors
/// that need a sequence of their own.
pub open spec fn named_color_code(base: nat, c: Color) -> Option<nat> {
    match c {
        Color::Black => Some(base),
        Color::Red => Some(base + 1),
        Color::Green => Some(base + 2),
        Color::Yellow => Some(base + 3),
        Color::Blue => Some(base + 4),
        Color::Magenta => Some(base + 5),
        Color::Cyan => Some(base + 6),
        Color::White => Some(base + 7),
        Color::Default => Some(base + 9),
        _ => None,
    }
}

/// The plain code of a format, where it has one.
pub open spec fn simple_code(f: Format) -> Option<nat> {
    match f {
        Format::Reset => Some(0),
        Format::Bold => Some(1),
        Format::Dim => Some(2),
        Format::Italic => Some(3),
        Format::Underline => Some(4),
        Format::Blinking => Some(5),
        Format::Reverse => Some(7),
        Format::Hidden => Some(8),
        Format::Strikethrough => Some(9),
        Format::Fg(c) => named_color_code(30, c),
        Format::Bg(c) => named_color_code(40, c),
    }
}

/// The sequence of its own that an indexed or true color needs; `layer` is
/// `'3'` for the foreground and `'4'` for the background.
pub open spec fn color_sequence(layer: char, c: Color) -> Seq<char> {
    match c {
        Color::ColorId(id) => csi(seq![layer, '8', ';', '5', ';'] + decimal(id as nat) + seq!['m']),
        Color::RGB(r, g, b) => csi(seq![layer, '8', ';', '2', ';'] + decimal(r as nat) + seq![';']
            + decimal(g as nat) + seq![';'] + decimal(b as nat) + seq!['m']),
        _ => Seq::empty(),
    }
}

/// The sequence of its own that a format needs, empty for plain codes.
pub open spec fn own_sequence(f: Format) -> Seq<char> {
    match f {
        Format::Fg(c) => color_sequence('3', c),
        Format::Bg(c) => color_sequence('4', c),
        _ => Seq::empty(),
    }
}

/// The own sequences of the formats, in order.
pub open spec fn own_sequences(fs: Seq<Format>) -> Seq<char>
    decreases fs.len(),
{
    if fs.len() == 0 {
        Seq::empty()
    } else {
        own_sequences(fs.drop_last()) + own_sequence(fs.last())
    }
}

/// The plain codes of the formats, in order, joined by `;`.
pub open spec fn joined_codes(fs: Seq<Format>) -> Seq<char>
    decreases fs.len(),
{
    if fs.len() == 0 {
        Seq::empty()
    } else {
        let before = joined_codes(fs.drop_last());
        match simple_code(fs.last()) {
            Some(code) => if before.len() == 0 {
                decimal(code)
            } else {
                before + seq![';'] + decimal(code)
            },
            None => before,
        }
    }
}

fn named_code(base: u32, c: Color) -> (r: Option<u32>)
    requires
        base <= 40,
    ensures
        r == match named_color_code(base as nat, c) {
            Some(v) => Some(v as u32),
            None => None,
        },
        r matches Some(v) ==> v == named_color_code(base as nat, c).unwrap(),
{
    match c {
        Color::Black => Some(base),
        Color::Red => Some(base + 1),
        Color::Green => Some(base + 2),
        Color::Yellow => Some(base + 3),
        Color::Blue => Some(base + 4),
        Color::Magenta => Some(base + 5),
        Color::Cyan => Some(base + 6),
        Color::White => Some(base + 7),
        Color::Default => Some(base + 9),
        _ => None,
    }
}

fn simple_code_exec(f: Format) -> (r: Option<u32>)
    ensures
        r.is_some() == simple_code(f).is_some(),
        r matches Some(v) ==> v == simple_code(f).unwrap(),
{
    match f {
        Format::Reset => Some(0),
        Format::Bold => Some(1),
        Format::Dim => Some(2),
        Format::Italic => Some(3),
        Format::Underline => Some(4),
        Format::Blinking => Some(5),
        Format::Reverse => Some(7),
        Format::Hidden => Some(8),
        Format::Strikethrough => Some(9),
        Format::Fg(c) => named_code(30, c),
        Format::Bg(c) => named_code(40, c),
    }
}

fn own_sequence_exec(f: Format) -> (r: String)
    ensures
        r@ == own_sequence(f),
{
    proof {
        reveal_strlit("");
        reveal_strlit("\x1b[3");
        reveal_strlit("\x1b[4");
        reveal_strlit("8;5;");
        reveal_strlit("8;2;");
        reveal_strlit(";");
        reveal_strlit("m");
    }
    let (foreground, c) = match f {
        Format::Fg(c) => (true, c),
        Format::Bg(c) => (false, c),
        _ => return String::from_str(""),
    };
    let ghost layer = if foreground { '3' } else { '4' };
    let mut s = match c {
        Color::ColorId(_) | Color::RGB(_, _, _) => if foreground {
            String::from_str("\x1b[3")
        } else {
            String::from_str("\x1b[4")
        },
        _ => return String::from_str(""),
    };
    match c {
        Color::ColorId(id) => {
            s.append("8;5;");
            let d = decimal_string(id as u32);
            s.append(d.as_str());
            s.append("m");
        },
        Color::RGB(r, g, b) => {
            s.append("8;2;");
            let dr = decimal_string(r as u32);
            s.append(dr.as_str());
            s.append(";");
            let dg = decimal_string(g as u32);
            s.append(dg.as_str());
            s.append(";");
            let db = decimal_string(b as u32);
            s.append(db.as_str());
            s.append("m");
        },
        _ => {},
    }
    proof {
        assert(s@ =~= own_sequence(f));
    }
    s
}

/// The sequences that apply `modifiers`: first the own sequences of
/// indexed and true colors, then one sequence with every plain code.
pub fn format(modifiers: &[Format]) -> (r: String)
    ensures
        r@ == own_sequences(modifiers@) + csi(joined_codes(modifiers@) + seq!['m']),
{
    proof {
        reveal_strlit("");
        reveal_strlit(";");
        reveal_strlit("\x1b[");
        reveal_strlit("m");
    }
    let mut own = String::from_str("");
    let mut codes = String::from_str("");
    let mut i: usize = 0;
    while i < modifiers.len()
        invariant
            i <= modifiers@.len(),
            own@ == own_sequences(modifiers@.subrange(0, i as int)),
            codes@ == joined_codes(modifiers@.subrange(0, i as int)),
        decreases modifiers@.len() - i,
    {
        let f = modifiers[i];
        let ghost prefix = modifiers@.subrange(0, i as int);
        let ghost next = modifiers@.subrange(0, i + 1);
        proof {
            assert(next.drop_last() =~= prefix);
            assert(next.last() == f);
        }
        let seq = own_sequence_exec(f);
        own.append(seq.as_str());
        let ghost before = codes@;
        match simple_code_exec(f) {
            Some(code) => {
                let had_codes = codes.as_str().unicode_len() > 0;
                if had_codes {
                    codes.append(";");
                    proof {
                        reveal_strlit(";");
                        assert(codes@ =~= before + seq![';']);
                    }
                }
                let d = decimal_string(code);
                codes.append(d.as_str());
                proof {
                    assert(simple_code(f) == Some(code as nat));
                    if had_codes {
                        assert(codes@ =~= before + seq![';'] + decimal(code as nat));
                    } else {
                        assert(codes@ =~= decimal(code as nat));
                    }
                }
            },
            None => {},
        }
        proof {
            assert(codes@ =~= joined_codes(next));
        }
        i += 1;
    }
    proof {
        assert(modifiers@.subrange(0, modifiers@.len() as int) =~= modifiers@);
    }
    let mut out = own;
    out.append("\x1b[");
    out.append(codes.as_str());
    out.append("m");
    proof {
        assert(out@ =~= own_sequences(modifiers@) + csi(joined_codes(modifiers@) + seq!['m']));
    }
    out
}

/// `string` between the sequences of `modifiers` and a reset.
pub fn format_string(string: &str, modifiers: &[Format]) -> (r: String)
    ensures
        r@ == own_sequences(modifiers@) + csi(joined_codes(modifiers@) + seq!['m']) + string@
            + seq!['\x1b', '[', '0', 'm'],
{
    let mut out = format(modifiers);
    out.append(string);
    out.append("\x1b[0m");
    proof {
        reveal_strlit("\x1b[0m");
    }
    out
}

/// `s` written `n` times.
pub open spec fn repeated(s: Seq<char>, n: nat) -> Seq<char>
    decreases n,
{
    if n == 0 {
        Seq::empty()
    } else {
        repeated(s, (n - 1) as nat) + s
    }
}

/// What a command writes at once, before the sequences of all commands:
/// erasing lines upward or downward, and scrolling up.
pub open spec fn immediate_output(c: Command) -> Seq<char> {
    match c {
        Command::EraseUp(n) => repeated(seq!['\x1b', '[', '1', 'F', '\x1b', '[', '2', 'K'], n as nat)
            + seq!['\x1b', '[', '2', 'K'],
        Command::EraseDown(n) => repeated(seq!['\x1b', '[', '1', 'E', '\x1b', '[', '2', 'K'], n as nat)
            + seq!['\x1b', '[', '2', 'K'],
        Command::Move(CursorMovement::UpScroll(n)) => repeated(seq!['\x1b', ' ', 'M'], n as nat),
        _ => Seq::empty(),
    }
}

/// A counted cursor move: nothing for zero, else the count and the letter.
pub open spec fn counted_move(n: u32, letter: char) -> Seq<char> {
    if n == 0 {
        Seq::empty()
    } else {
        csi(decimal(n as nat) + seq![letter])
    }
}

/// The sequence of a command, written after every command's immediate output.
pub open spec fn command_sequence(c: Command) -> Seq<char> {
    match c {
        Command::EraseToScreenEnd => csi(seq!['0', 'J']),
        Command::EraseToScreenStart => csi(seq!['1', 'J']),
        Command::EraseScreen => csi(seq!['2', 'J']),
        Command::EraseToLineEnd => csi(seq!['0', 'K']),
        Command::EraseToLineStart => csi(seq!['1', 'K']),
        Command::EraseLine => csi(seq!['2', 'K']),
        Command::EraseUp(_) => Seq::empty(),
        Command::EraseDown(_) => Seq::empty(),
        Command::Move(m) => match m {
            CursorMovement::HomePosition => csi(seq!['H']),
            CursorMovement::ToPosition(line, col) => csi(decimal(line as nat) + seq![';'] + decimal(
                col as nat) + seq!['H']),
            CursorMovement::Up(n) => counted_move(n, 'A'),
            CursorMovement::Down(n) => counted_move(n, 'B'),
            CursorMovement::Right(n) => counted_move(n, 'C'),
            CursorMovement::Left(n) => counted_move(n, 'D'),
            CursorMovement::DownToLineStart(n) => counted_move(n, 'E'),
            CursorMovement::UpToLineStart(n) => counted_move(n, 'F'),
            CursorMovement::ToColumn(n) => csi(decimal(n as nat) + seq!['G']),
            CursorMovement::UpScroll(_) => Seq::empty(),
            CursorMovement::SavePos => seq!['\x1b', ' ', '7'],
            CursorMovement::RestorePos => seq!['\x1b', ' ', '8'],
        },
    }
}

pub open spec fn immediate_outputs(cs: Seq<Command>) -> Seq<char>
    decreases cs.len(),
{
    if cs.len() == 0 {
        Seq::empty()
    } else {
        immediate_outputs(cs.drop_last()) + immediate_output(cs.last())
    }
}

pub open spec fn command_sequences(cs: Seq<Command>) -> Seq<char>
    decreases cs.len(),
{
    if cs.len() == 0 {
        Seq::empty()
    } else {
        command_sequences(cs.drop_last()) + command_sequence(cs.last())
    }
}

fn repeat_into(out: &mut String, s: &str, n: u32)
    ensures
        final(out)@ == old(out)@ + repeated(s@, n as nat),
{
    let mut i: u32 = 0;
    while i < n
        invariant
            i <= n,
            out@ == old(out)@ + repeated(s@, i as nat),
        decreases n - i,
    {
        out.append(s);
        proof {
            assert(repeated(s@, (i + 1) as nat) == repeated(s@, i as nat) + s@);
            assert(out@ =~= old(out)@ + repeated(s@, (i + 1) as nat));
        }
        i += 1;
    }
}

fn immediate_into(out: &mut String, c: Command)
    ensures
        final(out)@ == old(out)@ + immediate_output(c),
{
    proof {
        reveal_strlit("\x1b[1F\x1b[2K");
        reveal_strlit("\x1b[1E\x1b[2K");
        reveal_strlit("\x1b[2K");
        reveal_strlit("\x1b M");
        assert("\x1b[1F\x1b[2K"@ =~= seq!['\x1b', '[', '1', 'F', '\x1b', '[', '2', 'K']);
        assert("\x1b[1E\x1b[2K"@ =~= seq!['\x1b', '[', '1', 'E', '\x1b', '[', '2', 'K']);
        assert("\x1b[2K"@ =~= seq!['\x1b', '[', '2', 'K']);
        assert("\x1b M"@ =~= seq!['\x1b', ' ', 'M']);
    }
    let ghost before = out@;
    match c {
        Command::EraseUp(n) => {
            repeat_into(out, "\x1b[1F\x1b[2K", n);
            out.append("\x1b[2K");
        },
        Command::EraseDown(n) => {
            repeat_into(out, "\x1b[1E\x1b[2K", n);
            out.append("\x1b[2K");
        },
        Command::Move(CursorMovement::UpScroll(n)) => {
            repeat_into(out, "\x1b M", n);
        },
        _ => {},
    }
    proof {
        assert(out@ =~= before + immediate_output(c));
    }
}

fn counted_move_string(n: u32, letter: &str) -> (r: String)
    requires
        letter@.len() == 1,
    ensures
        r@ == counted_move(n, letter@[0]),
{
    proof {
        reveal_strlit("");
    }
    if n == 0 {
        String::from_str("")
    } else {
        let r = crate::ansi_term::numbered_sequence(n, letter);
        proof {
            assert(letter@ =~= seq![letter@[0]]);
        }
        r
    }
}

fn command_string(c: Command) -> (r: String)
    ensures
        r@ == command_sequence(c),
{
    proof {
        reveal_strlit("");
        reveal_strlit("0J");
        reveal_strlit("1J");
        reveal_strlit("2J");
        reveal_strlit("0K");
        reveal_strlit("1K");
        reveal_strlit("2K");
        reveal_strlit("H");
        reveal_strlit("\x1b[");
        reveal_strlit(";");
        reveal_strlit("A");
        reveal_strlit("B");
        reveal_strlit("C");
        reveal_strlit("D");
        reveal_strlit("E");
        reveal_strlit("F");
        reveal_strlit("G");
        reveal_strlit("\x1b 7");
        reveal_strlit("\x1b 8");
    }
    match c {
        Command::EraseToScreenEnd => crate::ansi_term::get_sequence("0J"),
        Command::EraseToScreenStart => crate::ansi_term::get_sequence("1J"),
        Command::EraseScreen => crate::ansi_term::get_sequence("2J"),
        Command::EraseToLineEnd => crate::ansi_term::get_sequence("0K"),
        Command::EraseToLineStart => crate::ansi_term::get_sequence("1K"),
        Command::EraseLine => crate::ansi_term::get_sequence("2K"),
        Command::EraseUp(_) => String::from_str(""),
        Command::EraseDown(_) => String::from_str(""),
        Command::Move(m) => match m {
            CursorMovement::HomePosition => crate::ansi_term::get_sequence("H"),
            CursorMovement::ToPosition(line, col) => {
                let mut s = String::from_str("\x1b[");
                let l = decimal_string(line);
                s.append(l.as_str());
                s.append(";");
                let c = decimal_string(col);
                s.append(c.as_str());
                s.append("H");
                proof {
                    assert(s@ =~= csi(decimal(line as nat) + seq![';'] + decimal(col as nat) + seq![
                        'H',
                    ]));
                }
                s
            },
            CursorMovement::Up(n) => counted_move_string(n, "A"),
            CursorMovement::Down(n) => counted_move_string(n, "B"),
            CursorMovement::Right(n) => counted_move_string(n, "C"),
            CursorMovement::Left(n) => counted_move_string(n, "D"),
            CursorMovement::DownToLineStart(n) => counted_move_string(n, "E"),
            CursorMovement::UpToLineStart(n) => counted_move_string(n, "F"),
            CursorMovement::ToColumn(n) => {
                let r = crate::ansi_term::numbered_sequence(n, "G");
                proof {
                    assert("G"@ =~= seq!['G']);
                }
                r
            },
            CursorMovement::UpScroll(_) => String::from_str(""),
            CursorMovement::SavePos => String::from_str("\x1b 7"),
            CursorMovement::RestorePos => String::from_str("\x1b 8"),
        },
    }
}

/// Everything that performing `commands` writes: first what each command
/// writes at once, in order, then the sequence of each command, in order.
pub fn get_commands(commands: &[Command]) -> (r: String)
    ensures
        r@ == immediate_outputs(commands@) + command_sequences(commands@),
{
    proof {
        reveal_strlit("");
    }
    let mut immediate = String::from_str("");
    let mut sequences = String::from_str("");
    let mut i: usize = 0;
    while i < commands.len()
        invariant
            i <= commands@.len(),
            immediate@ == immediate_outputs(commands@.subrange(0, i as int)),
            sequences@ == command_sequences(commands@.subrange(0, i as int)),
        decreases commands@.len() - i,
    {
        let c = commands[i];
        immediate_into(&mut immediate, c);
        let s = command_string(c);
        sequences.append(s.as_str());
        proof {
            let next = commands@.subrange(0, i + 1);
            assert(next.drop_last() =~= commands@.subrange(0, i as int));
            assert(next.last() == c);
        }
        i += 1;
    }
    proof {
        assert(commands@.subrange(0, commands@.len() as int) =~= commands@);
    }
    immediate.append(sequences.as_str());
    immediate
}

} // verus!
