//! Text formatting sequences: colors and styles.

use vstd::prelude::*;
use vstd::string::StringExecFns;
use crate::ansi_term::{csi, decimal, decimal_string, get_sequence};

verus! {

#[derive(Clone, Copy, PartialEq, Eq, Structural, Debug)]
pub enum Color {
    Black,
    Red,
    Green,
    Yellow,
    Blue,
    Magenta,
    Cyan,
    White,
    Default,
    ColorId(u8),
    RGB(u8, u8, u8),
}

#[derive(Clone, Copy, PartialEq, Eq, Structural, Debug)]
pub enum Format {
    Reset,
    Bold,
    Dim,
    Italic,
    Underline,
    BlinkingCursor,
    ReverseColors,
    Hidden,
    Strikethrough,
    Fg(Color),
    Bg(Color),
}

/// The code of a color; `layer` is `'3'` for the foreground, `'4'` for the
/// background.
pub open spec fn color_code(layer: char, c: Color) -> Seq<char> {
    match c {
        Color::Black => seq![layer, '0', 'm'],
        Color::Red => seq![layer, '1', 'm'],
        Color::Green => seq![layer, '2', 'm'],
        Color::Yellow => seq![layer, '3', 'm'],
        Color::Blue => seq![layer, '4', 'm'],
        Color::Magenta => seq![layer, '5', 'm'],
        Color::Cyan => seq![layer, '6', 'm'],
        Color::White => seq![layer, '7', 'm'],
        Color::Default => seq![layer, '9', 'm'],
        Color::ColorId(id) => seq![layer, '8', ';', '5', ';'] + decimal(id as nat) + seq!['m'],
        Color::RGB(r, g, b) => seq![layer, '8', ';', '2', ';'] + decimal(r as nat) + seq![';']
            + decimal(g as nat) + seq![';'] + decimal(b as nat) + seq!['m'],
    }
}

/// The code of a format, which follows the control sequence introducer.
pub open spec fn format_code(f: Format) -> Seq<char> {
    match f {
        Format::Reset => seq!['0', 'm'],
        Format::Bold => seq!['1', 'm'],
        Format::Dim => seq!['2', 'm'],
        Format::Italic => seq!['3', 'm'],
        Format::Underline => seq!['4', 'm'],
        Format::BlinkingCursor => seq!['5', 'm'],
        Format::ReverseColors => seq!['7', 'm'],
        Format::Hidden => seq!['8', 'm'],
        Format::Strikethrough => seq!['9', 'm'],
        Format::Fg(c) => color_code('3', c),
        Format::Bg(c) => color_code('4', c),
    }
}

/// The sequences of `formats`, one after the other.
pub open spec fn format_prefix(formats: Seq<Format>) -> Seq<char>
    decreases formats.len(),
{
    if formats.len() == 0 {
        Seq::empty()
    } else {
        format_prefix(formats.drop_last()) + csi(format_code(formats.last()))
    }
}

/// The sequence that resets every format.
pub open spec fn reset_sequence() -> Seq<char> {
    seq!['\x1b', '[', '0', 'm']
}

fn color_string(foreground: bool, c: Color) -> (r: String)
    ensures
        r@ == color_code(if foreground { '3' } else { '4' }, c),
{
    proof {
        reveal_strlit("3");
        reveal_strlit("4");
        reveal_strlit("0m");
        reveal_strlit("1m");
        reveal_strlit("2m");
        reveal_strlit("3m");
        reveal_strlit("4m");
        reveal_strlit("5m");
        reveal_strlit("6m");
        reveal_strlit("7m");
        reveal_strlit("9m");
        reveal_strlit("8;5;");
        reveal_strlit("8;2;");
        reveal_strlit(";");
        reveal_strlit("m");
    }
    let mut s = if foreground {
        String::from_str("3")
    } else {
        String::from_str("4")
    };
    let ghost layer = if foreground { '3' } else { '4' };
    assert(s@ == seq![layer]);
    match c {
        Color::Black => s.append("0m"),
        Color::Red => s.append("1m"),
        Color::Green => s.append("2m"),
        Color::Yellow => s.append("3m"),
        Color::Blue => s.append("4m"),
        Color::Magenta => s.append("5m"),
        Color::Cyan => s.append("6m"),
        Color::White => s.append("7m"),
        Color::Default => s.append("9m"),
        Color::ColorId(id) => {
            s.append("8;5;");
            let d = decimal_string(id as u32);
            s.append(d.as_str());
            s.append("m");
        },
        Color::RGB(r, g, b) => {
            s.append("8;2;");
            let dr = decimal_string(r as u32);
            s.append(dr.as_str());
            s.append(";");
            let dg = decimal_string(g as u32);
            s.append(dg.as_str());
            s.append(";");
            let db = decimal_string(b as u32);
            s.append(db.as_str());
            s.append("m");
        },
    }
    proof {
        assert(s@ =~= color_code(layer, c));
    }
    s
}

fn format_string(format: Format) -> (r: String)
    ensures
        r@ == format_code(format),
{
    proof {
        reveal_strlit("0m");
        reveal_strlit("1m");
        reveal_strlit("2m");
        reveal_strlit("3m");
        reveal_strlit("4m");
        reveal_strlit("5m");
        reveal_strlit("7m");
        reveal_strlit("8m");
        reveal_strlit("9m");
    }
    match format {
        Format::Reset => String::from_str("0m"),
        Format::Bold => String::from_str("1m"),
        Format::Dim => String::from_str("2m"),
        Format::Italic => String::from_str("3m"),
        Format::Underline => String::from_str("4m"),
        Format::BlinkingCursor => String::from_str("5m"),
        Format::ReverseColors => String::from_str("7m"),
        Format::Hidden => String::from_str("8m"),
        Format::Strikethrough => String::from_str("9m"),
        Format::Fg(c) => color_string(true, c),
        Format::Bg(c) => color_string(false, c),
    }
}

/// The control sequence that applies `format`.
pub fn get_format(format: Format) -> (r: String)
    ensures
        r@ == csi(format_code(format)),
{
    let code = format_string(format);
    get_sequence(code.as_str())
}

/// `string` with the sequences of `formats` before it and a reset after it.
pub fn format_str(string: &str, formats: &[Format]) -> (r: String)
    ensures
        r@ == format_prefix(formats@) + string@ + reset_sequence(),
{
    let mut result = String::from_str("");
    proof {
        reveal_strlit("");
        reveal_strlit("\x1b[0m");
    }
    let mut i: usize = 0;
    while i < formats.len()
        invariant
            i <= formats@.len(),
            result@ == format_prefix(formats@.subrange(0, i as int)),
        decreases formats@.len() - i,
    {
        let seq = get_format(formats[i]);
        result.append(seq.as_str());
        proof {
            let next = formats@.subrange(0, i + 1);
            assert(next.drop_last() =~= formats@.subrange(0, i as int));
            assert(next.last() == formats@[i as int]);
        }
        i += 1;
    }
    proof {
        assert(formats@.subrange(0, formats@.len() as int) =~= formats@);
    }
    result.append(string);
    result.append("\x1b[0m");
    result
}

} // verus!
