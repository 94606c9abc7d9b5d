use terminal_renderer::ansi_term::format::{format_str, get_format, Color, Format};
use terminal_renderer::ansi_term::{cursor, get_private_sequence, get_sequence, screen};
use terminal_renderer::ansi_term_old::{
    format_string, get_commands, Color as OldColor, Command, CursorMovement, Format as OldFormat,
};

#[test]
fn sequences_start_with_escape() {
    assert_eq!(get_sequence("H"), "\x1b[H");
    assert_eq!(get_private_sequence("7"), "\x1b7");
}

#[test]
fn cursor_sequences() {
    assert_eq!(cursor::get_move_home(), "\x1b[H");
    assert_eq!(cursor::get_move_to_position(3, 5), "\x1b[5;3H");
    assert_eq!(cursor::get_move_to_position(0, 120), "\x1b[120;0H");
    assert_eq!(cursor::get_move_left(0), "");
    assert_eq!(cursor::get_move_left(12), "\x1b[12D");
    assert_eq!(cursor::get_move_right(1), "\x1b[1C");
    assert_eq!(cursor::get_move_up(65535), "\x1b[65535A");
    assert_eq!(cursor::get_move_down(0), "");
    assert_eq!(cursor::get_move_down(2), "\x1b[2B");
    assert_eq!(cursor::get_move_down_to_line_start(3), "\x1b[3E");
    assert_eq!(cursor::get_move_up_to_line_start(4), "\x1b[4F");
    assert_eq!(cursor::get_move_to_column(7), "\x1b[7G");
    assert_eq!(cursor::get_save_position(), "\x1b7");
    assert_eq!(cursor::get_restore_position(), "\x1b8");
    assert_eq!(cursor::get_show(), "\x1b[?25h");
    assert_eq!(cursor::get_hide(), "\x1b[?25l");
}

#[test]
fn line_and_screen_sequences() {
    assert_eq!(terminal_renderer::ansi_term::line::get_clear_to_end(), "\x1b[0K");
    assert_eq!(terminal_renderer::ansi_term::line::get_clear_to_start(), "\x1b[1K");
    assert_eq!(terminal_renderer::ansi_term::line::get_clear(), "\x1b[2K");
    assert_eq!(screen::get_save(), "\x1b[?47h");
    assert_eq!(screen::get_restore(), "\x1b[?47l");
    assert_eq!(screen::get_activate_alternative_buffer(), "\x1b[?1049h");
    assert_eq!(screen::get_disable_alternative_buffer(), "\x1b[?1049l");
    assert_eq!(screen::get_clear_to_end(), "\x1b[0J");
    assert_eq!(screen::get_clear_to_start(), "\x1b[1J");
    assert_eq!(screen::get_clear(), "\x1b[2J");
}

#[test]
fn format_sequences() {
    assert_eq!(get_format(Format::Bold), "\x1b[1m");
    assert_eq!(get_format(Format::ReverseColors), "\x1b[7m");
    assert_eq!(get_format(Format::Fg(Color::Red)), "\x1b[31m");
    assert_eq!(get_format(Format::Bg(Color::Default)), "\x1b[49m");
    assert_eq!(get_format(Format::Fg(Color::ColorId(208))), "\x1b[38;5;208m");
    assert_eq!(get_format(Format::Bg(Color::RGB(1, 22, 255))), "\x1b[48;2;1;22;255m");
}

#[test]
fn format_str_wraps_and_resets() {
    assert_eq!(
        format_str("hi", &[Format::Bold, Format::Fg(Color::Red)]),
        "\x1b[1m\x1b[31mhi\x1b[0m"
    );
    assert_eq!(format_str("plain", &[]), "plain\x1b[0m");
}

#[test]
fn old_format_gathers_plain_codes() {
    assert_eq!(
        terminal_renderer::ansi_term_old::format(&[OldFormat::Bold, OldFormat::Fg(OldColor::ColorId(5)), OldFormat::Bg(OldColor::Blue)]),
        "\x1b[38;5;5m\x1b[1;44m"
    );
    assert_eq!(terminal_renderer::ansi_term_old::format(&[]), "\x1b[m");
    assert_eq!(
        terminal_renderer::ansi_term_old::format(&[OldFormat::Fg(OldColor::RGB(9, 8, 7)), OldFormat::Reverse]),
        "\x1b[38;2;9;8;7m\x1b[7m"
    );
    assert_eq!(format_string("x", &[OldFormat::Underline]), "\x1b[4mx\x1b[0m");
}

#[test]
fn commands_write_immediate_output_first() {
    let out = get_commands(&[
        Command::Move(CursorMovement::Up(2)),
        Command::EraseUp(1),
        Command::Move(CursorMovement::SavePos),
        Command::Move(CursorMovement::Up(0)),
        Command::EraseLine,
        Command::Move(CursorMovement::ToPosition(4, 9)),
        Command::Move(CursorMovement::UpScroll(2)),
    ]);
    assert_eq!(
        out,
        "\x1b[1F\x1b[2K\x1b[2K\x1b M\x1b M\x1b[2A\x1b 7\x1b[2K\x1b[4;9H"
    );
    assert_eq!(get_commands(&[]), "");
}
