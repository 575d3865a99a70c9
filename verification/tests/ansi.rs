use fmtview::tui::ansi::{
    draw_cells_with_buffer, push_cursor_move, push_u16, write_bg, write_fg, write_modifier, Cell,
    Color, Modifier,
};

fn cell(symbol: &str, fg: Color, bg: Color, modifier: Modifier) -> Cell {
    Cell { symbol: symbol.to_owned(), fg, bg, modifier }
}

#[test]
fn terminal_writer_writes_compact_indexed_colors() {
    let cell = cell("x", Color::Indexed(75), Color::Reset, Modifier::empty());
    let mut output = Vec::new();

    draw_cells_with_buffer(&[(0, 0, cell)], &mut output);

    let output = String::from_utf8(output).unwrap();
    assert!(output.contains("\x1b[38;5;75m"));
    assert!(!output.contains("\x1b[49m"));
}

#[test]
fn numbers_are_written_in_decimal() {
    for (value, text) in [(0u16, "0"), (7, "7"), (10, "10"), (65535, "65535"), (1204, "1204")] {
        let mut output = Vec::new();
        push_u16(&mut output, value);
        assert_eq!(String::from_utf8(output).unwrap(), text);
    }
}

#[test]
fn cursor_moves_are_one_based() {
    let mut output = Vec::new();
    push_cursor_move(&mut output, 4, 0);
    assert_eq!(output, b"\x1b[1;5H".to_vec());
}

#[test]
fn colours_and_attributes_have_their_codes() {
    let mut output = Vec::new();
    write_fg(&mut output, Color::Red);
    write_bg(&mut output, Color::LightBlue);
    write_fg(&mut output, Color::Rgb(1, 22, 255));
    write_bg(&mut output, Color::Reset);
    assert_eq!(output, b"\x1b[31m\x1b[104m\x1b[38;2;1;22;255m\x1b[49m".to_vec());
    let mut output = Vec::new();
    let mut modifier = Modifier::empty();
    modifier.bold = true;
    modifier.crossed_out = true;
    write_modifier(&mut output, modifier);
    assert_eq!(output, b"\x1b[1m\x1b[9m".to_vec());
}

#[test]
fn adjacent_cells_share_one_cursor_move() {
    let a = cell("a", Color::Reset, Color::Reset, Modifier::empty());
    let b = cell("b", Color::Reset, Color::Reset, Modifier::empty());
    let c = cell("c", Color::Green, Color::Reset, Modifier::empty());
    let mut output = Vec::new();
    draw_cells_with_buffer(&[(0, 0, a), (1, 0, b), (0, 1, c)], &mut output);
    assert_eq!(output, b"\x1b[1;1Hab\x1b[2;1H\x1b[32mc\x1b[0m".to_vec());
}
