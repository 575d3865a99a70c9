//! Writing cells to a terminal as ANSI escape sequences.
use vstd::prelude::*;
use vstd::string::StringSliceAdditionalSpecFns;

use crate::bytes::push_bytes;

verus! {

/// A terminal colour.
#[derive(Debug, Clone, Copy, PartialEq, Eq, Structural)]
pub enum Color {
    Reset,
    Black,
    Red,
    Green,
    Yellow,
    Blue,
    Magenta,
    Cyan,
    Gray,
    DarkGray,
    LightRed,
    LightGreen,
    LightYellow,
    LightBlue,
    LightMagenta,
    LightCyan,
    White,
    Indexed(u8),
    Rgb(u8, u8, u8),
}

/// Text attributes.
#[derive(Debug, Clone, Copy, PartialEq, Eq, Structural)]
pub struct Modifier {
    pub bold: bool,
    pub dim: bool,
    pub italic: bool,
    pub underlined: bool,
    pub slow_blink: bool,
    pub rapid_blink: bool,
    pub reversed: bool,
    pub hidden: bool,
    pub crossed_out: bool,
}

impl Modifier {
    /// No attribute.
    pub fn empty() -> (m: Self)
        ensures
            m == Modifier::empty_spec(),
    {
        Modifier {
            bold: false,
            dim: false,
            italic: false,
            underlined: false,
            slow_blink: false,
            rapid_blink: false,
            reversed: false,
            hidden: false,
            crossed_out: false,
        }
    }

    pub open spec fn empty_spec() -> Self {
        Modifier {
            bold: false,
            dim: false,
            italic: false,
            underlined: false,
            slow_blink: false,
            rapid_blink: false,
            reversed: false,
            hidden: false,
            crossed_out: false,
        }
    }
}

/// One cell of the screen: its text and how it looks.
#[derive(Debug, Clone)]
pub struct Cell {
    pub symbol: String,
    pub fg: Color,
    pub bg: Color,
    pub modifier: Modifier,
}

/// The decimal digits of `v`, most significant first, as ASCII bytes.
pub open spec fn digits(v: nat) -> Seq<u8>
    decreases v,
{
    if v < 10 {
        seq![(48 + v) as u8]
    } else {
        digits(v / 10).push((48 + v % 10) as u8)
    }
}

/// The number that the ASCII digits `s` write.
pub open spec fn digits_value(s: Seq<u8>) -> int
    decreases s.len(),
{
    if s.len() == 0 {
        0
    } else {
        10 * digits_value(s.drop_last()) + (s.last() - 48)
    }
}

/// The digits of a number read back as the number, and the first digit is a
/// zero only for zero itself.
pub proof fn law_digits_read_back(v: nat)
    ensures
        digits_value(digits(v)) == v,
        digits(v).len() > 0,
        forall|i: int| 0 <= i < digits(v).len() ==> 48 <= #[trigger] digits(v)[i] <= 57,
        v > 0 ==> digits(v)[0] != 48,
    decreases v,
{
    if v >= 10 {
        law_digits_read_back(v / 10);
        assert(digits(v).drop_last() =~= digits(v / 10));
        assert(0 <= v % 10 < 10);
        assert(digits(v).last() == 48 + v % 10);
        assert(10 * (v / 10) + v % 10 == v);
        assert(digits_value(digits(v)) == 10 * digits_value(digits(v).drop_last()) + (digits(v).last() - 48));
    } else {
        assert(digits(v).last() == 48 + v);
        assert(digits(v).drop_last() =~= Seq::<u8>::empty());
        assert(digits_value(Seq::<u8>::empty()) == 0);
        assert(digits_value(digits(v)) == 10 * digits_value(digits(v).drop_last()) + (digits(v).last() - 48));
    }
}

/// Appends the decimal digits of `value`.
pub fn push_u16(output: &mut Vec<u8>, value: u16)
    ensures
        final(output)@ == old(output)@ + digits(value as nat),
    decreases value,
{
    if value >= 10 {
        push_u16(output, value / 10);
    }
    let ghost before = output@;
    output.push(48 + (value % 10) as u8);
    proof {
        if value >= 10 {
            assert(output@ =~= old(output)@ + digits(value as nat));
        } else {
            assert(output@ =~= old(output)@ + digits(value as nat));
        }
    }
}

/// Appends the decimal digits of `value`.
pub fn push_u8(output: &mut Vec<u8>, value: u8)
    ensures
        final(output)@ == old(output)@ + digits(value as nat),
{
    push_u16(output, value as u16);
}

pub proof fn lemma_digits_len(v: nat)
    ensures
        v < 10 ==> digits(v).len() == 1,
        10 <= v < 100 ==> digits(v).len() == 2,
        100 <= v < 1000 ==> digits(v).len() == 3,
        1000 <= v < 10000 ==> digits(v).len() == 4,
        10000 <= v < 100000 ==> digits(v).len() == 5,
    decreases v,
{
    if v >= 10 {
        lemma_digits_len(v / 10);
    }
}

} // verus!

verus! {

/// `ESC [`, which opens a control sequence.
pub open spec fn csi() -> Seq<u8> {
    seq![27u8, 91u8]
}

/// The sequence that selects graphic rendition `code`.
pub open spec fn sgr(code: nat) -> Seq<u8> {
    csi() + digits(code) + seq![109u8]
}

/// Appends the sequence that selects graphic rendition `code`.
pub fn push_sgr(output: &mut Vec<u8>, code: u8)
    ensures
        final(output)@ == old(output)@ + sgr(code as nat),
{
    output.push(27);
    output.push(91);
    push_u8(output, code);
    output.push(109);
    assert(output@ =~= old(output)@ + sgr(code as nat));
}

/// `v + 1`, saturating.
pub open spec fn one_based(v: u16) -> nat {
    if v == u16::MAX {
        v as nat
    } else {
        (v + 1) as nat
    }
}

/// The sequence that moves the cursor to column `x`, row `y` (both from 0).
#[verifier::opaque]
pub open spec fn cursor_move(x: u16, y: u16) -> Seq<u8> {
    csi() + digits(one_based(y)) + seq![59u8] + digits(one_based(x)) + seq![72u8]
}

/// Appends the sequence that moves the cursor to column `x`, row `y`.
pub fn push_cursor_move(output: &mut Vec<u8>, x: u16, y: u16)
    ensures
        final(output)@ == old(output)@ + cursor_move(x, y),
{
    output.push(27);
    output.push(91);
    push_u16(output, if y == u16::MAX {
        y
    } else {
        y + 1
    });
    output.push(59);
    push_u16(output, if x == u16::MAX {
        x
    } else {
        x + 1
    });
    output.push(72);
    reveal(cursor_move);
    assert(output@ =~= old(output)@ + cursor_move(x, y));
}

/// `s` when `on`, else nothing.
pub open spec fn when(on: bool, s: Seq<u8>) -> Seq<u8> {
    if on {
        s
    } else {
        Seq::empty()
    }
}

/// The sequences that turn on the attributes of `m`, in the order of their
/// codes.
#[verifier::opaque]
pub open spec fn modifier_codes(m: Modifier) -> Seq<u8> {
    when(m.bold, sgr(1)) + when(m.dim, sgr(2)) + when(m.italic, sgr(3)) + when(
        m.underlined,
        sgr(4),
    ) + when(m.slow_blink, sgr(5)) + when(m.rapid_blink, sgr(6)) + when(m.reversed, sgr(7))
        + when(m.hidden, sgr(8)) + when(m.crossed_out, sgr(9))
}

/// Appends `sgr(code)` when `on`.
fn push_sgr_when(output: &mut Vec<u8>, on: bool, code: u8)
    ensures
        final(output)@ == old(output)@ + when(on, sgr(code as nat)),
{
    if on {
        push_sgr(output, code);
    } else {
        assert(output@ =~= old(output)@ + Seq::<u8>::empty());
    }
}

/// Appending in two steps is appending the two together.
pub proof fn lemma_append_assoc(x: Seq<u8>, a: Seq<u8>, b: Seq<u8>)
    ensures
        x + a + b == x + (a + b),
{
    assert(x + a + b =~= x + (a + b));
}

/// Appends the sequences that turn on the attributes of `m`.
pub fn write_modifier(output: &mut Vec<u8>, m: Modifier)
    ensures
        final(output)@ == old(output)@ + modifier_codes(m),
{
    let ghost start = output@;
    let ghost c1 = when(m.bold, sgr(1));
    let ghost c2 = when(m.dim, sgr(2));
    let ghost c3 = when(m.italic, sgr(3));
    let ghost c4 = when(m.underlined, sgr(4));
    let ghost c5 = when(m.slow_blink, sgr(5));
    let ghost c6 = when(m.rapid_blink, sgr(6));
    let ghost c7 = when(m.reversed, sgr(7));
    let ghost c8 = when(m.hidden, sgr(8));
    let ghost c9 = when(m.crossed_out, sgr(9));
    push_sgr_when(output, m.bold, 1);
    push_sgr_when(output, m.dim, 2);
    proof { lemma_append_assoc(start, c1, c2); }
    push_sgr_when(output, m.italic, 3);
    proof { lemma_append_assoc(start, c1 + c2, c3); }
    push_sgr_when(output, m.underlined, 4);
    proof { lemma_append_assoc(start, c1 + c2 + c3, c4); }
    push_sgr_when(output, m.slow_blink, 5);
    proof { lemma_append_assoc(start, c1 + c2 + c3 + c4, c5); }
    push_sgr_when(output, m.rapid_blink, 6);
    proof { lemma_append_assoc(start, c1 + c2 + c3 + c4 + c5, c6); }
    push_sgr_when(output, m.reversed, 7);
    proof { lemma_append_assoc(start, c1 + c2 + c3 + c4 + c5 + c6, c7); }
    push_sgr_when(output, m.hidden, 8);
    proof { lemma_append_assoc(start, c1 + c2 + c3 + c4 + c5 + c6 + c7, c8); }
    push_sgr_when(output, m.crossed_out, 9);
    proof {
        lemma_append_assoc(start, c1 + c2 + c3 + c4 + c5 + c6 + c7 + c8, c9);
        reveal(modifier_codes);
    }
}

/// The sequence that selects `color`: `reset` for the default, `base` plus
/// 0 to 7 for the eight colours, `bright_base` plus 0 to 7 for their bright
/// forms, and `extended_prefix` with `5` and an index, or `2` and three
/// components, for the others.
#[verifier::opaque]
pub open spec fn color_code(extended_prefix: u8, reset: u8, base: u8, bright_base: u8, color: Color) -> Seq<u8> {
    match color {
        Color::Reset => sgr(reset as nat),
        Color::Black => sgr(base as nat),
        Color::Red => sgr((base + 1) as nat),
        Color::Green => sgr((base + 2) as nat),
        Color::Yellow => sgr((base + 3) as nat),
        Color::Blue => sgr((base + 4) as nat),
        Color::Magenta => sgr((base + 5) as nat),
        Color::Cyan => sgr((base + 6) as nat),
        Color::Gray => sgr((base + 7) as nat),
        Color::DarkGray => sgr(bright_base as nat),
        Color::LightRed => sgr((bright_base + 1) as nat),
        Color::LightGreen => sgr((bright_base + 2) as nat),
        Color::LightYellow => sgr((bright_base + 3) as nat),
        Color::LightBlue => sgr((bright_base + 4) as nat),
        Color::LightMagenta => sgr((bright_base + 5) as nat),
        Color::LightCyan => sgr((bright_base + 6) as nat),
        Color::White => sgr((bright_base + 7) as nat),
        Color::Indexed(index) => csi() + digits(extended_prefix as nat) + seq![59u8, 53u8, 59u8]
            + digits(index as nat) + seq![109u8],
        Color::Rgb(red, green, blue) => csi() + digits(extended_prefix as nat) + seq![
            59u8,
            50u8,
            59u8,
        ] + digits(red as nat) + seq![59u8] + digits(green as nat) + seq![59u8] + digits(
            blue as nat,
        ) + seq![109u8],
    }
}

/// Appends the sequence that selects `color`.
pub fn write_color(
    output: &mut Vec<u8>,
    extended_prefix: u8,
    reset: u8,
    base: u8,
    bright_base: u8,
    color: Color,
)
    requires
        base + 7 <= u8::MAX,
        bright_base + 7 <= u8::MAX,
    ensures
        final(output)@ == old(output)@ + color_code(extended_prefix, reset, base, bright_base, color),
{
    reveal(color_code);
    match color {
        Color::Reset => push_sgr(output, reset),
        Color::Black => push_sgr(output, base),
        Color::Red => push_sgr(output, base + 1),
        Color::Green => push_sgr(output, base + 2),
        Color::Yellow => push_sgr(output, base + 3),
        Color::Blue => push_sgr(output, base + 4),
        Color::Magenta => push_sgr(output, base + 5),
        Color::Cyan => push_sgr(output, base + 6),
        Color::Gray => push_sgr(output, base + 7),
        Color::DarkGray => push_sgr(output, bright_base),
        Color::LightRed => push_sgr(output, bright_base + 1),
        Color::LightGreen => push_sgr(output, bright_base + 2),
        Color::LightYellow => push_sgr(output, bright_base + 3),
        Color::LightBlue => push_sgr(output, bright_base + 4),
        Color::LightMagenta => push_sgr(output, bright_base + 5),
        Color::LightCyan => push_sgr(output, bright_base + 6),
        Color::White => push_sgr(output, bright_base + 7),
        Color::Indexed(index) => {
            output.push(27);
            output.push(91);
            push_u8(output, extended_prefix);
            output.push(59);
            output.push(53);
            output.push(59);
            push_u8(output, index);
            output.push(109);
            assert(output@ =~= old(output)@ + color_code(
                extended_prefix,
                reset,
                base,
                bright_base,
                color,
            ));
        },
        Color::Rgb(red, green, blue) => {
            output.push(27);
            output.push(91);
            push_u8(output, extended_prefix);
            output.push(59);
            output.push(50);
            output.push(59);
            push_u8(output, red);
            output.push(59);
            push_u8(output, green);
            output.push(59);
            push_u8(output, blue);
            output.push(109);
            assert(output@ =~= old(output)@ + color_code(
                extended_prefix,
                reset,
                base,
                bright_base,
                color,
            ));
        },
    }
}

/// Appends the sequence that selects the foreground `color`.
pub fn write_fg(output: &mut Vec<u8>, color: Color)
    ensures
        final(output)@ == old(output)@ + color_code(38, 39, 30, 90, color),
{
    write_color(output, 38, 39, 30, 90, color)
}

/// Appends the sequence that selects the background `color`.
pub fn write_bg(output: &mut Vec<u8>, color: Color)
    ensures
        final(output)@ == old(output)@ + color_code(48, 49, 40, 100, color),
{
    write_color(output, 48, 49, 40, 100, color)
}

} // verus!

verus! {

/// What the terminal was last told: colours, attributes, and the cell the
/// cursor was last at.
#[derive(Debug, Clone, Copy)]
pub struct PenState {
    pub fg: Color,
    pub bg: Color,
    pub modifier: Modifier,
    pub last: Option<(u16, u16)>,
}

/// The state before any cell is written.
pub open spec fn fresh_pen() -> PenState {
    PenState {
        fg: Color::Reset,
        bg: Color::Reset,
        modifier: Modifier::empty_spec(),
        last: None,
    }
}

/// `x` is the column right after the last one written, on the same row.
pub open spec fn follows(last: Option<(u16, u16)>, x: u16, y: u16) -> bool {
    match last {
        Some((lx, ly)) => x == one_based(lx) && y == ly,
        None => false,
    }
}

/// The bytes for one cell and the state after it: a cursor move unless the
/// cell follows the last one, a reset and the attributes when they change,
/// the colours when they change, then the cell's text.
pub open spec fn cell_bytes(pen: PenState, x: u16, y: u16, cell: Cell) -> (Seq<u8>, PenState) {
    let moved = if follows(pen.last, x, y) {
        Seq::<u8>::empty()
    } else {
        cursor_move(x, y)
    };
    let (attrs, fg0, bg0) = if cell.modifier != pen.modifier {
        (sgr(0) + modifier_codes(cell.modifier), Color::Reset, Color::Reset)
    } else {
        (Seq::<u8>::empty(), pen.fg, pen.bg)
    };
    let fg_bytes = if cell.fg != fg0 {
        color_code(38, 39, 30, 90, cell.fg)
    } else {
        Seq::<u8>::empty()
    };
    let bg_bytes = if cell.bg != bg0 {
        color_code(48, 49, 40, 100, cell.bg)
    } else {
        Seq::<u8>::empty()
    };
    (
        moved + attrs + fg_bytes + bg_bytes + vstd::utf8::encode_utf8(cell.symbol@),
        PenState { fg: cell.fg, bg: cell.bg, modifier: cell.modifier, last: Some((x, y)) },
    )
}

/// The bytes for `cells` from `pen` on, ending with a reset.
pub open spec fn cells_bytes(cells: Seq<(u16, u16, Cell)>, pen: PenState) -> Seq<u8>
    decreases cells.len(),
{
    if cells.len() == 0 {
        sgr(0)
    } else {
        let (bytes, next) = cell_bytes(pen, cells[0].0, cells[0].1, cells[0].2);
        bytes + cells_bytes(cells.skip(1), next)
    }
}

/// Writes one cell, and what the terminal was told after it.
#[verifier::rlimit(40)]
pub fn draw_cell(output: &mut Vec<u8>, pen: &mut PenState, x: u16, y: u16, cell: &Cell)
    ensures
        final(output)@ == old(output)@ + cell_bytes(*old(pen), x, y, *cell).0,
        *final(pen) == cell_bytes(*old(pen), x, y, *cell).1,
{
    let ghost step = cell_bytes(*pen, x, y, *cell);
    let ghost before = output@;
    let follows_last = match pen.last {
        Some((lx, ly)) => x == (if lx == u16::MAX {
            lx
        } else {
            lx + 1
        }) && y == ly,
        None => false,
    };
    if !follows_last {
        push_cursor_move(output, x, y);
    }
    let ghost after_move = output@;
    let mut fg = pen.fg;
    let mut bg = pen.bg;
    if cell.modifier != pen.modifier {
        push_sgr(output, 0);
        write_modifier(output, cell.modifier);
        fg = Color::Reset;
        bg = Color::Reset;
    }
    let ghost after_attrs = output@;
    if cell.fg != fg {
        write_fg(output, cell.fg);
    }
    let ghost after_fg = output@;
    if cell.bg != bg {
        write_bg(output, cell.bg);
    }
    let ghost after_bg = output@;
    crate::bytes::push_bytes(output, cell.symbol.as_str().as_bytes());
    pen.fg = cell.fg;
    pen.bg = cell.bg;
    pen.modifier = cell.modifier;
    pen.last = Some((x, y));
    proof {
        let m = after_move.subrange(before.len() as int, after_move.len() as int);
        let a = after_attrs.subrange(after_move.len() as int, after_attrs.len() as int);
        let f = after_fg.subrange(after_attrs.len() as int, after_fg.len() as int);
        let b = after_bg.subrange(after_fg.len() as int, after_bg.len() as int);
        assert(after_move =~= before + m);
        assert(after_attrs =~= after_move + a);
        assert(after_fg =~= after_attrs + f);
        assert(after_bg =~= after_fg + b);
        lemma_append_assoc(before, m, a);
        lemma_append_assoc(before, m + a, f);
        lemma_append_assoc(before, m + a + f, b);
        lemma_append_assoc(before, m + a + f + b, vstd::utf8::encode_utf8(cell.symbol@));
    }
}

/// Writes `cells` (column, row, cell) as the bytes that draw them, replacing
/// what `output` held.
pub fn draw_cells_with_buffer(content: &[(u16, u16, Cell)], output: &mut Vec<u8>)
    ensures
        final(output)@ == cells_bytes(content@, fresh_pen()),
{
    output.clear();
    let mut pen = PenState {
        fg: Color::Reset,
        bg: Color::Reset,
        modifier: Modifier::empty(),
        last: None,
    };
    let mut i: usize = 0;
    assert(content@.skip(0) =~= content@);
    assert(output@ + cells_bytes(content@, fresh_pen()) =~= cells_bytes(content@, fresh_pen()));
    while i < content.len()
        invariant
            i <= content@.len(),
            cells_bytes(content@, fresh_pen()) == output@ + cells_bytes(
                content@.skip(i as int),
                pen,
            ),
        decreases content@.len() - i,
    {
        let ghost old_pen = pen;
        let ghost before = output@;
        let (x, y, ref cell) = content[i];
        let ghost step = cell_bytes(old_pen, x, y, *cell);
        assert(content@.skip(i as int)[0] == content@[i as int]);
        assert(content@.skip(i as int).skip(1) =~= content@.skip(i + 1));
        draw_cell(output, &mut pen, x, y, cell);
        proof {
            lemma_append_assoc(before, step.0, cells_bytes(content@.skip(i + 1), step.1));
        }
        i += 1;
    }
    crate::bytes::push_bytes(output, &[27u8, 91, 48, 109]);
    proof {
        assert(content@.skip(i as int).len() == 0);
        assert(digits(0) =~= seq![48u8]);
        assert(sgr(0) =~= seq![27u8, 91, 48, 109]);
    }
}

} // verus!
