//! The gutter left of the text: line numbers, the marks of continuation
//! rows, and room for the chat role column.
use vstd::prelude::*;

use crate::decimal::{decimal_chars, push_decimal};
use crate::transform::types::FormatKind;
use crate::viewer::diff::cells::{push_spaces, spaces};
use crate::viewer::diff::model::number_digits;
use crate::viewer::highlight::{SpanStyle, StyledText};

verus! {

/// Every this many rows a continuation row gets a minor tick.
pub const WRAP_GUTTER_MINOR_TICK_ROWS: usize = 8;

/// Every this many rows a continuation row gets a major tick.
pub const WRAP_GUTTER_MAJOR_TICK_ROWS: usize = 64;

/// The width of the compact chat role column.
pub const COMPACT_CHAT_GUTTER_WIDTH: usize = 4;

/// The chat role column shows only when the text keeps at least this many
/// columns beside it.
pub const MIN_CONTENT_WIDTH_WITH_CHAT_GUTTER: usize = 58;

/// Whether the chat role column shows.
#[derive(Debug, Clone, Copy, PartialEq, Eq, Structural)]
pub enum ChatGutterMode {
    Compact,
    Off,
}

/// How the gutter is laid out: the digits of its line numbers (none in
/// selection mode) and whether the chat role column shows.
#[derive(Debug, Clone, Copy, PartialEq, Eq, Structural)]
pub struct GutterLayout {
    pub line_digits: usize,
    pub chat_mode: ChatGutterMode,
}

/// The columns the line numbers take: the digits and ` │ `, or nothing.
pub open spec fn line_number_width_spec(line_digits: int) -> int {
    if line_digits == 0 {
        0
    } else {
        line_digits + 3
    }
}

/// The columns the chat role column takes.
pub open spec fn chat_role_width_spec(mode: ChatGutterMode) -> int {
    match mode {
        ChatGutterMode::Compact => COMPACT_CHAT_GUTTER_WIDTH as int,
        ChatGutterMode::Off => 0,
    }
}

/// The mark of continuation row `row_index`: a major tick every 64 rows, a
/// minor one every 8, a dotted line otherwise.
pub open spec fn continuation_marker_spec(row_index: int) -> char {
    if row_index > 0 && row_index % (WRAP_GUTTER_MAJOR_TICK_ROWS as int) == 0 {
        '┠'
    } else if row_index > 0 && row_index % (WRAP_GUTTER_MINOR_TICK_ROWS as int) == 0 {
        '┊'
    } else {
        '┆'
    }
}

/// The mark of a continuation row.
pub fn continuation_gutter_marker(row_index: usize) -> (c: char)
    ensures
        c == continuation_marker_spec(row_index as int),
{
    if row_index > 0 && row_index % WRAP_GUTTER_MAJOR_TICK_ROWS == 0 {
        '┠'
    } else if row_index > 0 && row_index % WRAP_GUTTER_MINOR_TICK_ROWS == 0 {
        '┊'
    } else {
        '┆'
    }
}

/// The gutter text of a line's first row: its number right-aligned in the
/// digits, then ` │ `; nothing without line numbers.
pub open spec fn line_number_text(line_number: usize, line_digits: int) -> Seq<char> {
    if line_digits == 0 {
        Seq::empty()
    } else {
        let d = decimal_chars(line_number as nat);
        (if d.len() < line_digits {
            spaces(line_digits - d.len()) + d
        } else {
            d
        }) + seq![' ', '│', ' ']
    }
}

/// The gutter text of a continuation row: blanks for the digits, its mark
/// and a space; nothing without line numbers.
pub open spec fn continuation_text(row_index: int, line_digits: int) -> Seq<char> {
    if line_digits == 0 {
        Seq::empty()
    } else {
        spaces(line_digits) + seq![' ', continuation_marker_spec(row_index), ' ']
    }
}

/// A line number's gutter text takes at most 23 chars when the numbers take
/// at most 20 digits.
pub proof fn lemma_line_number_text_len(line_number: usize, line_digits: int)
    requires
        0 <= line_digits <= 20,
    ensures
        line_number_text(line_number, line_digits).len() <= 23,
        continuation_text(1, line_digits).len() <= 23,
{
    let d = decimal_chars(line_number as nat);
    if line_number >= 10 {
        crate::viewer::diff::model::lemma_digits_bound((line_number / 10) as nat);
        assert(d.len() <= 20);
    } else {
        assert(d.len() == 1);
    }
}

/// The digits the line numbers of a file take: none in selection mode; for
/// a file still being read, at least four.
pub open spec fn gutter_digits_spec(line_count: usize, line_count_exact: bool, selection_mode: bool) -> int {
    let digits = decimal_chars(line_count as nat).len() as int;
    if selection_mode {
        0
    } else if line_count_exact {
        digits
    } else if digits < 4 {
        4
    } else {
        digits
    }
}

/// The digits the line numbers of a file take.
pub fn gutter_digits(line_count: usize, line_count_exact: bool, selection_mode: bool) -> (digits: usize)
    ensures
        digits == gutter_digits_spec(line_count, line_count_exact, selection_mode),
        digits <= 20,
{
    if selection_mode {
        0
    } else if line_count_exact {
        number_digits(line_count)
    } else {
        let digits = number_digits(line_count);
        if digits < 4 {
            4
        } else {
            digits
        }
    }
}

impl GutterLayout {
    /// A gutter with line numbers of `line_digits` digits, and the chat role
    /// column when asked for and line numbers show.
    pub fn new(line_digits: usize, chat_role: bool) -> (layout: Self)
        ensures
            layout.line_digits == line_digits,
            layout.chat_mode == (if chat_role && line_digits > 0 {
                ChatGutterMode::Compact
            } else {
                ChatGutterMode::Off
            }),
    {
        GutterLayout {
            line_digits,
            chat_mode: if chat_role && line_digits > 0 {
                ChatGutterMode::Compact
            } else {
                ChatGutterMode::Off
            },
        }
    }

    /// The gutter of a view: line numbers for the file (none in selection
    /// mode), and the chat role column for JSON and JSONL when the text
    /// keeps enough columns beside it.
    pub fn for_view(
        line_count: usize,
        line_count_exact: bool,
        selection_mode: bool,
        mode: FormatKind,
        visible_width: usize,
    ) -> (layout: Self)
        ensures
            layout.line_digits == gutter_digits_spec(line_count, line_count_exact, selection_mode),
            layout.line_digits <= 20,
            ({
                let digits = gutter_digits_spec(line_count, line_count_exact, selection_mode);
                let wanted = (mode is Json || mode is Jsonl) && digits > 0;
                let width = line_number_width_spec(digits) + COMPACT_CHAT_GUTTER_WIDTH;
                let room = if visible_width > width {
                    visible_width - width
                } else {
                    0
                };
                layout.chat_mode == if wanted && room >= MIN_CONTENT_WIDTH_WITH_CHAT_GUTTER {
                    ChatGutterMode::Compact
                } else {
                    ChatGutterMode::Off
                }
            }),
    {
        let line_digits = gutter_digits(line_count, line_count_exact, selection_mode);
        let chat = match mode {
            FormatKind::Json | FormatKind::Jsonl => true,
            _ => false,
        };
        let mut layout = GutterLayout::new(line_digits, chat);
        let width = layout.width();
        let room = if visible_width > width {
            visible_width - width
        } else {
            0
        };
        if layout.chat_role_width() > 0 && room < MIN_CONTENT_WIDTH_WITH_CHAT_GUTTER {
            layout.chat_mode = ChatGutterMode::Off;
        }
        layout
    }

    /// The columns the whole gutter takes.
    pub fn width(self) -> (w: usize)
        requires
            self.line_digits <= 20,
        ensures
            w == line_number_width_spec(self.line_digits as int) + chat_role_width_spec(self.chat_mode),
    {
        self.line_number_width() + self.chat_role_width()
    }

    /// The column the text starts at.
    pub fn content_start(self) -> (c: usize)
        requires
            self.line_digits <= 20,
        ensures
            c == line_number_width_spec(self.line_digits as int) + chat_role_width_spec(self.chat_mode),
    {
        self.width()
    }

    /// The gutter of a line's first row.
    pub fn line_number(self, line_number: usize) -> (span: StyledText)
        ensures
            span.text@ == line_number_text(line_number, self.line_digits as int),
            span.style == if self.line_digits == 0 {
                SpanStyle::Default
            } else {
                SpanStyle::Gutter
            },
    {
        let mut text = String::new();
        if self.line_digits == 0 {
            assert(text@ =~= line_number_text(line_number, 0));
            return StyledText { text, style: SpanStyle::Default };
        }
        let mut digits = String::new();
        push_decimal(&mut digits, line_number);
        let len = crate::text::chars_of(digits.as_str()).len();
        if len < self.line_digits {
            push_spaces(&mut text, self.line_digits - len);
        }
        crate::text::push_str(&mut text, digits.as_str());
        crate::text::string_push(&mut text, ' ');
        crate::text::string_push(&mut text, '│');
        crate::text::string_push(&mut text, ' ');
        assert(text@ =~= line_number_text(line_number, self.line_digits as int));
        StyledText { text, style: SpanStyle::Gutter }
    }

    /// The gutter of a line's continuation row `row_index`.
    pub fn continuation(self, row_index: usize) -> (span: StyledText)
        ensures
            span.text@ == continuation_text(row_index as int, self.line_digits as int),
            span.style == if self.line_digits == 0 {
                SpanStyle::Default
            } else {
                SpanStyle::Gutter
            },
    {
        let mut text = String::new();
        if self.line_digits == 0 {
            assert(text@ =~= continuation_text(row_index as int, 0));
            return StyledText { text, style: SpanStyle::Default };
        }
        push_spaces(&mut text, self.line_digits);
        crate::text::string_push(&mut text, ' ');
        crate::text::string_push(&mut text, continuation_gutter_marker(row_index));
        crate::text::string_push(&mut text, ' ');
        assert(text@ =~= continuation_text(row_index as int, self.line_digits as int));
        StyledText { text, style: SpanStyle::Gutter }
    }

    /// Whether the chat role column shows.
    pub fn chat_role_enabled(self) -> (r: bool)
        ensures
            r == (self.chat_mode != ChatGutterMode::Off),
    {
        self.chat_mode != ChatGutterMode::Off
    }

    /// The columns the line numbers take.
    pub fn line_number_width(self) -> (w: usize)
        requires
            self.line_digits <= 20,
        ensures
            w == line_number_width_spec(self.line_digits as int),
    {
        if self.line_digits == 0 {
            0
        } else {
            self.line_digits + 3
        }
    }

    /// The columns the chat role column takes.
    pub fn chat_role_width(self) -> (w: usize)
        ensures
            w == chat_role_width_spec(self.chat_mode),
    {
        match self.chat_mode {
            ChatGutterMode::Compact => COMPACT_CHAT_GUTTER_WIDTH,
            ChatGutterMode::Off => 0,
        }
    }
}

/// The gutter of a line's first row, with line numbers of `gutter_digits`
/// digits.
pub fn line_number_gutter(line_number: usize, gutter_digits: usize) -> (span: StyledText)
    ensures
        span.text@ == line_number_text(line_number, gutter_digits as int),
{
    GutterLayout::new(gutter_digits, false).line_number(line_number)
}

/// The gutter of continuation row `row_index`, with line numbers of
/// `gutter_digits` digits.
pub fn continuation_gutter(row_index: usize, gutter_digits: usize) -> (span: StyledText)
    ensures
        span.text@ == continuation_text(row_index as int, gutter_digits as int),
{
    GutterLayout::new(gutter_digits, false).continuation(row_index)
}

} // verus!
