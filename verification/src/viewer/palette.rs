//! The viewer's colours.
use vstd::prelude::*;

use crate::tui::ansi::Color;
use crate::viewer::diff::model::DiffIntensity;
use crate::viewer::highlight::SpanStyle;

verus! {

/// The colour of plain text.
pub fn palette_text() -> (c: Color)
    ensures
        c == Color::Indexed(145),
{
    Color::Indexed(145)
}

/// The colour of the gutter, separators and punctuation.
pub fn palette_muted() -> (c: Color)
    ensures
        c == Color::Indexed(59),
{
    Color::Indexed(59)
}

/// The background of search matches.
pub fn search_match_bg() -> (c: Color)
    ensures
        c == Color::Indexed(58),
{
    Color::Indexed(58)
}

/// The colours XML element names cycle through by depth.
pub open spec fn depth_color(depth: int) -> Color {
    let k = depth % 6;
    if k == 0 {
        Color::Indexed(73)
    } else if k == 1 {
        Color::Indexed(176)
    } else if k == 2 {
        Color::Indexed(180)
    } else if k == 3 {
        Color::Indexed(114)
    } else if k == 4 {
        Color::Indexed(75)
    } else {
        Color::Indexed(173)
    }
}

/// The colour of an XML element name at `depth`: cyan, purple, yellow,
/// green, blue, orange, and round again.
pub fn xml_depth_style(depth: usize) -> (c: Color)
    ensures
        c == depth_color(depth as int),
{
    let k = depth % 6;
    if k == 0 {
        Color::Indexed(73)
    } else if k == 1 {
        Color::Indexed(176)
    } else if k == 2 {
        Color::Indexed(180)
    } else if k == 3 {
        Color::Indexed(114)
    } else if k == 4 {
        Color::Indexed(75)
    } else {
        Color::Indexed(173)
    }
}

/// The text colour of each span style; none for the terminal's own.
pub open spec fn style_color(style: SpanStyle) -> Option<Color> {
    match style {
        SpanStyle::Default => None,
        SpanStyle::Plain => Some(Color::Indexed(145)),
        SpanStyle::DiffFile => Some(Color::Indexed(145)),
        SpanStyle::Gutter => Some(Color::Indexed(59)),
        SpanStyle::Punctuation => Some(Color::Indexed(59)),
        SpanStyle::Key => Some(Color::Indexed(75)),
        SpanStyle::Null => Some(Color::Indexed(75)),
        SpanStyle::Attr => Some(Color::Indexed(180)),
        SpanStyle::Bool => Some(Color::Indexed(180)),
        SpanStyle::DiffHunk => Some(Color::Indexed(180)),
        SpanStyle::Str => Some(Color::Indexed(114)),
        SpanStyle::DiffAdded => Some(Color::Indexed(114)),
        SpanStyle::Escape => Some(Color::Indexed(176)),
        SpanStyle::Number => Some(Color::Indexed(173)),
        SpanStyle::Error => Some(Color::Indexed(168)),
        SpanStyle::DiffRemoved => Some(Color::Indexed(168)),
        SpanStyle::Depth(depth) => Some(depth_color(depth as int)),
    }
}

/// The text colour a span style is drawn in.
pub fn span_color(style: SpanStyle) -> (c: Option<Color>)
    ensures
        c == style_color(style),
{
    match style {
        SpanStyle::Default => None,
        SpanStyle::Plain | SpanStyle::DiffFile => Some(palette_text()),
        SpanStyle::Gutter | SpanStyle::Punctuation => Some(palette_muted()),
        SpanStyle::Key | SpanStyle::Null => Some(Color::Indexed(75)),
        SpanStyle::Attr | SpanStyle::Bool | SpanStyle::DiffHunk => Some(Color::Indexed(180)),
        SpanStyle::Str | SpanStyle::DiffAdded => Some(Color::Indexed(114)),
        SpanStyle::Escape => Some(Color::Indexed(176)),
        SpanStyle::Number => Some(Color::Indexed(173)),
        SpanStyle::Error | SpanStyle::DiffRemoved => Some(Color::Indexed(168)),
        SpanStyle::Depth(depth) => Some(xml_depth_style(depth)),
    }
}

pub open spec fn added_line_color(intensity: DiffIntensity) -> Color {
    match intensity {
        DiffIntensity::Low => Color::Rgb(24, 43, 35),
        DiffIntensity::Medium => Color::Rgb(33, 58, 45),
        DiffIntensity::High => Color::Rgb(43, 73, 56),
    }
}

/// The background of an added line, by how strongly it is marked.
pub fn diff_added_line_bg(intensity: DiffIntensity) -> (c: Color)
    ensures
        c == added_line_color(intensity),
{
    match intensity {
        DiffIntensity::Low => Color::Rgb(24, 43, 35),
        DiffIntensity::Medium => Color::Rgb(33, 58, 45),
        DiffIntensity::High => Color::Rgb(43, 73, 56),
    }
}

pub open spec fn added_inline_color(intensity: DiffIntensity) -> Color {
    match intensity {
        DiffIntensity::Low => Color::Rgb(44, 75, 58),
        DiffIntensity::Medium => Color::Rgb(55, 90, 67),
        DiffIntensity::High => Color::Rgb(68, 108, 79),
    }
}

/// The background of the changed part of an added line.
pub fn diff_added_inline_bg(intensity: DiffIntensity) -> (c: Color)
    ensures
        c == added_inline_color(intensity),
{
    match intensity {
        DiffIntensity::Low => Color::Rgb(44, 75, 58),
        DiffIntensity::Medium => Color::Rgb(55, 90, 67),
        DiffIntensity::High => Color::Rgb(68, 108, 79),
    }
}

pub open spec fn removed_line_color(intensity: DiffIntensity) -> Color {
    match intensity {
        DiffIntensity::Low => Color::Rgb(49, 36, 40),
        DiffIntensity::Medium => Color::Rgb(64, 45, 50),
        DiffIntensity::High => Color::Rgb(78, 55, 60),
    }
}

/// The background of a removed line.
pub fn diff_removed_line_bg(intensity: DiffIntensity) -> (c: Color)
    ensures
        c == removed_line_color(intensity),
{
    match intensity {
        DiffIntensity::Low => Color::Rgb(49, 36, 40),
        DiffIntensity::Medium => Color::Rgb(64, 45, 50),
        DiffIntensity::High => Color::Rgb(78, 55, 60),
    }
}

pub open spec fn removed_inline_color(intensity: DiffIntensity) -> Color {
    match intensity {
        DiffIntensity::Low => Color::Rgb(77, 55, 60),
        DiffIntensity::Medium => Color::Rgb(94, 65, 70),
        DiffIntensity::High => Color::Rgb(112, 78, 82),
    }
}

/// The background of the changed part of a removed line.
pub fn diff_removed_inline_bg(intensity: DiffIntensity) -> (c: Color)
    ensures
        c == removed_inline_color(intensity),
{
    match intensity {
        DiffIntensity::Low => Color::Rgb(77, 55, 60),
        DiffIntensity::Medium => Color::Rgb(94, 65, 70),
        DiffIntensity::High => Color::Rgb(112, 78, 82),
    }
}

} // verus!
