use fmtview::transform::types::FormatKind;
use fmtview::tui::ansi::Color;
use fmtview::viewer::diff::model::DiffIntensity;
use fmtview::viewer::gutter::{
    continuation_gutter, continuation_gutter_marker, gutter_digits, line_number_gutter,
    ChatGutterMode, GutterLayout,
};
use fmtview::viewer::highlight::SpanStyle;
use fmtview::viewer::palette::{
    diff_added_inline_bg, diff_removed_line_bg, span_color, xml_depth_style,
};

#[test]
fn continuation_rows_get_ticks_every_eight_and_sixty_four_rows() {
    assert_eq!(continuation_gutter_marker(0), '┆');
    assert_eq!(continuation_gutter_marker(3), '┆');
    assert_eq!(continuation_gutter_marker(8), '┊');
    assert_eq!(continuation_gutter_marker(16), '┊');
    assert_eq!(continuation_gutter_marker(64), '┠');
    assert_eq!(continuation_gutter_marker(128), '┠');
}

#[test]
fn line_numbers_are_right_aligned_before_a_bar() {
    assert_eq!(line_number_gutter(7, 3).text, "  7 │ ");
    assert_eq!(line_number_gutter(1234, 3).text, "1234 │ ");
    assert_eq!(line_number_gutter(5, 0).text, "");
    assert_eq!(line_number_gutter(5, 2).style, SpanStyle::Gutter);
    assert_eq!(continuation_gutter(8, 2).text, "   ┊ ");
    assert_eq!(continuation_gutter(1, 0).text, "");
}

#[test]
fn the_gutter_widens_with_the_file_and_keeps_room_for_chat_roles() {
    assert_eq!(gutter_digits(100, true, false), 3);
    assert_eq!(gutter_digits(5, false, false), 4);
    assert_eq!(gutter_digits(123456, false, false), 6);
    assert_eq!(gutter_digits(100, true, true), 0);

    let wide = GutterLayout::for_view(100, true, false, FormatKind::Json, 80);
    assert_eq!(wide.chat_mode, ChatGutterMode::Compact);
    assert_eq!(wide.width(), 10);
    assert_eq!(wide.content_start(), 10);
    assert!(wide.chat_role_enabled());

    let narrow = GutterLayout::for_view(100, true, false, FormatKind::Json, 60);
    assert_eq!(narrow.chat_mode, ChatGutterMode::Off);
    assert_eq!(narrow.width(), 6);

    let selecting = GutterLayout::for_view(100, true, true, FormatKind::Json, 80);
    assert_eq!(selecting.width(), 0);

    let plain = GutterLayout::for_view(5, false, false, FormatKind::Plain, 80);
    assert_eq!(plain.width(), 7);
    assert!(!plain.chat_role_enabled());
}

#[test]
fn palette_colours_follow_the_styles() {
    assert_eq!(span_color(SpanStyle::Default), None);
    assert_eq!(span_color(SpanStyle::Key), Some(Color::Indexed(75)));
    assert_eq!(span_color(SpanStyle::Bool), Some(Color::Indexed(180)));
    assert_eq!(span_color(SpanStyle::Depth(7)), Some(Color::Indexed(176)));
    assert_eq!(xml_depth_style(6), Color::Indexed(73));
    assert_eq!(diff_removed_line_bg(DiffIntensity::Low), Color::Rgb(49, 36, 40));
    assert_eq!(diff_added_inline_bg(DiffIntensity::High), Color::Rgb(68, 108, 79));
}
