//! Choosing how a whole line is coloured.
use vstd::prelude::*;

use crate::text::chars_of;
use crate::viewer::input::points::{lemma_skip_ws, skip_ws, skip_ws_from};

use super::checkpoints::{resume_point, HighlightCheckpointIndex, XmlHighlightCheckpoint};
use super::json::{highlight_json_like_window, json_line_scan};
use super::xml::{highlight_xml_line_window, indent_weight, inline_resume, xml_inline_scan};
use super::{
    in_window, lemma_spans_styles_append,
    lemma_spans_styles_empty, lemma_spans_text_append, piece, push_span_window, run,
    lemma_spans_tidy_append, spans_styles, spans_text, spans_tidy, valid_window, SpanStyle,
    StyledText,
};

verus! {

/// How the lines of a view are read: as plain structured text, or as a diff
/// whose payload is structured text.
#[derive(Debug, Clone, Copy, PartialEq, Eq, Structural)]
pub enum ViewMode {
    Plain,
    Diff,
}

/// The line starts (after its indent) with `<`.
pub open spec fn starts_as_xml(line: Seq<char>) -> bool {
    skip_ws(line, 0) < line.len() && line[skip_ws(line, 0)] == '<'
}

/// The style of each char of the window of a line read as structured text,
/// resuming from the checkpoints `json_cps` inside JSON string values or
/// `xml_cps` along XML: as XML (depths counted from the indent) when it
/// starts with `<`, else as JSON.
pub open spec fn structured_styles(
    line: Seq<char>,
    window_start: int,
    window_end: int,
    json_cps: Seq<XmlHighlightCheckpoint>,
    xml_cps: Seq<XmlHighlightCheckpoint>,
) -> Seq<SpanStyle> {
    if starts_as_xml(line) {
        let (first, st) = inline_resume(xml_cps, window_start as usize, 0, line.len() as int);
        in_window(
            xml_inline_scan(
                line,
                first,
                line.len() as int,
                window_end,
                (indent_weight(line, 0) / 2) as usize,
                st,
            ),
            first,
            window_start,
            window_end,
        )
    } else {
        let (first, value_state) = resume_point(json_cps, window_start as usize);
        in_window(json_line_scan(line, first, window_end, value_state), first, window_start, window_end)
    }
}

/// Colours a line as XML when it starts (after its indent) with `<`, else as
/// JSON.
pub fn highlight_structured_window(
    line: &[char],
    window_start: usize,
    window_end: usize,
    checkpoints: &mut HighlightCheckpointIndex,
) -> (spans: Vec<StyledText>)
    requires
        valid_window(line@, window_start as int, window_end as int),
        line@.len() <= usize::MAX / 8,
        old(checkpoints).wf(),
    ensures
        spans_tidy(spans@),
        final(checkpoints).wf(),
        spans_text(spans@) == line@.subrange(window_start as int, window_end as int),
        spans_styles(spans@) == structured_styles(
            line@,
            window_start as int,
            window_end as int,
            old(checkpoints).json_value_strings@,
            old(checkpoints).xml_lines@,
        ),
{
    let first = skip_ws_from(line, 0);
    proof {
        lemma_skip_ws(line@, 0);
    }
    if first < line.len() && line[first] == '<' {
        highlight_xml_line_window(line, window_start, window_end, checkpoints)
    } else {
        highlight_json_like_window(line, window_start, window_end, checkpoints)
    }
}

/// `line[1..]`.
fn after_marker(line: &[char]) -> (rest: &[char])
    requires
        line@.len() >= 1,
    ensures
        rest@ == line@.skip(1),
{
    let rest = vstd::slice::slice_subrange(line, 1, line.len());
    assert(rest@ =~= line@.skip(1));
    rest
}

/// The style of each char of the window of a diff line: its marker in
/// `marker_style`, the rest read as structured text from its start.
pub open spec fn payload_styles(
    line: Seq<char>,
    marker_style: SpanStyle,
    window_start: int,
    window_end: int,
) -> Seq<SpanStyle> {
    let sub_start = if window_start > 0 {
        window_start - 1
    } else {
        0
    };
    let sub_end = if window_end > 0 {
        window_end - 1
    } else {
        0
    };
    in_window(run(1, marker_style), 0, window_start, window_end) + structured_styles(
        line.skip(1),
        sub_start,
        sub_end,
        Seq::empty(),
        Seq::empty(),
    )
}

/// Colours a diff line: its `+` or `-` marker in `marker_style`, the rest as
/// structured text.
pub fn highlight_diff_payload_window(
    line: &[char],
    marker_style: SpanStyle,
    window_start: usize,
    window_end: usize,
) -> (spans: Vec<StyledText>)
    requires
        valid_window(line@, window_start as int, window_end as int),
        1 <= line@.len() <= usize::MAX / 8,
    ensures
        marker_style != SpanStyle::Default ==> spans_tidy(spans@),
        spans_text(spans@) == line@.subrange(window_start as int, window_end as int),
        spans_styles(spans@) == payload_styles(line@, marker_style, window_start as int, window_end as int),
{
    let mut spans: Vec<StyledText> = Vec::new();
    proof {
        lemma_spans_styles_empty();
    }
    push_span_window(&mut spans, line, 0, 1, marker_style, window_start, window_end);
    let rest = after_marker(line);
    let sub_start = if window_start > 0 {
        window_start - 1
    } else {
        0
    };
    let sub_end = if window_end > 0 {
        window_end - 1
    } else {
        0
    };
    let mut fresh = HighlightCheckpointIndex::new();
    let mut payload = highlight_structured_window(rest, sub_start, sub_end, &mut fresh);
    let ghost marker_spans = spans@;
    let ghost payload_spans = payload@;
    spans.append(&mut payload);
    proof {
        assert(spans@ =~= marker_spans + payload_spans);
        lemma_spans_text_append(marker_spans, payload_spans);
        assert(spans_text(Seq::<StyledText>::empty()) =~= Seq::<char>::empty());
        assert(rest@.subrange(sub_start as int, sub_end as int) =~= line@.subrange(
            sub_start + 1,
            sub_end + 1,
        ));
        assert(spans_text(spans@) =~= line@.subrange(window_start as int, window_end as int));
        lemma_spans_styles_append(marker_spans, payload_spans);
        if marker_style != SpanStyle::Default {
            assert(spans_tidy(Seq::<StyledText>::empty()));
            lemma_spans_tidy_append(marker_spans, payload_spans);
        }
        assert(spans_styles(marker_spans) =~= in_window(run(1 - 0, marker_style), 0, window_start as int, window_end as int));
        assert(run(1 - 0, marker_style) =~= run(1, marker_style));
    }
    spans
}

/// `window_start..window_end` clamped to `line`.
pub open spec fn clamped_window(line: Seq<char>, window_start: int, window_end: int) -> (int, int) {
    let ws = if window_start < line.len() {
        window_start
    } else {
        line.len() as int
    };
    let we0 = if window_end < line.len() {
        window_end
    } else {
        line.len() as int
    };
    (ws, if we0 < ws {
        ws
    } else {
        we0
    })
}

/// The style of each char of the window `ws..we` of a line read as `mode`
/// reads it, resuming from the checkpoints `json_cps` and `xml_cps`: diff
/// hunk and file headers wholly in their own styles, added and removed lines
/// by `payload_styles`, the rest as structured text.
pub open spec fn content_styles(
    line: Seq<char>,
    mode: ViewMode,
    ws: int,
    we: int,
    json_cps: Seq<XmlHighlightCheckpoint>,
    xml_cps: Seq<XmlHighlightCheckpoint>,
) -> Seq<SpanStyle> {
    let len = line.len() as int;
    match mode {
        ViewMode::Plain => structured_styles(line, ws, we, json_cps, xml_cps),
        ViewMode::Diff => if len >= 2 && line[0] == '@' && line[1] == '@' {
            in_window(run(len, SpanStyle::DiffHunk), 0, ws, we)
        } else if len >= 3 && ((line[0] == '+' && line[1] == '+' && line[2] == '+') || (line[0]
            == '-' && line[1] == '-' && line[2] == '-')) {
            in_window(run(len, SpanStyle::DiffFile), 0, ws, we)
        } else if len >= 1 && line[0] == '+' {
            payload_styles(line, SpanStyle::DiffAdded, ws, we)
        } else if len >= 1 && line[0] == '-' {
            payload_styles(line, SpanStyle::DiffRemoved, ws, we)
        } else {
            structured_styles(line, ws, we, json_cps, xml_cps)
        },
    }
}

/// Colours the chars `window_start..window_end` of `line` (clamped to it) as
/// `mode` reads it: diff hunk and file headers in their own colours, added and
/// removed lines with their marker coloured, the rest as structured text.
pub fn highlight_content_window_indexed(
    line: &[char],
    mode: ViewMode,
    window_start: usize,
    window_end: usize,
    checkpoints: &mut HighlightCheckpointIndex,
) -> (spans: Vec<StyledText>)
    requires
        line@.len() <= usize::MAX / 8,
        old(checkpoints).wf(),
    ensures
        spans_tidy(spans@),
        final(checkpoints).wf(),
        ({
            let ws = if window_start < line@.len() {
                window_start as int
            } else {
                line@.len() as int
            };
            let we0 = if window_end < line@.len() {
                window_end as int
            } else {
                line@.len() as int
            };
            let we = if we0 < ws {
                ws
            } else {
                we0
            };
            spans_text(spans@) == line@.subrange(ws, we)
        }),
        spans_styles(spans@) == content_styles(
            line@,
            mode,
            clamped_window(line@, window_start as int, window_end as int).0,
            clamped_window(line@, window_start as int, window_end as int).1,
            old(checkpoints).json_value_strings@,
            old(checkpoints).xml_lines@,
        ),
{
    let len = line.len();
    let ws = if window_start < len {
        window_start
    } else {
        len
    };
    let we0 = if window_end < len {
        window_end
    } else {
        len
    };
    let we = if we0 < ws {
        ws
    } else {
        we0
    };
    match mode {
        ViewMode::Plain => highlight_structured_window(line, ws, we, checkpoints),
        ViewMode::Diff => {
            if len >= 2 && line[0] == '@' && line[1] == '@' {
                let mut spans: Vec<StyledText> = Vec::new();
                proof {
                    lemma_spans_styles_empty();
                }
                push_span_window(&mut spans, line, 0, len, SpanStyle::DiffHunk, ws, we);
                proof {
                    assert(spans_text(Seq::<StyledText>::empty()) =~= Seq::<char>::empty());
                    assert(piece(line@, ws as int, we as int, 0, len as int) =~= line@.subrange(ws as int, we as int));
                }
                spans
            } else if len >= 3 && ((line[0] == '+' && line[1] == '+' && line[2] == '+') || (line[0]
                == '-' && line[1] == '-' && line[2] == '-')) {
                let mut spans: Vec<StyledText> = Vec::new();
                proof {
                    lemma_spans_styles_empty();
                }
                push_span_window(&mut spans, line, 0, len, SpanStyle::DiffFile, ws, we);
                proof {
                    assert(spans_text(Seq::<StyledText>::empty()) =~= Seq::<char>::empty());
                    assert(piece(line@, ws as int, we as int, 0, len as int) =~= line@.subrange(ws as int, we as int));
                }
                spans
            } else if len >= 1 && line[0] == '+' {
                highlight_diff_payload_window(line, SpanStyle::DiffAdded, ws, we)
            } else if len >= 1 && line[0] == '-' {
                highlight_diff_payload_window(line, SpanStyle::DiffRemoved, ws, we)
            } else {
                highlight_structured_window(line, ws, we, checkpoints)
            }
        },
    }
}

/// Colours the chars `window_start..window_end` of `line` as `mode` reads it.
pub fn highlight_content_window(line: &str, mode: ViewMode, window_start: usize, window_end: usize) -> (spans:
    Vec<StyledText>)
    requires
        line@.len() <= usize::MAX / 8,
    ensures
        spans_tidy(spans@),
        ({
            let ws = if window_start < line@.len() {
                window_start as int
            } else {
                line@.len() as int
            };
            let we0 = if window_end < line@.len() {
                window_end as int
            } else {
                line@.len() as int
            };
            let we = if we0 < ws {
                ws
            } else {
                we0
            };
            spans_text(spans@) == line@.subrange(ws, we)
        }),
        spans_styles(spans@) == content_styles(
            line@,
            mode,
            clamped_window(line@, window_start as int, window_end as int).0,
            clamped_window(line@, window_start as int, window_end as int).1,
            Seq::empty(),
            Seq::empty(),
        ),
{
    let cs = chars_of(line);
    let mut fresh = HighlightCheckpointIndex::new();
    proof {
        assert(fresh.json_value_strings@ =~= Seq::<XmlHighlightCheckpoint>::empty());
        assert(fresh.xml_lines@ =~= Seq::<XmlHighlightCheckpoint>::empty());
    }
    highlight_content_window_indexed(cs.as_slice(), mode, window_start, window_end, &mut fresh)
}

/// Colours all of `line` as `mode` reads it.
pub fn highlight_content(line: &str, mode: ViewMode) -> (spans: Vec<StyledText>)
    requires
        line@.len() <= usize::MAX / 8,
    ensures
        spans_tidy(spans@),
        spans_text(spans@) == line@,
        spans_styles(spans@) == content_styles(
            line@,
            mode,
            0,
            line@.len() as int,
            Seq::empty(),
            Seq::empty(),
        ),
{
    let cs = chars_of(line);
    let mut fresh = HighlightCheckpointIndex::new();
    proof {
        assert(fresh.json_value_strings@ =~= Seq::<XmlHighlightCheckpoint>::empty());
        assert(fresh.xml_lines@ =~= Seq::<XmlHighlightCheckpoint>::empty());
    }
    let spans = highlight_content_window_indexed(cs.as_slice(), mode, 0, cs.len(), &mut fresh);
    assert(line@.subrange(0, line@.len() as int) =~= line@);
    spans
}

} // verus!
