//! Colouring JSON-like lines: keys, strings and their escapes and embedded
//! XML, numbers, keywords, punctuation.
use vstd::prelude::*;

use crate::text::is_whitespace;

use super::checkpoints::{lemma_found_is_resume_point, resume_point, HighlightCheckpointIndex};
use super::lexer::{
    escape_token_end, json_keyword, json_quote_starts_value, json_string_end_until,
    json_string_is_key, lemma_run_end, take_while, CharClass,
};
use super::lexer::{
    escape_end_spec, keyword_spec, quote_starts_value_spec, run_end, string_end_spec,
    string_is_key_spec,
};
use crate::text::is_ws;
use super::xml::{
    apply_xml_tag_state, embedded_tag_end, escape_fits, find_char, highlight_xml_tag_window,
    lemma_find_bound, lemma_tag_styles_len, looks_like_tag_spec, looks_like_xml_tag, tag_effect,
    whole_tag_styles, XmlPairState,
};
use super::{
    spans_tidy, in_window, lemma_in_window_empty, lemma_in_window_before, lemma_piece_before,
    lemma_piece_concat, lemma_styles_assoc, lemma_window_step, piece, push_span_window, run,
    spans_styles, spans_text, valid_window, SpanStyle, StyledText, lemma_spans_styles_empty,
};

verus! {

/// Reading the inside of a JSON string value on from `index`, string text
/// having run since `plain_start`, with the open elements `st` of the XML
/// inside it: where the reading stops (up to `stop`), whether the string
/// closed there, and the style of each char from `plain_start` on. Escapes
/// and the closing quote end string runs; XML tags inside are coloured as
/// tags and pair up with each other.
#[verifier::opaque]
pub open spec fn value_string_scan(
    source: Seq<char>,
    index: int,
    plain_start: int,
    stop: int,
    st: Seq<(Seq<char>, usize)>,
) -> (int, bool, Seq<SpanStyle>)
    decreases stop - index,
{
    if index >= stop {
        (stop, false, run(stop - plain_start, SpanStyle::Str))
    } else if escape_fits(source, index, stop) {
        let e = escape_end_spec(source, index)->0;
        let rest = value_string_scan(source, e, e, stop, st);
        (
            rest.0,
            rest.1,
            run(index - plain_start, SpanStyle::Str) + run(e - index, SpanStyle::Escape) + rest.2,
        )
    } else if source[index] == '"' {
        (index + 1, true, run(index + 1 - plain_start, SpanStyle::Str))
    } else if source[index] == '<' && index < embedded_tag_end(source, index, stop) <= stop
        && looks_like_tag_spec(source, index, embedded_tag_end(source, index, stop)) {
        let te = embedded_tag_end(source, index, stop);
        let rest = value_string_scan(source, te, te, stop, tag_effect(source, index, te, st, 0).0);
        (
            rest.0,
            rest.1,
            run(index - plain_start, SpanStyle::Str) + whole_tag_styles(source, index, te, st, 0)
                + rest.2,
        )
    } else {
        value_string_scan(source, index + 1, plain_start, stop, st)
    }
}

/// Taking a run of string text and then an escape into the colours of a
/// string value keeps the reading and the colours in step.
proof fn lemma_escape_step(
    source: Seq<char>,
    window_start: int,
    window_end: int,
    start: int,
    plain_start: int,
    index: int,
    escape_end: int,
    stop: int,
    st: Seq<(Seq<char>, usize)>,
    done: Seq<SpanStyle>,
    base: Seq<SpanStyle>,
    styles_before: Seq<SpanStyle>,
    styles_mid: Seq<SpanStyle>,
    styles_after: Seq<SpanStyle>,
    total: (int, bool, Seq<SpanStyle>),
)
    requires
        0 <= window_start <= window_end,
        0 <= start <= plain_start <= index < escape_end <= stop <= source.len(),
        done.len() == plain_start - start,
        escape_end_spec(source, index) == Some(escape_end),
        styles_before == base + in_window(done, start, window_start, window_end),
        styles_mid == styles_before + in_window(
            run(index - plain_start, SpanStyle::Str),
            plain_start,
            window_start,
            window_end,
        ),
        styles_after == styles_mid + in_window(
            run(escape_end - index, SpanStyle::Escape),
            index,
            window_start,
            window_end,
        ),
        ({
            let scan = value_string_scan(source, index, plain_start, stop, st);
            &&& total.0 == scan.0 && total.1 == scan.1
            &&& total.2 == done + scan.2
        }),
    ensures
        ({
            let next_done = done + run(index - plain_start, SpanStyle::Str) + run(
                escape_end - index,
                SpanStyle::Escape,
            );
            let scan = value_string_scan(source, escape_end, escape_end, stop, st);
            &&& next_done.len() == escape_end - start
            &&& total.0 == scan.0 && total.1 == scan.1
            &&& total.2 == next_done + scan.2
            &&& styles_after == base + in_window(next_done, start, window_start, window_end)
        }),
{
    let str_run = run(index - plain_start, SpanStyle::Str);
    let esc_run = run(escape_end - index, SpanStyle::Escape);
    assert(escape_fits(source, index, stop));
    let rest = value_string_scan(source, escape_end, escape_end, stop, st);
    assert(value_string_scan(source, index, plain_start, stop, st) == (
        rest.0,
        rest.1,
        str_run + esc_run + rest.2,
    )) by {
        reveal_with_fuel(value_string_scan, 1);
    }
    lemma_window_step(base, styles_before, styles_mid, done, str_run, start, plain_start, window_start, window_end);
    lemma_window_step(base, styles_mid, styles_after, done + str_run, esc_run, start, index, window_start, window_end);
    lemma_styles_assoc(str_run, esc_run, rest.2);
    lemma_styles_assoc(done, str_run, esc_run + rest.2);
    lemma_styles_assoc(done + str_run, esc_run, rest.2);
}

/// Taking a run of string text and the closing quote into the colours of a
/// string value ends the reading there with the colours in step.
proof fn lemma_quote_step(
    source: Seq<char>,
    window_start: int,
    window_end: int,
    start: int,
    plain_start: int,
    index: int,
    stop: int,
    st: Seq<(Seq<char>, usize)>,
    done: Seq<SpanStyle>,
    base: Seq<SpanStyle>,
    styles_before: Seq<SpanStyle>,
    styles_mid: Seq<SpanStyle>,
    styles_after: Seq<SpanStyle>,
    total: (int, bool, Seq<SpanStyle>),
)
    requires
        0 <= window_start <= window_end,
        0 <= start <= plain_start <= index < stop <= source.len(),
        done.len() == plain_start - start,
        !escape_fits(source, index, stop),
        source[index] == '"',
        styles_before == base + in_window(done, start, window_start, window_end),
        styles_mid == styles_before + in_window(
            run(index - plain_start, SpanStyle::Str),
            plain_start,
            window_start,
            window_end,
        ),
        styles_after == styles_mid + in_window(
            run(index + 1 - index, SpanStyle::Str),
            index,
            window_start,
            window_end,
        ),
        ({
            let scan = value_string_scan(source, index, plain_start, stop, st);
            &&& total.0 == scan.0 && total.1 == scan.1
            &&& total.2 == done + scan.2
        }),
    ensures
        total.0 == index + 1,
        total.1,
        styles_after == base + in_window(total.2, start, window_start, window_end),
{
    let str_run = run(index - plain_start, SpanStyle::Str);
    let one = run(index + 1 - index, SpanStyle::Str);
    assert(value_string_scan(source, index, plain_start, stop, st) == (
        index + 1,
        true,
        run(index + 1 - plain_start, SpanStyle::Str),
    )) by {
        reveal_with_fuel(value_string_scan, 1);
    }
    assert(str_run + one =~= run(index + 1 - plain_start, SpanStyle::Str));
    lemma_window_step(base, styles_before, styles_mid, done, str_run, start, plain_start, window_start, window_end);
    lemma_window_step(base, styles_mid, styles_after, done + str_run, one, start, index, window_start, window_end);
    lemma_styles_assoc(done, str_run, one);
}

/// Taking a run of string text and then a tag into the colours of a string
/// value keeps the reading and the colours in step.
proof fn lemma_tag_step(
    source: Seq<char>,
    window_start: int,
    window_end: int,
    start: int,
    plain_start: int,
    index: int,
    tag_end: int,
    stop: int,
    st_before: Seq<(Seq<char>, usize)>,
    st_after: Seq<(Seq<char>, usize)>,
    done: Seq<SpanStyle>,
    base: Seq<SpanStyle>,
    styles_before: Seq<SpanStyle>,
    styles_mid: Seq<SpanStyle>,
    styles_after: Seq<SpanStyle>,
    total: (int, bool, Seq<SpanStyle>),
)
    requires
        0 <= window_start <= window_end,
        0 <= start <= plain_start <= index < tag_end <= stop <= source.len(),
        done.len() == plain_start - start,
        !escape_fits(source, index, stop),
        source[index] == '<',
        tag_end == embedded_tag_end(source, index, stop),
        looks_like_tag_spec(source, index, tag_end),
        st_after == tag_effect(source, index, tag_end, st_before, 0).0,
        styles_before == base + in_window(done, start, window_start, window_end),
        styles_mid == styles_before + in_window(
            run(index - plain_start, SpanStyle::Str),
            plain_start,
            window_start,
            window_end,
        ),
        tag_end <= window_start ==> styles_after == styles_mid,
        tag_end > window_start ==> styles_after == styles_mid + in_window(
            whole_tag_styles(source, index, tag_end, st_before, 0),
            index,
            window_start,
            window_end,
        ),
        ({
            let scan = value_string_scan(source, index, plain_start, stop, st_before);
            &&& total.0 == scan.0 && total.1 == scan.1
            &&& total.2 == done + scan.2
        }),
    ensures
        ({
            let next_done = done + run(index - plain_start, SpanStyle::Str) + whole_tag_styles(
                source,
                index,
                tag_end,
                st_before,
                0,
            );
            let scan = value_string_scan(source, tag_end, tag_end, stop, st_after);
            &&& next_done.len() == tag_end - start
            &&& total.0 == scan.0 && total.1 == scan.1
            &&& total.2 == next_done + scan.2
            &&& styles_after == base + in_window(next_done, start, window_start, window_end)
        }),
{
    let str_run = run(index - plain_start, SpanStyle::Str);
    let tag = whole_tag_styles(source, index, tag_end, st_before, 0);
    lemma_tag_styles_len(
        source,
        index,
        tag_end,
        super::xml::tag_name_spec(source, index, tag_end),
        super::xml::name_style(tag_effect(source, index, tag_end, st_before, 0).1),
    );
    assert(tag.len() == tag_end - index) by {
        reveal(whole_tag_styles);
    }
    if tag_end <= window_start {
        lemma_in_window_before(tag, index, window_start, window_end);
        assert(styles_after =~= styles_mid + in_window(tag, index, window_start, window_end));
    }
    let rest = value_string_scan(source, tag_end, tag_end, stop, st_after);
    assert(value_string_scan(source, index, plain_start, stop, st_before) == (
        rest.0,
        rest.1,
        str_run + tag + rest.2,
    )) by {
        reveal_with_fuel(value_string_scan, 1);
    }
    lemma_window_step(base, styles_before, styles_mid, done, str_run, start, plain_start, window_start, window_end);
    lemma_window_step(base, styles_mid, styles_after, done + str_run, tag, start, index, window_start, window_end);
    lemma_styles_assoc(str_run, tag, rest.2);
    lemma_styles_assoc(done, str_run, tag + rest.2);
    lemma_styles_assoc(done + str_run, tag, rest.2);
}

/// Colours the tag `source[start..end]` inside a string value where it
/// reaches the window, and takes it into account in `state` either way.
fn colour_embedded_tag(
    source: &[char],
    start: usize,
    end: usize,
    state: &mut XmlPairState,
    window_start: usize,
    window_end: usize,
    spans: &mut Vec<StyledText>,
)
    requires
        valid_window(source@, window_start as int, window_end as int),
        start < end <= source@.len(),
        old(state).open_tags().len() < usize::MAX,
    ensures
        spans_tidy(old(spans)@) ==> spans_tidy(final(spans)@),
        final(state).open_tags() == tag_effect(source@, start as int, end as int, old(state).open_tags(), 0).0,
        final(state).open_tags().len() <= old(state).open_tags().len() + 1,
        spans_text(final(spans)@) == spans_text(old(spans)@) + piece(
            source@,
            window_start as int,
            window_end as int,
            start as int,
            end as int,
        ),
        end <= window_start ==> spans_styles(final(spans)@) == spans_styles(old(spans)@),
        end > window_start ==> spans_styles(final(spans)@) == spans_styles(old(spans)@) + in_window(
            whole_tag_styles(source@, start as int, end as int, old(state).open_tags(), 0),
            start as int,
            window_start as int,
            window_end as int,
        ),
{
    if end <= window_start {
        apply_xml_tag_state(source, start, end, state, 0);
        proof {
            lemma_piece_before(source@, window_start as int, window_end as int, start as int, end as int);
            assert(spans_text(spans@) =~= spans_text(spans@) + Seq::<char>::empty());
        }
    } else {
        highlight_xml_tag_window(source, start, end, state, 0, window_start, window_end, spans);
    }
}

/// Colours the inside of a JSON string value from `start` up to its closing
/// quote or `limit`, marking escapes and XML tags inside it; `state` pairs
/// those tags. Gives where it stopped and whether the string closed.
#[verifier::rlimit(100)]
#[verifier::spinoff_prover]
pub fn highlight_json_value_string_continue_window(
    source: &[char],
    start: usize,
    limit: usize,
    initial: XmlPairState,
    window_start: usize,
    window_end: usize,
    spans: &mut Vec<StyledText>,
    checkpoints: &mut HighlightCheckpointIndex,
) -> (r: (usize, bool))
    requires
        valid_window(source@, window_start as int, window_end as int),
        start <= limit,
        start <= source@.len() <= usize::MAX / 8,
        initial.open_tags().len() <= start,
        old(checkpoints).wf(),
    ensures
        spans_tidy(old(spans)@) ==> spans_tidy(final(spans)@),
        final(checkpoints).wf(),
        start <= r.0 <= source@.len(),
        r.0 <= limit,
        r.1 ==> start < r.0,
        !r.1 ==> r.0 == (if limit < source@.len() {
            limit as int
        } else {
            source@.len() as int
        }),
        spans_text(final(spans)@) == spans_text(old(spans)@) + piece(
            source@,
            window_start as int,
            window_end as int,
            start as int,
            r.0 as int,
        ),
        ({
            let scan = value_string_scan(
                source@,
                start as int,
                start as int,
                if limit < source@.len() {
                    limit as int
                } else {
                    source@.len() as int
                },
                initial.open_tags(),
            );
            &&& r.0 == scan.0 && r.1 == scan.1
            &&& spans_styles(final(spans)@) == spans_styles(old(spans)@) + in_window(
                scan.2,
                start as int,
                window_start as int,
                window_end as int,
            )
        }),
{
    let ghost st0 = initial.open_tags();
    let mut state = initial;
    let mut index = start;
    let mut plain_start = start;
    let stop = if limit < source.len() {
        limit
    } else {
        source.len()
    };
    let ghost total = value_string_scan(source@, start as int, start as int, stop as int, st0);
    let ghost mut done: Seq<SpanStyle> = Seq::empty();
    proof {
        lemma_in_window_empty(start as int, window_start as int, window_end as int);
        assert(spans_styles(spans@) =~= spans_styles(old(spans)@) + in_window(
            done,
            start as int,
            window_start as int,
            window_end as int,
        ));
        assert(done + total.2 =~= total.2);
    }
    proof {
        assert(spans_text(spans@) =~= spans_text(old(spans)@) + piece(
            source@,
            window_start as int,
            window_end as int,
            start as int,
            start as int,
        ));
    }
    while index < stop
        invariant
        spans_tidy(old(spans)@) ==> spans_tidy(spans@),
            valid_window(source@, window_start as int, window_end as int),
            start <= plain_start <= index <= stop <= source@.len() <= usize::MAX / 8,
            stop <= limit,
            stop == (if limit < source@.len() {
                limit as int
            } else {
                source@.len() as int
            }),
            state.open_tags().len() <= index,
            checkpoints.wf(),
            st0 == initial.open_tags(),
            total == value_string_scan(source@, start as int, start as int, stop as int, st0),
            done.len() == plain_start - start,
            ({
                let scan = value_string_scan(
                    source@,
                    index as int,
                    plain_start as int,
                    stop as int,
                    state.open_tags(),
                );
                &&& total.0 == scan.0 && total.1 == scan.1
                &&& total.2 == done + scan.2
            }),
            spans_styles(spans@) == spans_styles(old(spans)@) + in_window(
                done,
                start as int,
                window_start as int,
                window_end as int,
            ),
            spans_text(spans@) == spans_text(old(spans)@) + piece(
                source@,
                window_start as int,
                window_end as int,
                start as int,
                plain_start as int,
            ),
        decreases stop - index,
    {
        checkpoints.remember_json_value(index, &state);
        match escape_token_end(source, index) {
            Some(escape_end) => {
                if escape_end <= stop {
                    let ghost s0 = spans_styles(spans@);
                    push_span_window(
                        spans,
                        source,
                        plain_start,
                        index,
                        SpanStyle::Str,
                        window_start,
                        window_end,
                    );
                    let ghost s1 = spans_styles(spans@);
                    push_span_window(
                        spans,
                        source,
                        index,
                        escape_end,
                        SpanStyle::Escape,
                        window_start,
                        window_end,
                    );
                    proof {
                        lemma_piece_concat(source@, window_start as int, window_end as int, start as int, plain_start as int, index as int);
                        lemma_piece_concat(source@, window_start as int, window_end as int, start as int, index as int, escape_end as int);
                        lemma_escape_step(
                            source@,
                            window_start as int,
                            window_end as int,
                            start as int,
                            plain_start as int,
                            index as int,
                            escape_end as int,
                            stop as int,
                            state.open_tags(),
                            done,
                            spans_styles(old(spans)@),
                            s0,
                            s1,
                            spans_styles(spans@),
                            total,
                        );
                        done = done + run(index - plain_start, SpanStyle::Str) + run(
                            escape_end - index,
                            SpanStyle::Escape,
                        );
                    }
                    index = escape_end;
                    plain_start = index;
                    continue;
                }
            },
            None => {},
        }
        let c = source[index];
        if c == '"' {
            let ghost s0 = spans_styles(spans@);
            push_span_window(spans, source, plain_start, index, SpanStyle::Str, window_start, window_end);
            let ghost s1 = spans_styles(spans@);
            push_span_window(spans, source, index, index + 1, SpanStyle::Str, window_start, window_end);
            proof {
                lemma_piece_concat(source@, window_start as int, window_end as int, start as int, plain_start as int, index as int);
                lemma_piece_concat(source@, window_start as int, window_end as int, start as int, index as int, index + 1);
                assert(!escape_fits(source@, index as int, stop as int));
                lemma_quote_step(
                    source@,
                    window_start as int,
                    window_end as int,
                    start as int,
                    plain_start as int,
                    index as int,
                    stop as int,
                    state.open_tags(),
                    done,
                    spans_styles(old(spans)@),
                    s0,
                    s1,
                    spans_styles(spans@),
                    total,
                );
                assert(total.0 == index + 1);
                assert(total == value_string_scan(source@, start as int, start as int, stop as int, st0));
                assert(spans_styles(spans@) == spans_styles(old(spans)@) + in_window(total.2, start as int, window_start as int, window_end as int));
            }
            return (index + 1, true);
        }
        if c == '<' {
            let gt = find_char(source, index, stop, '>');
            let tag_end = if gt < stop {
                gt + 1
            } else {
                stop
            };
            proof {
                lemma_find_bound(source@, index as int, stop as int, '>');
                assert(tag_end == embedded_tag_end(source@, index as int, stop as int));
            }
            if looks_like_xml_tag(source, index, tag_end) {
                let ghost st_before = state.open_tags();
                let ghost styles_before = spans_styles(spans@);
                push_span_window(spans, source, plain_start, index, SpanStyle::Str, window_start, window_end);
                proof {
                    lemma_piece_concat(source@, window_start as int, window_end as int, start as int, plain_start as int, index as int);
                }
                let ghost styles_mid = spans_styles(spans@);
                colour_embedded_tag(source, index, tag_end, &mut state, window_start, window_end, spans);
                proof {
                    lemma_piece_concat(source@, window_start as int, window_end as int, start as int, index as int, tag_end as int);
                    assert(!escape_fits(source@, index as int, stop as int));
                    lemma_tag_step(
                        source@,
                        window_start as int,
                        window_end as int,
                        start as int,
                        plain_start as int,
                        index as int,
                        tag_end as int,
                        stop as int,
                        st_before,
                        state.open_tags(),
                        done,
                        spans_styles(old(spans)@),
                        styles_before,
                        styles_mid,
                        spans_styles(spans@),
                        total,
                    );
                    done = done + run(index - plain_start, SpanStyle::Str) + whole_tag_styles(
                        source@,
                        index as int,
                        tag_end as int,
                        st_before,
                        0,
                    );
                }
                index = tag_end;
                plain_start = index;
                continue;
            }
        }
        proof {
            assert(!escape_fits(source@, index as int, stop as int));
            assert(value_string_scan(source@, index as int, plain_start as int, stop as int, state.open_tags())
                == value_string_scan(source@, index + 1, plain_start as int, stop as int, state.open_tags())) by {
                reveal_with_fuel(value_string_scan, 1);
            }
        }
        index += 1;
    }
    let ghost end_before = spans_styles(spans@);
    push_span_window(spans, source, plain_start, stop, SpanStyle::Str, window_start, window_end);
    proof {
        lemma_piece_concat(source@, window_start as int, window_end as int, start as int, plain_start as int, stop as int);
        lemma_window_step(spans_styles(old(spans)@), end_before, spans_styles(spans@), done, run(stop - plain_start, SpanStyle::Str), start as int, plain_start as int, window_start as int, window_end as int);
        assert(value_string_scan(source@, stop as int, plain_start as int, stop as int, state.open_tags())
            == (stop as int, false, run(stop - plain_start, SpanStyle::Str))) by {
            reveal_with_fuel(value_string_scan, 1);
        }
    }
    (stop, false)
}

/// The end of the text a string read up to `limit` may reach.
pub open spec fn scan_stop(source: Seq<char>, limit: int) -> int {
    if limit < source.len() {
        limit
    } else {
        source.len() as int
    }
}

/// Reading the inside of a string value gives one style for each char read.
pub proof fn lemma_value_string_scan_len(
    source: Seq<char>,
    index: int,
    plain_start: int,
    stop: int,
    st: Seq<(Seq<char>, usize)>,
)
    requires
        0 <= plain_start <= index <= stop <= source.len(),
    ensures
        ({
            let r = value_string_scan(source, index, plain_start, stop, st);
            &&& index <= r.0 <= stop
            &&& r.2.len() == r.0 - plain_start
            &&& r.1 ==> index < r.0
            &&& !r.1 ==> r.0 == stop
        }),
    decreases stop - index,
{
    reveal_with_fuel(value_string_scan, 1);
    if index >= stop {
    } else if escape_fits(source, index, stop) {
        let e = escape_end_spec(source, index)->0;
        lemma_value_string_scan_len(source, e, e, stop, st);
    } else if source[index] == '"' {
    } else if source[index] == '<' && index < embedded_tag_end(source, index, stop) <= stop
        && looks_like_tag_spec(source, index, embedded_tag_end(source, index, stop)) {
        let te = embedded_tag_end(source, index, stop);
        lemma_value_string_scan_len(source, te, te, stop, tag_effect(source, index, te, st, 0).0);
        lemma_tag_styles_len(
            source,
            index,
            te,
            super::xml::tag_name_spec(source, index, te),
            super::xml::name_style(tag_effect(source, index, te, st, 0).1),
        );
        assert(whole_tag_styles(source, index, te, st, 0).len() == te - index) by {
            reveal(whole_tag_styles);
        }
    } else {
        lemma_value_string_scan_len(source, index + 1, plain_start, stop, st);
    }
}

/// Nothing is read from the end of the line or of the reading on.
pub proof fn lemma_line_scan_at_end(
    source: Seq<char>,
    cursor: int,
    limit: int,
    value_state: Option<Seq<(Seq<char>, usize)>>,
)
    requires
        cursor >= source.len() || cursor >= limit,
    ensures
        json_line_scan(source, cursor, limit, value_state) == Seq::<SpanStyle>::empty(),
{
    reveal_with_fuel(json_line_scan, 1);
}

/// Reading a JSON string value that opens at `start`, up to `limit`: where
/// it stops, whether it closed, and the style of each char (the opening
/// quote is string text, then as `value_string_scan` reads the inside with
/// no element open).
pub open spec fn string_value_scan(source: Seq<char>, start: int, limit: int) -> (
    int,
    bool,
    Seq<SpanStyle>,
) {
    let inner = value_string_scan(
        source,
        start + 1,
        start + 1,
        scan_stop(source, limit),
        Seq::empty(),
    );
    (inner.0, inner.1, seq![SpanStyle::Str] + inner.2)
}

/// Colours a JSON string value that opens at `start`, up to its closing
/// quote or `limit`.
pub fn highlight_json_string_value_window(
    source: &[char],
    start: usize,
    limit: usize,
    window_start: usize,
    window_end: usize,
    spans: &mut Vec<StyledText>,
    checkpoints: &mut HighlightCheckpointIndex,
) -> (r: (usize, bool))
    requires
        valid_window(source@, window_start as int, window_end as int),
        start < limit,
        start < source@.len() <= usize::MAX / 8,
        old(checkpoints).wf(),
    ensures
        spans_tidy(old(spans)@) ==> spans_tidy(final(spans)@),
        final(checkpoints).wf(),
        start < r.0 <= source@.len(),
        r.0 <= limit,
        !r.1 ==> r.0 == (if limit < source@.len() {
            limit as int
        } else {
            source@.len() as int
        }),
        spans_text(final(spans)@) == spans_text(old(spans)@) + piece(
            source@,
            window_start as int,
            window_end as int,
            start as int,
            r.0 as int,
        ),
        ({
            let scan = string_value_scan(source@, start as int, limit as int);
            &&& r.0 == scan.0 && r.1 == scan.1
            &&& spans_styles(final(spans)@) == spans_styles(old(spans)@) + in_window(
                scan.2,
                start as int,
                window_start as int,
                window_end as int,
            )
        }),
{
    let inner_start = start + 1;
    let ghost s0 = spans_styles(spans@);
    push_span_window(spans, source, start, inner_start, SpanStyle::Str, window_start, window_end);
    let ghost s1 = spans_styles(spans@);
    let fresh = XmlPairState::new();
    proof {
        assert(fresh.open_tags() =~= Seq::<(Seq<char>, usize)>::empty());
    }
    let r = highlight_json_value_string_continue_window(
        source,
        inner_start,
        limit,
        fresh,
        window_start,
        window_end,
        spans,
        checkpoints,
    );
    proof {
        lemma_piece_concat(source@, window_start as int, window_end as int, start as int, inner_start as int, r.0 as int);
        let inner = value_string_scan(source@, inner_start as int, inner_start as int, scan_stop(source@, limit as int), Seq::empty());
        lemma_in_window_empty(start as int, window_start as int, window_end as int);
        assert(s0 == s0 + in_window(Seq::<SpanStyle>::empty(), start as int, window_start as int, window_end as int)) by {
            assert(s0 =~= s0 + Seq::<SpanStyle>::empty());
        }
        assert(run(inner_start - start, SpanStyle::Str) =~= seq![SpanStyle::Str]);
        lemma_window_step(s0, s0, s1, Seq::empty(), seq![SpanStyle::Str], start as int, start as int, window_start as int, window_end as int);
        assert(Seq::<SpanStyle>::empty() + seq![SpanStyle::Str] =~= seq![SpanStyle::Str]);
        lemma_window_step(s0, s1, spans_styles(spans@), seq![SpanStyle::Str], inner.2, start as int, inner_start as int, window_start as int, window_end as int);
    }
    r
}

/// How a char that starts no token is coloured: structural punctuation, or
/// plain.
pub open spec fn json_single_style(c: char) -> SpanStyle {
    if c == '{' || c == '}' || c == '[' || c == ']' || c == ':' || c == ',' {
        SpanStyle::Punctuation
    } else {
        SpanStyle::Default
    }
}

/// The style of each char of a JSON-like line read from `cursor` up to
/// `limit` (where reading inside strings also stops), starting inside a
/// string value with the open elements `value_state` when there is one:
/// whitespace plain, keys (strings a colon follows), string values as
/// `string_value_scan` colours them, numbers, keywords, punctuation. The
/// reading stops where a string value does not close.
#[verifier::opaque]
pub open spec fn json_line_scan(
    source: Seq<char>,
    cursor: int,
    limit: int,
    value_state: Option<Seq<(Seq<char>, usize)>>,
) -> Seq<SpanStyle>
    decreases source.len() - cursor, 1int,
{
    if cursor < 0 || cursor >= source.len() || cursor >= limit {
        Seq::empty()
    } else if value_state is Some {
        let r = value_string_scan(source, cursor, cursor, scan_stop(source, limit), value_state->0);
        if r.1 && cursor < r.0 <= source.len() {
            r.2 + json_line_scan(source, r.0, limit, None)
        } else {
            r.2
        }
    } else {
        let c = source[cursor];
        if is_ws(c) {
            let n = run_end(source, cursor, source.len() as int, CharClass::Whitespace);
            if cursor < n <= source.len() {
                run(n - cursor, SpanStyle::Default) + json_line_scan(source, n, limit, None)
            } else {
                Seq::empty()
            }
        } else if c == '"' {
            let key_end = string_end_spec(source, cursor, limit);
            if !quote_starts_value_spec(source, cursor) && key_end.1 && cursor < key_end.0
                <= source.len() && string_is_key_spec(source, key_end.0) {
                run(key_end.0 - cursor, SpanStyle::Key) + json_line_scan(
                    source,
                    key_end.0,
                    limit,
                    None,
                )
            } else {
                let r = string_value_scan(source, cursor, limit);
                if r.1 && cursor < r.0 <= source.len() {
                    r.2 + json_line_scan(source, r.0, limit, None)
                } else {
                    r.2
                }
            }
        } else if c == '-' || ('0' <= c && c <= '9') {
            let n = run_end(source, cursor, source.len() as int, CharClass::NumberChar);
            if cursor < n <= source.len() {
                run(n - cursor, SpanStyle::Number) + json_line_scan(source, n, limit, None)
            } else {
                Seq::empty()
            }
        } else if keyword_spec(source, cursor) is Some {
            let (n, style) = keyword_spec(source, cursor)->0;
            if 0 < n && cursor + n <= source.len() {
                run(n, style) + json_line_scan(source, cursor + n, limit, None)
            } else {
                Seq::empty()
            }
        } else {
            run(1, json_single_style(c)) + json_line_scan(source, cursor + 1, limit, None)
        }
    }
}

/// Taking the colours `piece` of the token from `cursor` to `next` keeps
/// the colours of a JSON-like line in step with its reading.
proof fn lemma_line_step(
    source: Seq<char>,
    first: int,
    cursor: int,
    next: int,
    window_start: int,
    window_end: int,
    value_state: Option<Seq<(Seq<char>, usize)>>,
    done: Seq<SpanStyle>,
    piece: Seq<SpanStyle>,
    total: Seq<SpanStyle>,
    before: Seq<SpanStyle>,
    after: Seq<SpanStyle>,
)
    requires
        window_start <= window_end,
        done.len() == cursor - first,
        piece.len() == next - cursor,
        done + json_line_scan(source, cursor, window_end, value_state) == total,
        json_line_scan(source, cursor, window_end, value_state) == piece + json_line_scan(
            source,
            next,
            window_end,
            None,
        ),
        before == in_window(done, first, window_start, window_end),
        after == before + in_window(piece, cursor, window_start, window_end),
    ensures
        (done + piece).len() == next - first,
        (done + piece) + json_line_scan(source, next, window_end, None) == total,
        after == in_window(done + piece, first, window_start, window_end),
{
    lemma_window_step(Seq::empty(), before, after, done, piece, first, cursor, window_start, window_end);
    assert(before =~= Seq::<SpanStyle>::empty() + before);
    assert(Seq::<SpanStyle>::empty() + in_window(done + piece, first, window_start, window_end)
        =~= in_window(done + piece, first, window_start, window_end));
    lemma_styles_assoc(done, piece, json_line_scan(source, next, window_end, None));
}

/// Colours a JSON-like line through the window, resuming inside a string
/// value from a remembered state where one lies before the window.
pub fn highlight_json_like_window(
    source: &[char],
    window_start: usize,
    window_end: usize,
    checkpoints: &mut HighlightCheckpointIndex,
) -> (spans: Vec<StyledText>)
    requires
        valid_window(source@, window_start as int, window_end as int),
        source@.len() <= usize::MAX / 8,
        old(checkpoints).wf(),
    ensures
        final(checkpoints).wf(),
        spans_text(spans@) == source@.subrange(window_start as int, window_end as int),
        spans_tidy(spans@),
        ({
            let (first, value_state) = resume_point(old(checkpoints).json_value_strings@, window_start);
            spans_styles(spans@) == in_window(
                json_line_scan(source@, first, window_end as int, value_state),
                first,
                window_start as int,
                window_end as int,
            )
        }),
{
    let mut spans: Vec<StyledText> = Vec::new();
    let len = source.len();
    let mut cursor: usize = 0;
    let mut value_state: Option<XmlPairState> = None;
    let found = checkpoints.json_value_before(window_start);
    proof {
        lemma_found_is_resume_point(checkpoints.json_value_strings@, window_start, found);
    }
    match found {
        Some(checkpoint) => {
            cursor = checkpoint.at;
            value_state = Some(checkpoint.state);
        },
        None => {},
    }
    let ghost first = cursor as int;
    let ghost total = json_line_scan(source@, first, window_end as int, open_tags_of(&value_state));
    let ghost mut done: Seq<SpanStyle> = Seq::empty();
    proof {
        assert(spans_text(spans@) =~= piece(
            source@,
            window_start as int,
            window_end as int,
            first,
            cursor as int,
        ));
        lemma_spans_styles_empty();
        lemma_in_window_empty(first, window_start as int, window_end as int);
        assert(done + total =~= total);
        if !(cursor < len && cursor < window_end) {
            lemma_line_scan_at_end(source@, first, window_end as int, open_tags_of(&value_state));
        }
    }
    while cursor < len && cursor < window_end
        invariant
            spans_tidy(spans@),
            valid_window(source@, window_start as int, window_end as int),
            len == source@.len() <= usize::MAX / 8,
            first <= window_start,
            first <= cursor,
            value_state matches Some(s) ==> s.open_tags().len() <= cursor,
            checkpoints.wf(),
            spans_text(spans@) == piece(
                source@,
                window_start as int,
                window_end as int,
                first,
                cursor as int,
            ),
            done.len() == cursor - first,
            done + json_line_scan(source@, cursor as int, window_end as int, open_tags_of(&value_state)) == total,
            spans_styles(spans@) == in_window(done, first, window_start as int, window_end as int),
            !(cursor < len && cursor < window_end) ==> done == total,
        ensures
            spans_tidy(spans@),
            checkpoints.wf(),
            first <= cursor,
            cursor >= window_end || cursor >= len,
            spans_text(spans@) == piece(
                source@,
                window_start as int,
                window_end as int,
                first,
                cursor as int,
            ),
            spans_styles(spans@) == in_window(total, first, window_start as int, window_end as int),
        decreases len - cursor,
    {
        let ghost vs = open_tags_of(&value_state);
        let ghost before = spans_styles(spans@);
        let taken = value_state.take();
        if let Some(state) = taken {
            let (end, closed) = highlight_json_value_string_continue_window(
                source,
                cursor,
                window_end,
                state,
                window_start,
                window_end,
                &mut spans,
                checkpoints,
            );
            proof {
                lemma_piece_concat(source@, window_start as int, window_end as int, first, cursor as int, end as int);
                let r = value_string_scan(source@, cursor as int, cursor as int, scan_stop(source@, window_end as int), vs->0);
                lemma_value_string_scan_len(source@, cursor as int, cursor as int, scan_stop(source@, window_end as int), vs->0);
                assert(json_line_scan(source@, cursor as int, window_end as int, vs) == if closed {
                    r.2 + json_line_scan(source@, end as int, window_end as int, None)
                } else {
                    r.2
                }) by {
                    reveal_with_fuel(json_line_scan, 1);
                }
                if !closed {
                    assert(json_line_scan(source@, end as int, window_end as int, None) == Seq::<SpanStyle>::empty()) by {
                        reveal_with_fuel(json_line_scan, 1);
                    }
                    assert(r.2 =~= r.2 + json_line_scan(source@, end as int, window_end as int, None));
                }
                lemma_line_step(
                    source@, first, cursor as int, end as int, window_start as int, window_end as int,
                    vs, done, r.2, total, before, spans_styles(spans@),
                );
                done = done + r.2;
            }
            cursor = end;
            proof {
                if !(cursor < len && cursor < window_end) {
                    lemma_line_scan_at_end(source@, cursor as int, window_end as int, None);
                    assert(done =~= done + json_line_scan(source@, cursor as int, window_end as int, None));
                }
            }
            if !closed {
                proof {
                    assert(done =~= total);
                }
                break;
            }
            continue;
        }
        let c = source[cursor];
        let next: usize;
        let ghost token: Seq<SpanStyle>;
        if is_whitespace(c) {
            next = take_while(source, cursor, len, CharClass::Whitespace);
            proof {
                lemma_run_end(source@, cursor as int, len as int, CharClass::Whitespace);
                token = run(next - cursor, SpanStyle::Default);
            }
            push_span_window(&mut spans, source, cursor, next, SpanStyle::Default, window_start, window_end);
        } else if c == '"' {
            let starts_value = json_quote_starts_value(source, cursor);
            let key_end = json_string_end_until(source, cursor, window_end);
            if !starts_value && key_end.1 && key_end.0 <= len && json_string_is_key(source, key_end.0) {
                next = key_end.0;
                proof {
                    token = run(next - cursor, SpanStyle::Key);
                }
                push_span_window(&mut spans, source, cursor, next, SpanStyle::Key, window_start, window_end);
            } else {
                let (value_end, value_closed) = highlight_json_string_value_window(
                    source,
                    cursor,
                    window_end,
                    window_start,
                    window_end,
                    &mut spans,
                    checkpoints,
                );
                proof {
                    lemma_piece_concat(source@, window_start as int, window_end as int, first, cursor as int, value_end as int);
                    let r = string_value_scan(source@, cursor as int, window_end as int);
                    lemma_value_string_scan_len(source@, cursor + 1, cursor + 1, scan_stop(source@, window_end as int), Seq::empty());
                    assert(json_line_scan(source@, cursor as int, window_end as int, vs) == if value_closed {
                        r.2 + json_line_scan(source@, value_end as int, window_end as int, None)
                    } else {
                        r.2
                    }) by {
                        reveal_with_fuel(json_line_scan, 1);
                    }
                    if !value_closed {
                        assert(json_line_scan(source@, value_end as int, window_end as int, None) == Seq::<SpanStyle>::empty()) by {
                            reveal_with_fuel(json_line_scan, 1);
                        }
                        assert(r.2 =~= r.2 + json_line_scan(source@, value_end as int, window_end as int, None));
                    }
                    lemma_line_step(
                        source@, first, cursor as int, value_end as int, window_start as int, window_end as int,
                        vs, done, r.2, total, before, spans_styles(spans@),
                    );
                    done = done + r.2;
                }
                cursor = value_end;
                proof {
                    if !(cursor < len && cursor < window_end) {
                        lemma_line_scan_at_end(source@, cursor as int, window_end as int, None);
                        assert(done =~= done + json_line_scan(source@, cursor as int, window_end as int, None));
                    }
                }
                if !value_closed {
                    proof {
                        assert(done =~= total);
                    }
                    break;
                }
                continue;
            }
        } else if c == '-' || ('0' <= c && c <= '9') {
            next = take_while(source, cursor, len, CharClass::NumberChar);
            proof {
                lemma_run_end(source@, cursor as int, len as int, CharClass::NumberChar);
                token = run(next - cursor, SpanStyle::Number);
            }
            push_span_window(&mut spans, source, cursor, next, SpanStyle::Number, window_start, window_end);
        } else {
            match json_keyword(source, cursor) {
                Some((n, style)) => {
                    next = cursor + n;
                    proof {
                        token = run(n as int, style);
                    }
                    push_span_window(&mut spans, source, cursor, next, style, window_start, window_end);
                },
                None => {
                    next = cursor + 1;
                    let style = if c == '{' || c == '}' || c == '[' || c == ']' || c == ':' || c
                        == ',' {
                        SpanStyle::Punctuation
                    } else {
                        SpanStyle::Default
                    };
                    proof {
                        token = run(1, style);
                    }
                    push_span_window(&mut spans, source, cursor, next, style, window_start, window_end);
                },
            }
        }
        proof {
            lemma_piece_concat(source@, window_start as int, window_end as int, first, cursor as int, next as int);
            assert(cursor < next <= len);
            assert(json_line_scan(source@, cursor as int, window_end as int, vs) == token
                + json_line_scan(source@, next as int, window_end as int, None)) by {
                reveal_with_fuel(json_line_scan, 1);
            }
            lemma_line_step(
                source@, first, cursor as int, next as int, window_start as int, window_end as int,
                vs, done, token, total, before, spans_styles(spans@),
            );
            done = done + token;
        }
        cursor = next;
        proof {
            if !(cursor < len && cursor < window_end) {
                lemma_line_scan_at_end(source@, cursor as int, window_end as int, None);
                assert(done =~= done + json_line_scan(source@, cursor as int, window_end as int, None));
            }
        }
    }
    proof {
        assert(piece(source@, window_start as int, window_end as int, first, cursor as int) =~= source@.subrange(window_start as int, window_end as int));
    }
    spans
}

/// The open elements of the state a reading resumes with, if any.
pub open spec fn open_tags_of(value_state: &Option<XmlPairState>) -> Option<Seq<(Seq<char>, usize)>> {
    match value_state {
        Some(s) => Some(s.open_tags()),
        None => None,
    }
}

} // verus!
