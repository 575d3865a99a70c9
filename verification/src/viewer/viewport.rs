//! The body of a text view: the rows of the lines from the top line on, each
//! behind its gutter, wrapped at the content width or cut to it.
use vstd::prelude::*;
use vstd::string::StringSliceAdditionalSpecFns;

use crate::tui::wrap::{
    continuation_indent, continuation_indent_spec, range_at, rows_after, sat_add,
    wrap_ranges_window, WrapRange,
};
use crate::viewer::diff::cells::{push_spaces, spaces};
use crate::viewer::gutter::{continuation_text, line_number_text, GutterLayout};
use crate::viewer::highlight::lines::{clamped_window, highlight_content_window, ViewMode};
use crate::viewer::highlight::{lemma_spans_text_append, spans_text, SpanStyle, StyledText};
use crate::viewer::input::state::ViewState;
use crate::viewer::position::RenderContext;

verus! {

/// The text of each row.
pub open spec fn rows_texts(rows: Seq<Vec<StyledText>>) -> Seq<Seq<char>> {
    Seq::new(rows.len(), |i: int| spans_text(rows[i]@))
}

/// The text of each row given as lead and chars.
pub open spec fn joined(parts: Seq<(Seq<char>, Seq<char>)>) -> Seq<Seq<char>> {
    Seq::new(parts.len(), |i: int| parts[i].0 + parts[i].1)
}

/// The query starts at position `i` of `chars`.
pub open spec fn match_at(chars: Seq<char>, query: Seq<char>, i: int) -> bool {
    &&& query.len() > 0
    &&& 0 <= i
    &&& i + query.len() <= chars.len()
    &&& chars.subrange(i, i + query.len()) == query
}

/// `cols` are, in increasing order, the columns of a row with a lead of
/// `lead` chars where a match of `query` in its chars `chars` starts.
pub open spec fn match_columns(cols: Seq<usize>, lead: int, chars: Seq<char>, query: Seq<char>) -> bool {
    &&& forall|a: int, b: int| 0 <= a < b < cols.len() ==> cols[a] < cols[b]
    &&& forall|k: int| 0 <= k < cols.len() ==> #[trigger] cols[k] >= lead && match_at(
        chars,
        query,
        cols[k] - lead,
    )
    &&& forall|i: int| #[trigger] match_at(chars, query, i) ==> cols.contains((lead + i) as usize)
}

/// The chars of `cs[start..end]` (clamped to it).
pub open spec fn clamped_chars(cs: Seq<char>, start: int, end: int) -> Seq<char> {
    cs.subrange(clamped_window(cs, start, end).0, clamped_window(cs, start, end).1)
}

/// Where row `row` of `cs` wrapped at `width` lies: an empty line, or no
/// width, has the one empty row.
pub open spec fn row_range(cs: Seq<char>, width: int, row: int) -> WrapRange {
    let bs = vstd::utf8::encode_utf8(cs);
    if bs.len() == 0 || width == 0 {
        WrapRange { start_char: 0, end_char: 0, start_byte: 0, end_byte: 0, continuation_indent: 0 }
    } else {
        range_at(cs, bs, width, continuation_indent_spec(cs, width), row as nat)
    }
}

/// Row `row` of line `number` (its chars `cs`) wrapped at `width`, as its
/// lead (the line number on its first row, the continuation gutter after,
/// then the row's indent) and its chars.
pub open spec fn wrapped_row_parts(cs: Seq<char>, number: usize, row: int, digits: int, width: int) -> (
    Seq<char>,
    Seq<char>,
) {
    let r = row_range(cs, width, row);
    (
        (if row == 0 {
            line_number_text(number, digits)
        } else {
            continuation_text(row, digits)
        }) + spaces(r.continuation_indent as int),
        clamped_chars(cs, r.start_char as int, r.end_char as int),
    )
}

/// How many rows of `cs` wrapped at `width`, from row `first_row` on, a view
/// with `budget` rows left shows.
pub open spec fn wrapped_rows_shown(cs: Seq<char>, width: int, first_row: int, budget: int) -> int {
    let bs = vstd::utf8::encode_utf8(cs);
    if budget <= 0 {
        0
    } else if bs.len() == 0 || width == 0 {
        1
    } else {
        let total = rows_after(cs, bs, width, continuation_indent_spec(cs, width), 0) as int;
        let t = sat_add(first_row, budget);
        let hi = if t < total {
            t
        } else {
            total
        };
        if hi > first_row {
            hi - first_row
        } else {
            0
        }
    }
}

/// The rows, as lead and chars, that line `number` (its chars `cs`) shows, from
/// its row `first_row` on, in a view with `budget` rows left: when not
/// wrapping, its number and the columns from `x` in the content width;
/// when wrapping, its rows.
pub open spec fn line_rows(
    cs: Seq<char>,
    number: usize,
    first_row: int,
    budget: int,
    digits: int,
    context: RenderContext,
    x: int,
) -> Seq<(Seq<char>, Seq<char>)> {
    if budget <= 0 {
        Seq::empty()
    } else if !context.wrap {
        seq![(line_number_text(number, digits), clamped_chars(cs, x, sat_add(x, context.width as int)))]
    } else {
        Seq::new(
            wrapped_rows_shown(cs, context.width as int, first_row, budget) as nat,
            |j: int| wrapped_row_parts(cs, number, first_row + j, digits, context.width as int),
        )
    }
}

/// The body rows, as lead and chars, of `lines` from line `index` on (shown
/// from its row `first_row`), at most `budget` of them.
pub open spec fn body_rows_spec(
    lines: Seq<String>,
    index: int,
    first_row: int,
    budget: int,
    digits: int,
    context: RenderContext,
    x: int,
) -> Seq<(Seq<char>, Seq<char>)>
    decreases lines.len() - index,
{
    if budget <= 0 || index < 0 || index >= lines.len() {
        Seq::empty()
    } else {
        let here = line_rows(lines[index]@, (index + 1) as usize, first_row, budget, digits, context, x);
        here + body_rows_spec(lines, index + 1, 0, budget - here.len(), digits, context, x)
    }
}

/// The 1-based number of the last line of `lines` from `index` on that
/// gets a row with `budget` rows left, or `last` when none does.
pub open spec fn last_line_shown(
    lines: Seq<String>,
    index: int,
    first_row: int,
    budget: int,
    context: RenderContext,
    last: int,
) -> int
    decreases lines.len() - index,
{
    if budget <= 0 || index < 0 || index >= lines.len() {
        last
    } else {
        let n = if !context.wrap {
            1
        } else {
            wrapped_rows_shown(lines[index]@, context.width as int, first_row, budget)
        };
        last_line_shown(lines, index + 1, 0, budget - n, context, if n > 0 {
            index + 1
        } else {
            last
        })
    }
}

/// The rows of a view's body, the columns where matches of the search start
/// in each, and the 1-based number of the last line that got a row (or of
/// the top line when none did).
pub struct ViewportRows {
    pub rows: Vec<Vec<StyledText>>,
    pub matches: Vec<Vec<usize>>,
    pub last_line: usize,
}

/// The spans of a row: its gutter, its indent when it has one, then its
/// coloured chars.
fn row_spans(lead: StyledText, indent: usize, content: Vec<StyledText>) -> (spans: Vec<StyledText>)
    ensures
        spans_text(spans@) == lead.text@ + spaces(indent as int) + spans_text(content@),
{
    let mut spans: Vec<StyledText> = Vec::new();
    let ghost lead_text = lead.text@;
    spans.push(lead);
    let mut pad = String::new();
    push_spaces(&mut pad, indent);
    let ghost pad_text = pad@;
    if indent > 0 {
        spans.push(StyledText { text: pad, style: SpanStyle::Default });
    }
    proof {
        crate::viewer::highlight::lemma_spans_text_push(Seq::empty(), spans@[0]);
        assert(Seq::<StyledText>::empty().push(spans@[0]) =~= seq![spans@[0]]);
        assert(spans_text(Seq::<StyledText>::empty()) =~= Seq::<char>::empty());
        if indent > 0 {
            assert(spans@ =~= seq![spans@[0]].push(spans@[1]));
            crate::viewer::highlight::lemma_spans_text_push(seq![spans@[0]], spans@[1]);
        } else {
            assert(spans@ =~= seq![spans@[0]]);
            assert(pad_text =~= Seq::<char>::empty());
        }
        assert(spans_text(spans@) =~= lead_text + spaces(indent as int));
    }
    let ghost head = spans@;
    let mut content = content;
    let ghost tail = content@;
    spans.append(&mut content);
    proof {
        assert(spans@ =~= head + tail);
        lemma_spans_text_append(head, tail);
    }
    spans
}

/// The query's view, or nothing.
pub open spec fn query_view(query: Option<&str>) -> Seq<char> {
    match query {
        Some(q) => q@,
        None => Seq::empty(),
    }
}

/// `cs[start..end]` clamped to `cs`, as `clamped_window` says.
fn clamp_window(cs: &[char], start: usize, end: usize) -> (r: (usize, usize))
    ensures
        r.0 as int == clamped_window(cs@, start as int, end as int).0,
        r.1 as int == clamped_window(cs@, start as int, end as int).1,
        r.0 <= r.1 <= cs@.len(),
{
    let len = cs.len();
    let ws = if start < len {
        start
    } else {
        len
    };
    let we0 = if end < len {
        end
    } else {
        len
    };
    let we = if we0 < ws {
        ws
    } else {
        we0
    };
    (ws, we)
}

/// The columns, after a lead of `lead` chars, where a match of `query` in
/// `cs[lo..hi]` starts.
fn find_matches(cs: &[char], lo: usize, hi: usize, query: &[char], lead: usize) -> (cols: Vec<usize>)
    requires
        lo <= hi <= cs@.len(),
        lead + (hi - lo) <= usize::MAX,
    ensures
        match_columns(cols@, lead as int, cs@.subrange(lo as int, hi as int), query@),
{
    let ghost chars = cs@.subrange(lo as int, hi as int);
    let mut cols: Vec<usize> = Vec::new();
    let qlen = query.len();
    if qlen == 0 || qlen > hi - lo {
        proof {
            assert forall|i: int| #[trigger] match_at(chars, query@, i) implies cols@.contains(
                (lead + i) as usize,
            ) by {}
        }
        return cols;
    }
    let last = hi - lo - qlen;
    let mut i: usize = 0;
    while i <= last
        invariant
            lo <= hi <= cs@.len(),
            lead + (hi - lo) <= usize::MAX,
            chars == cs@.subrange(lo as int, hi as int),
            qlen == query@.len() > 0,
            last + qlen == hi - lo,
            i <= last + 1,
            forall|a: int, b: int| 0 <= a < b < cols@.len() ==> cols@[a] < cols@[b],
            forall|k: int| 0 <= k < cols@.len() ==> #[trigger] cols@[k] >= lead && cols@[k] < lead + i
                && match_at(chars, query@, cols@[k] - lead),
            forall|t: int| 0 <= t < i && #[trigger] match_at(chars, query@, t) ==> cols@.contains(
                (lead + t) as usize,
            ),
        decreases last + 1 - i,
    {
        let mut k: usize = 0;
        let mut same = true;
        while k < qlen
            invariant
                k <= qlen == query@.len(),
                lo + i + qlen <= hi <= cs@.len(),
                same <==> forall|m: int| 0 <= m < k ==> cs@[lo + i + m] == query@[m],
            decreases qlen - k,
        {
            if cs[lo + i + k] != query[k] {
                same = false;
            }
            k += 1;
        }
        proof {
            if same {
                assert(chars.subrange(i as int, i + qlen) =~= query@);
            } else {
                assert(!match_at(chars, query@, i as int)) by {
                    if match_at(chars, query@, i as int) {
                        assert forall|m: int| 0 <= m < qlen implies cs@[lo + i + m] == query@[m] by {
                            assert(chars.subrange(i as int, i + qlen)[m] == query@[m]);
                        }
                    }
                }
            }
        }
        if same {
            let ghost before = cols@;
            cols.push(lead + i);
            proof {
                assert forall|t: int| 0 <= t <= i && #[trigger] match_at(chars, query@, t) implies cols@.contains(
                    (lead + t) as usize,
                ) by {
                    if t < i {
                        let w = choose|w: int| 0 <= w < before.len() && before[w] == (lead + t) as usize;
                        assert(cols@[w] == before[w]);
                    } else {
                        assert(cols@[cols@.len() - 1] == (lead + t) as usize);
                    }
                }
            }
        } else {
            proof {
                assert forall|t: int| 0 <= t <= i && #[trigger] match_at(chars, query@, t) implies cols@.contains(
                    (lead + t) as usize,
                ) by {
                    if t == i {
                        assert(false);
                    }
                }
            }
        }
        i += 1;
    }
    proof {
        assert forall|t: int| #[trigger] match_at(chars, query@, t) implies cols@.contains((lead + t) as usize) by {
            assert(t <= last);
        }
    }
    cols
}

/// Row `row` of a wrapped line, and where matches of the query `qcs` start
/// in it.
fn wrapped_row(
    line: &str,
    cs: &[char],
    number: usize,
    row: usize,
    range: WrapRange,
    mode: ViewMode,
    gutter: GutterLayout,
    width: usize,
    qcs: &[char],
) -> (r: (Vec<StyledText>, Vec<usize>))
    requires
        cs@ == line@,
        line@.len() <= usize::MAX / 8,
        gutter.line_digits <= 20,
        range == row_range(cs@, width as int, row as int),
    ensures
        ({
            let p = wrapped_row_parts(cs@, number, row as int, gutter.line_digits as int, width as int);
            &&& spans_text(r.0@) == p.0 + p.1
            &&& match_columns(r.1@, p.0.len() as int, p.1, qcs@)
        }),
{
    let lead = if row == 0 {
        gutter.line_number(number)
    } else {
        gutter.continuation(row)
    };
    let lead_len = crate::text::chars_of(lead.text.as_str()).len();
    proof {
        crate::viewer::gutter::lemma_line_number_text_len(number, gutter.line_digits as int);
        assert(lead_len <= 23);
        let bs = vstd::utf8::encode_utf8(cs@);
        if !(bs.len() == 0 || width == 0) {
            let ci = continuation_indent_spec(cs@, width as int);
            crate::viewer::diff::cells::lemma_leading_ws_nonneg(cs@, 0);
            assert(0 <= ci <= 24);
            assert(crate::tui::wrap::row_indent(row as int, width as int, ci) <= 24);
            assert(range == range_at(cs@, bs, width as int, ci, row as nat));
            assert(range.continuation_indent == crate::tui::wrap::row_indent(row as int, width as int, ci) as usize);
        } else {
            assert(range.continuation_indent == 0);
        }
        assert(range.continuation_indent <= 24);
    }
    let content = highlight_content_window(line, mode, range.start_char, range.end_char);
    let spans = row_spans(lead, range.continuation_indent, content);
    let (ws, we) = clamp_window(cs, range.start_char, range.end_char);
    let found = find_matches(cs, ws, we, qcs, lead_len + range.continuation_indent);
    (spans, found)
}

/// The rows of a line, the columns where matches of a query start in each,
/// and the 1-based number of their line.
pub struct LineRows {
    pub rows: Vec<Vec<StyledText>>,
    pub matches: Vec<Vec<usize>>,
}

/// The rows that line `number` shows from its row `first_row` on, in a view
/// with `budget` rows left, and where matches of `query` start in them.
#[verifier::rlimit(60)]
pub fn line_body_rows(
    line: &str,
    number: usize,
    first_row: usize,
    budget: usize,
    mode: ViewMode,
    gutter: GutterLayout,
    context: RenderContext,
    x: usize,
    query: Option<&str>,
) -> (r: LineRows)
    requires
        line@.len() <= usize::MAX / 8,
        gutter.line_digits <= 20,
    ensures
        ({
            let parts = line_rows(
                line@,
                number,
                first_row as int,
                budget as int,
                gutter.line_digits as int,
                context,
                x as int,
            );
            &&& rows_texts(r.rows@) == joined(parts)
            &&& r.matches@.len() == parts.len()
            &&& forall|k: int| 0 <= k < parts.len() ==> match_columns(
                (#[trigger] r.matches@[k])@,
                parts[k].0.len() as int,
                parts[k].1,
                query_view(query),
            )
        }),
{
    let cs = crate::text::chars_of(line);
    let empty: Vec<char> = Vec::new();
    let qcs = match query {
        Some(q) => crate::text::chars_of(q),
        None => empty,
    };
    proof {
        assert(qcs@ == query_view(query));
    }
    let mut rows: Vec<Vec<StyledText>> = Vec::new();
    let mut matches: Vec<Vec<usize>> = Vec::new();
    if budget == 0 {
        assert(rows_texts(rows@) =~= Seq::<Seq<char>>::empty());
        assert(joined(Seq::<(Seq<char>, Seq<char>)>::empty()) =~= Seq::<Seq<char>>::empty());
        return LineRows { rows, matches };
    }
    if !context.wrap {
        let end = if x > usize::MAX - context.width {
            usize::MAX
        } else {
            x + context.width
        };
        let lead = gutter.line_number(number);
        let lead_len = crate::text::chars_of(lead.text.as_str()).len();
        let content = highlight_content_window(line, mode, x, end);
        let row = row_spans(lead, 0, content);
        rows.push(row);
        let (ws, we) = clamp_window(cs.as_slice(), x, end);
        proof {
            assert(lead_len <= 23) by {
                crate::viewer::gutter::lemma_line_number_text_len(number, gutter.line_digits as int);
            }
        }
        matches.push(find_matches(cs.as_slice(), ws, we, qcs.as_slice(), lead_len));
        proof {
            assert(spaces(0) =~= Seq::<char>::empty());
            let parts = line_rows(line@, number, first_row as int, budget as int, gutter.line_digits as int, context, x as int);
            assert(rows_texts(rows@) =~= joined(parts));
            assert(parts[0].1 == cs@.subrange(ws as int, we as int));
            assert(parts[0].0.len() == lead_len);
        }
        return LineRows { rows, matches };
    }
    let width = context.width;
    let indent = continuation_indent(line, width);
    let window = wrap_ranges_window(line, width, indent, first_row, budget);
    let ghost n = wrapped_rows_shown(cs@, width as int, first_row as int, budget as int);
    proof {
        assert(line.spec_bytes() == vstd::utf8::encode_utf8(cs@));
        assert(window.ranges@.len() == n);
        assert(first_row + n <= usize::MAX + 1);
    }
    let mut j: usize = 0;
    while j < window.ranges.len()
        invariant
            j <= window.ranges@.len(),
            window.ranges@.len() == n,
            first_row + n <= usize::MAX + 1,
            cs@ == line@,
            qcs@ == query_view(query),
            line@.len() <= usize::MAX / 8,
            gutter.line_digits <= 20,
            width == context.width,
            context.wrap,
            budget > 0,
            indent == continuation_indent_spec(cs@, width as int),
            forall|k: int| 0 <= k < window.ranges@.len() ==> #[trigger] window.ranges@[k] == row_range(
                cs@,
                width as int,
                first_row + k,
            ),
            rows@.len() == j,
            matches@.len() == j,
            forall|k: int| 0 <= k < j ==> {
                let p = wrapped_row_parts(cs@, number, first_row + k, gutter.line_digits as int, width as int);
                &&& spans_text((#[trigger] rows@[k])@) == p.0 + p.1
                &&& match_columns(matches@[k]@, p.0.len() as int, p.1, query_view(query))
            },
        decreases window.ranges@.len() - j,
    {
        let range = window.ranges[j];
        let row = first_row + j;
        let (spans, found) = wrapped_row(line, cs.as_slice(), number, row, range, mode, gutter, width, qcs.as_slice());
        rows.push(spans);
        matches.push(found);
        j += 1;
    }
    proof {
        let parts = line_rows(line@, number, first_row as int, budget as int, gutter.line_digits as int, context, x as int);
        assert(parts.len() == n);
        assert forall|k: int| 0 <= k < parts.len() implies parts[k] == wrapped_row_parts(
            cs@,
            number,
            first_row + k,
            gutter.line_digits as int,
            width as int,
        ) by {}
        assert forall|k: int| 0 <= k < parts.len() implies match_columns(
            (#[trigger] matches@[k])@,
            parts[k].0.len() as int,
            parts[k].1,
            query_view(query),
        ) by {
            assert(parts[k] == wrapped_row_parts(cs@, number, first_row + k, gutter.line_digits as int, width as int));
            assert(spans_text(rows@[k]@) == parts[k].0 + parts[k].1);
        }
        assert(rows_texts(rows@) =~= joined(parts));
    }
    LineRows { rows, matches }
}


/// The body of a view `visible_height` rows high: the rows of the lines from
/// the top line on (its rows from `top_row_offset` when wrapping), each behind
/// its gutter; where matches of `query` start in each row; and the 1-based
/// number of the last line shown.
pub fn viewport_rows(
    lines: &[String],
    state: &ViewState,
    mode: ViewMode,
    gutter: GutterLayout,
    context: RenderContext,
    query: Option<&str>,
    visible_height: usize,
) -> (v: ViewportRows)
    requires
        forall|i: int| 0 <= i < lines@.len() ==> (#[trigger] lines@[i])@.len() <= usize::MAX / 8,
        lines@.len() < usize::MAX,
        gutter.line_digits <= 20,
    ensures
        ({
            let parts = body_rows_spec(
                lines@,
                state.top as int,
                state.top_row_offset as int,
                visible_height as int,
                gutter.line_digits as int,
                context,
                state.x as int,
            );
            &&& rows_texts(v.rows@) == joined(parts)
            &&& v.matches@.len() == parts.len()
            &&& forall|k: int| 0 <= k < parts.len() ==> match_columns(
                (#[trigger] v.matches@[k])@,
                parts[k].0.len() as int,
                parts[k].1,
                query_view(query),
            )
        }),
        v.last_line == last_line_shown(
            lines@,
            state.top as int,
            state.top_row_offset as int,
            visible_height as int,
            context,
            state.top as int,
        ),
{
    let mut rows: Vec<Vec<StyledText>> = Vec::new();
    let mut matches: Vec<Vec<usize>> = Vec::new();
    let mut index = state.top;
    let mut first_row = state.top_row_offset;
    let mut last_line = state.top;
    let ghost digits = gutter.line_digits as int;
    let ghost total = body_rows_spec(lines@, state.top as int, state.top_row_offset as int, visible_height as int, digits, context, state.x as int);
    let ghost mut done: Seq<(Seq<char>, Seq<char>)> = Seq::empty();
    proof {
        assert(done + total =~= total);
        assert(rows_texts(rows@) =~= joined(done));
    }
    while index < lines.len() && rows.len() < visible_height
        invariant
            forall|i: int| 0 <= i < lines@.len() ==> (#[trigger] lines@[i])@.len() <= usize::MAX / 8,
            lines@.len() < usize::MAX,
            gutter.line_digits <= 20,
            rows@.len() <= visible_height,
            rows@.len() == done.len(),
            matches@.len() == done.len(),
            rows_texts(rows@) == joined(done),
            forall|k: int| 0 <= k < done.len() ==> match_columns(
                (#[trigger] matches@[k])@,
                done[k].0.len() as int,
                done[k].1,
                query_view(query),
            ),
            done + body_rows_spec(
                lines@,
                index as int,
                first_row as int,
                visible_height - rows@.len(),
                digits,
                context,
                state.x as int,
            ) == total,
            last_line_shown(lines@, index as int, first_row as int, visible_height - rows@.len(), context, last_line as int)
                == last_line_shown(
                lines@,
                state.top as int,
                state.top_row_offset as int,
                visible_height as int,
                context,
                state.top as int,
            ),
            digits == gutter.line_digits as int,
            total == body_rows_spec(lines@, state.top as int, state.top_row_offset as int, visible_height as int, digits, context, state.x as int),
        decreases lines@.len() - index,
    {
        let budget = visible_height - rows.len();
        let here = line_body_rows(
            lines[index].as_str(),
            index + 1,
            first_row,
            budget,
            mode,
            gutter,
            context,
            state.x,
            query,
        );
        let ghost h = line_rows(lines@[index as int]@, (index + 1) as usize, first_row as int, budget as int, digits, context, state.x as int);
        let ghost before = rows@;
        let ghost before_matches = matches@;
        proof {
            if !context.wrap {
                assert(h.len() == 1);
            }
            assert(h.len() <= budget) by {
                if context.wrap {
                    let cs = lines@[index as int]@;
                    let bs = vstd::utf8::encode_utf8(cs);
                    if !(bs.len() == 0 || context.width == 0) {
                        let t = sat_add(first_row as int, budget as int);
                        assert(t <= first_row + budget);
                    }
                }
            }
        }
        if here.rows.len() > 0 {
            last_line = index + 1;
        }
        let mut here_rows = here.rows;
        let mut here_matches = here.matches;
        let ghost hr = here_rows@;
        let ghost hm = here_matches@;
        rows.append(&mut here_rows);
        matches.append(&mut here_matches);
        proof {
            assert(rows@ =~= before + hr);
            assert(matches@ =~= before_matches + hm);
            assert(rows_texts(hr) == joined(h));
            assert(rows_texts(hr).len() == hr.len());
            assert(joined(h).len() == h.len());
            assert(hr.len() == h.len());
            assert(before.len() == done.len());
            assert(rows@.len() == (done + h).len());
            assert forall|k: int| 0 <= k < rows@.len() implies #[trigger] rows_texts(rows@)[k] == joined(done + h)[k] by {
                if k < before.len() {
                    assert(rows@[k] == before[k]);
                    assert(rows_texts(before)[k] == joined(done)[k]);
                    assert((done + h)[k] == done[k]);
                } else {
                    assert(rows@[k] == hr[k - before.len()]);
                    assert(rows_texts(hr)[k - before.len()] == joined(h)[k - before.len()]);
                    assert((done + h)[k] == h[k - done.len()]);
                }
            }
            assert(rows_texts(rows@) =~= joined(done + h));
            let rest = body_rows_spec(lines@, index + 1, 0, budget - h.len(), digits, context, state.x as int);
            assert(body_rows_spec(lines@, index as int, first_row as int, budget as int, digits, context, state.x as int) == h + rest);
            assert(done + (h + rest) =~= done + h + rest);
            assert forall|k: int| 0 <= k < (done + h).len() implies match_columns(
                (#[trigger] matches@[k])@,
                (done + h)[k].0.len() as int,
                (done + h)[k].1,
                query_view(query),
            ) by {
                if k < done.len() {
                    assert(matches@[k] == before_matches[k]);
                } else {
                    assert(matches@[k] == hm[k - done.len()]);
                }
            }
            done = done + h;
        }
        index = index + 1;
        first_row = 0;
    }
    proof {
        assert(body_rows_spec(lines@, index as int, first_row as int, visible_height - rows@.len(), digits, context, state.x as int)
            =~= Seq::<(Seq<char>, Seq<char>)>::empty());
        assert(done + Seq::<(Seq<char>, Seq<char>)>::empty() =~= done);
    }
    ViewportRows { rows, matches, last_line }
}

} // verus!
