//! XML tags: their kind, their name, how they pair, and their colours.
use vstd::prelude::*;

use crate::text::{is_whitespace, is_ws, push_chars};
use crate::viewer::input::points::skip_ws;

use super::lexer::{
    escape_end_spec, escape_token_end, escaped_quoted_end, escaped_quoted_end_spec,
    is_xml_name_char, quoted_end, quoted_end_spec, run_end, take_while, xml_name_char_spec,
    CharClass,
};
use super::{
    spans_tidy, in_window, lemma_in_window_empty, lemma_in_window_before, lemma_in_window_concat, lemma_scan_step, lemma_piece_before,
    lemma_piece_concat, piece, push_span_window, run, spans_styles, spans_text, valid_window,
    SpanStyle, StyledText,
};

verus! {

/// What a tag does to the nesting.
#[derive(Debug, Clone, Copy, PartialEq, Eq, Structural)]
pub enum XmlTagKind {
    Open,
    Close,
    SelfClosing,
    Other,
}

/// How a tag is coloured: its nesting depth, and whether it pairs up.
#[derive(Debug, Clone, Copy, PartialEq, Eq, Structural)]
pub struct XmlTagState {
    pub depth: usize,
    pub matched: bool,
}

/// An element that is open: its name and depth.
#[derive(Debug)]
pub struct XmlOpenTag {
    pub name: String,
    pub depth: usize,
}

/// The elements open so far, innermost last.
#[derive(Debug)]
pub struct XmlPairState {
    pub stack: Vec<XmlOpenTag>,
}

/// What taking a tag of `kind` named `name` into account at `base_depth`
/// does to the open elements `st`, and how the tag is coloured: an open tag
/// goes one level deeper, a close tag that matches the innermost open one
/// ends it at its depth, a close tag that does not is marked unmatched.
pub open spec fn apply_spec(
    st: Seq<(Seq<char>, usize)>,
    kind: XmlTagKind,
    name: Option<Seq<char>>,
    base_depth: usize,
) -> (Seq<(Seq<char>, usize)>, XmlTagState) {
    match (kind, name) {
        (XmlTagKind::Open, Some(n)) => (
            st.push((n, (base_depth + st.len()) as usize)),
            XmlTagState { depth: (base_depth + st.len()) as usize, matched: true },
        ),
        (XmlTagKind::Close, Some(n)) => if st.len() == 0 {
            (st, XmlTagState { depth: base_depth, matched: false })
        } else if st.last().0 == n {
            (st.drop_last(), XmlTagState { depth: st.last().1, matched: true })
        } else {
            (st, XmlTagState { depth: (base_depth + st.len() - 1) as usize, matched: false })
        },
        _ => (st, XmlTagState { depth: (base_depth + st.len()) as usize, matched: true }),
    }
}

/// A close tag right after an open tag of the same name leaves the open
/// elements as they were, and both are coloured at the same depth.
pub proof fn law_close_undoes_open(
    st: Seq<(Seq<char>, usize)>,
    name: Seq<char>,
    base_depth: usize,
)
    requires
        base_depth + st.len() <= usize::MAX,
    ensures
        ({
            let (opened, open_tag) = apply_spec(st, XmlTagKind::Open, Some(name), base_depth);
            let (closed, close_tag) = apply_spec(
                opened,
                XmlTagKind::Close,
                Some(name),
                base_depth,
            );
            &&& closed == st
            &&& open_tag.matched && close_tag.matched
            &&& close_tag.depth == open_tag.depth
        }),
{
    let (opened, open_tag) = apply_spec(st, XmlTagKind::Open, Some(name), base_depth);
    assert(opened.drop_last() =~= st);
}

/// A close tag with no element open is unmatched and changes nothing.
pub proof fn law_stray_close_is_unmatched(name: Seq<char>, base_depth: usize)
    ensures
        apply_spec(Seq::empty(), XmlTagKind::Close, Some(name), base_depth) == (
            Seq::<(Seq<char>, usize)>::empty(),
            XmlTagState { depth: base_depth, matched: false },
        ),
{
}

impl XmlPairState {
    /// The open elements as names and depths.
    pub open spec fn open_tags(&self) -> Seq<(Seq<char>, usize)> {
        self.stack@.map_values(|t: XmlOpenTag| (t.name@, t.depth))
    }

    /// No element open.
    pub fn new() -> (s: Self)
        ensures
            s.open_tags().len() == 0,
    {
        XmlPairState { stack: Vec::new() }
    }

    /// A copy holding the same open elements.
    pub fn duplicate(&self) -> (copy: Self)
        ensures
            copy.open_tags() == self.open_tags(),
    {
        let mut stack: Vec<XmlOpenTag> = Vec::new();
        let mut i: usize = 0;
        while i < self.stack.len()
            invariant
                i <= self.stack@.len(),
                stack@.len() == i,
                forall|j: int|
                    0 <= j < i ==> (#[trigger] stack@[j]).name@ == self.stack@[j].name@
                        && stack@[j].depth == self.stack@[j].depth,
            decreases self.stack@.len() - i,
        {
            let name = self.stack[i].name.clone();
            stack.push(XmlOpenTag { name, depth: self.stack[i].depth });
            i += 1;
        }
        let copy = XmlPairState { stack };
        assert(copy.open_tags() =~= self.open_tags());
        copy
    }

    /// Takes a tag of `kind` named `name` into account at `base_depth`: an open
    /// tag goes one level deeper, a close tag that matches the innermost open
    /// one ends it at its depth, a close tag that does not is marked unmatched.
    pub fn apply(&mut self, kind: XmlTagKind, name: Option<&[char]>, base_depth: usize) -> (r:
        XmlTagState)
        requires
            base_depth + old(self).open_tags().len() <= usize::MAX || (kind is Close && (
            name matches Some(n) && (old(self).open_tags().len() == 0
                || old(self).open_tags().last().0 == n@))),
        ensures
            (final(self).open_tags(), r) == apply_spec(
                old(self).open_tags(),
                kind,
                match name {
                    Some(n) => Some(n@),
                    None => None,
                },
                base_depth,
            ),
    {
        let ghost st = self.open_tags();
        match kind {
            XmlTagKind::Open => match name {
                Some(n) => {
                    let depth = base_depth + self.stack.len();
                    let mut owned = String::new();
                    push_chars(&mut owned, n);
                    self.stack.push(XmlOpenTag { name: owned, depth });
                    assert(self.open_tags() =~= st.push((n@, depth)));
                    XmlTagState { depth, matched: true }
                },
                None => XmlTagState { depth: base_depth + self.stack.len(), matched: true },
            },
            XmlTagKind::Close => match name {
                Some(n) => {
                    let len = self.stack.len();
                    if len == 0 {
                        return XmlTagState { depth: base_depth, matched: false };
                    }
                    assert(st.last() == (self.stack@[len - 1].name@, self.stack@[len - 1].depth));
                    let same = crate::viewer::input::points::chars_equal(
                        n,
                        self.stack[len - 1].name.as_str(),
                    );
                    if same {
                        let open = self.stack.pop().unwrap();
                        assert(self.open_tags() =~= st.drop_last());
                        XmlTagState { depth: open.depth, matched: true }
                    } else {
                        XmlTagState { depth: base_depth + len - 1, matched: false }
                    }
                },
                None => XmlTagState { depth: base_depth + self.stack.len(), matched: true },
            },
            _ => XmlTagState { depth: base_depth + self.stack.len(), matched: true },
        }
    }
}

/// `source[start..end]` begins with the two chars `a`, `b`.
pub open spec fn starts_with2(source: Seq<char>, start: int, end: int, a: char, b: char) -> bool {
    end - start >= 2 && source[start] == a && source[start + 1] == b
}

/// Where the tag ends once the `>` chars at its end are dropped.
pub open spec fn strip_gt(source: Seq<char>, start: int, e: int) -> int
    decreases e - start,
{
    if e > start && source[e - 1] == '>' {
        strip_gt(source, start, e - 1)
    } else {
        e
    }
}

/// Where the tag ends once whitespace at its end is dropped too.
pub open spec fn strip_ws_end(source: Seq<char>, start: int, e: int) -> int
    decreases e - start,
{
    if e > start && is_ws(source[e - 1]) {
        strip_ws_end(source, start, e - 1)
    } else {
        e
    }
}

/// The kind of the tag `source[start..end]`.
pub open spec fn tag_kind_spec(source: Seq<char>, start: int, end: int) -> XmlTagKind {
    if starts_with2(source, start, end, '<', '/') {
        XmlTagKind::Close
    } else if starts_with2(source, start, end, '<', '?') || starts_with2(
        source,
        start,
        end,
        '<',
        '!',
    ) {
        XmlTagKind::Other
    } else {
        let e = strip_ws_end(source, start, strip_gt(source, start, end));
        if e > start && source[e - 1] == '/' {
            XmlTagKind::SelfClosing
        } else {
            XmlTagKind::Open
        }
    }
}

/// What kind of tag `source[start..end]` is.
pub fn xml_tag_kind(source: &[char], start: usize, end: usize) -> (kind: XmlTagKind)
    requires
        start <= end <= source@.len(),
    ensures
        kind == tag_kind_spec(source@, start as int, end as int),
{
    if end - start >= 2 && source[start] == '<' && source[start + 1] == '/' {
        return XmlTagKind::Close;
    }
    if end - start >= 2 && source[start] == '<' && (source[start + 1] == '?' || source[start + 1]
        == '!') {
        return XmlTagKind::Other;
    }
    let mut e = end;
    while e > start && source[e - 1] == '>'
        invariant
            start <= e <= end <= source@.len(),
            strip_gt(source@, start as int, end as int) == strip_gt(
                source@,
                start as int,
                e as int,
            ),
        decreases e - start,
    {
        e -= 1;
    }
    let gt = e;
    while e > start && is_whitespace(source[e - 1])
        invariant
            start <= e <= gt <= source@.len(),
            gt == strip_gt(source@, start as int, end as int),
            strip_ws_end(source@, start as int, gt as int) == strip_ws_end(
                source@,
                start as int,
                e as int,
            ),
        decreases e - start,
    {
        e -= 1;
    }
    if e > start && source[e - 1] == '/' {
        XmlTagKind::SelfClosing
    } else {
        XmlTagKind::Open
    }
}

/// The name of the tag `source[start..end]`: the XML name chars after `<` or
/// `</` and any whitespace; `None` when there are none.
pub open spec fn tag_name_spec(source: Seq<char>, start: int, end: int) -> Option<(int, int)> {
    let first = if starts_with2(source, start, end, '<', '/') {
        start + 2
    } else {
        start + 1
    };
    let name_start = if skip_ws(source.take(end), first) < end {
        skip_ws(source.take(end), first)
    } else {
        end
    };
    let name_end = run_end(source, name_start, end, CharClass::XmlNameChar);
    if name_end > name_start {
        Some((name_start, name_end))
    } else {
        None
    }
}

/// Where the name of the tag `source[start..end]` lies.
pub fn xml_tag_name_range(source: &[char], start: usize, end: usize) -> (r: Option<(usize, usize)>)
    requires
        start < end <= source@.len(),
    ensures
        r is None <==> tag_name_spec(source@, start as int, end as int) is None,
        r matches Some((a, b)) ==> tag_name_spec(source@, start as int, end as int) == Some(
            (a as int, b as int),
        ),
        r matches Some((a, b)) ==> start < a < b <= end,
{
    let mut index = if end - start >= 2 && source[start] == '<' && source[start + 1] == '/' {
        start + 2
    } else {
        start + 1
    };
    let ghost first = index as int;
    let ghost head = source@.take(end as int);
    while index < end && is_whitespace(source[index])
        invariant
            start < first <= index <= end <= source@.len(),
            head == source@.take(end as int),
            skip_ws(head, first) == skip_ws(head, index as int),
        decreases end - index,
    {
        assert(head[index as int] == source@[index as int]);
        index += 1;
    }
    proof {
        if index < end {
            assert(head[index as int] == source@[index as int]);
        }
        assert(skip_ws(head, index as int) == if index < end {
            index as int
        } else {
            end as int
        });
    }
    let name_end = take_while(source, index, end, CharClass::XmlNameChar);
    if name_end > index {
        Some((index, name_end))
    } else {
        None
    }
}

/// `source[start..end]` is a tag: a close tag, a declaration or processing
/// instruction, or a tag with a name.
pub open spec fn looks_like_tag_spec(source: Seq<char>, start: int, end: int) -> bool {
    ||| starts_with2(source, start, end, '<', '/')
    ||| starts_with2(source, start, end, '<', '?')
    ||| starts_with2(source, start, end, '<', '!')
    ||| tag_name_spec(source, start, end) is Some
}

/// Whether `source[start..end]` looks like an XML tag.
pub fn looks_like_xml_tag(source: &[char], start: usize, end: usize) -> (r: bool)
    requires
        start < end <= source@.len(),
    ensures
        r == looks_like_tag_spec(source@, start as int, end as int),
{
    if end - start >= 2 && source[start] == '<' && (source[start + 1] == '/' || source[start + 1]
        == '?' || source[start + 1] == '!') {
        return true;
    }
    xml_tag_name_range(source, start, end).is_some()
}

/// Half the width of the leading whitespace, a tab counting two.
pub open spec fn indent_weight(line: Seq<char>, i: int) -> int
    decreases line.len() - i,
{
    if i < 0 || i >= line.len() || !is_ws(line[i]) {
        0
    } else {
        (if line[i] == '\t' {
            2int
        } else {
            1int
        }) + indent_weight(line, i + 1)
    }
}

pub proof fn lemma_indent_weight_bound(line: Seq<char>, i: int)
    requires
        0 <= i <= line.len(),
    ensures
        0 <= indent_weight(line, i) <= 2 * (line.len() - i),
    decreases line.len() - i,
{
    if i < line.len() && is_ws(line[i]) {
        lemma_indent_weight_bound(line, i + 1);
    }
}

/// The nesting depth that a line's indent suggests.
pub fn xml_depth_from_indent(line: &[char]) -> (depth: usize)
    requires
        line@.len() <= usize::MAX / 8,
    ensures
        depth == indent_weight(line@, 0) / 2,
        depth <= line@.len(),
{
    let mut i: usize = 0;
    let mut total: usize = 0;
    proof {
        lemma_indent_weight_bound(line@, 0);
    }
    while i < line.len() && is_whitespace(line[i])
        invariant
            i <= line@.len() <= usize::MAX / 8,
            total + indent_weight(line@, i as int) == indent_weight(line@, 0),
            total <= 2 * i,
        decreases line@.len() - i,
    {
        total = total + if line[i] == '\t' {
            2
        } else {
            1
        };
        i += 1;
    }
    total / 2
}

/// An escape that ends within `end` starts at `index`.
pub open spec fn escape_fits(source: Seq<char>, index: int, end: int) -> bool {
    escape_end_spec(source, index) matches Some(e) && index < e <= end
}

/// The style of each char of `source[index..end]` read as quoted text:
/// escapes in their own style, the rest as string text.
pub open spec fn segment_styles(source: Seq<char>, index: int, end: int) -> Seq<SpanStyle>
    decreases end - index,
{
    if index >= end {
        Seq::empty()
    } else if escape_fits(source, index, end) {
        let e = escape_end_spec(source, index)->0;
        run(e - index, SpanStyle::Escape) + segment_styles(source, e, end)
    } else {
        seq![SpanStyle::Str] + segment_styles(source, index + 1, end)
    }
}

/// One style for each char of `source[index..end]`.
pub proof fn lemma_segment_styles_len(source: Seq<char>, index: int, end: int)
    requires
        index <= end,
    ensures
        segment_styles(source, index, end).len() == end - index,
    decreases end - index,
{
    if index < end {
        if escape_fits(source, index, end) {
            lemma_segment_styles_len(source, escape_end_spec(source, index)->0, end);
        } else {
            lemma_segment_styles_len(source, index + 1, end);
        }
    }
}

/// Where no escape starts in `[from, to)`, those chars are string text.
pub proof fn lemma_segment_plain(source: Seq<char>, from: int, to: int, end: int)
    requires
        from <= to <= end,
        forall|k: int| from <= k < to ==> !#[trigger] escape_fits(source, k, end),
    ensures
        segment_styles(source, from, end) == run(to - from, SpanStyle::Str) + segment_styles(
            source,
            to,
            end,
        ),
    decreases to - from,
{
    if from < to {
        lemma_segment_plain(source, from + 1, to, end);
        assert(!escape_fits(source, from, end));
        assert(seq![SpanStyle::Str] + run(to - (from + 1), SpanStyle::Str) =~= run(
            to - from,
            SpanStyle::Str,
        ));
        assert(segment_styles(source, from, end) == seq![SpanStyle::Str] + segment_styles(
            source,
            from + 1,
            end,
        ));
        assert(seq![SpanStyle::Str] + (run(to - (from + 1), SpanStyle::Str) + segment_styles(
            source,
            to,
            end,
        )) =~= run(to - from, SpanStyle::Str) + segment_styles(source, to, end));
    } else {
        assert(run(0, SpanStyle::Str) + segment_styles(source, to, end) =~= segment_styles(
            source,
            to,
            end,
        ));
    }
}

/// Colours `source[start..end]` as string text, its escapes marked.
#[verifier::rlimit(60)]
pub fn highlight_string_segment_window(
    source: &[char],
    start: usize,
    end: usize,
    window_start: usize,
    window_end: usize,
    spans: &mut Vec<StyledText>,
)
    requires
        valid_window(source@, window_start as int, window_end as int),
        start <= end <= source@.len(),
    ensures
        spans_tidy(old(spans)@) ==> spans_tidy(final(spans)@),
        spans_text(final(spans)@) == spans_text(old(spans)@) + piece(
            source@,
            window_start as int,
            window_end as int,
            start as int,
            end as int,
        ),
        spans_styles(final(spans)@) == spans_styles(old(spans)@) + in_window(
            segment_styles(source@, start as int, end as int),
            start as int,
            window_start as int,
            window_end as int,
        ),
{
    proof {
        lemma_segment_styles_len(source@, start as int, end as int);
    }
    if end <= window_start {
        proof {
            lemma_piece_before(source@, window_start as int, window_end as int, start as int, end as int);
            assert(spans_text(spans@) =~= spans_text(spans@) + Seq::<char>::empty());
            lemma_in_window_before(
                segment_styles(source@, start as int, end as int),
                start as int,
                window_start as int,
                window_end as int,
            );
            assert(spans_styles(spans@) =~= spans_styles(spans@) + Seq::<SpanStyle>::empty());
        }
        return;
    }
    let mut index = start;
    let mut plain_start = start;
    let ghost mut done: Seq<SpanStyle> = Seq::empty();
    proof {
        lemma_in_window_empty(start as int, window_start as int, window_end as int);
        assert(spans_styles(spans@) =~= spans_styles(old(spans)@) + in_window(
            done,
            start as int,
            window_start as int,
            window_end as int,
        ));
        assert(done + segment_styles(source@, start as int, end as int) =~= segment_styles(
            source@,
            start as int,
            end as int,
        ));
    }
    while index < end
        invariant
        spans_tidy(old(spans)@) ==> spans_tidy(spans@),
            valid_window(source@, window_start as int, window_end as int),
            start <= plain_start <= index <= end <= source@.len(),
            spans_text(spans@) == spans_text(old(spans)@) + piece(
                source@,
                window_start as int,
                window_end as int,
                start as int,
                plain_start as int,
            ),
            done.len() == plain_start - start,
            done + segment_styles(source@, plain_start as int, end as int) == segment_styles(
                source@,
                start as int,
                end as int,
            ),
            spans_styles(spans@) == spans_styles(old(spans)@) + in_window(
                done,
                start as int,
                window_start as int,
                window_end as int,
            ),
            forall|k: int|
                plain_start <= k < index ==> !#[trigger] escape_fits(source@, k, end as int),
        decreases end - index,
    {
        match escape_token_end(source, index) {
            Some(escape_end) => {
                if escape_end <= end {
                    proof {
                        lemma_segment_plain(source@, plain_start as int, index as int, end as int);
                        assert(escape_fits(source@, index as int, end as int));
                        let str_run = run(index - plain_start, SpanStyle::Str);
                        let esc_run = run(escape_end - index, SpanStyle::Escape);
                        assert(segment_styles(source@, index as int, end as int) == esc_run
                            + segment_styles(source@, escape_end as int, end as int));
                        lemma_in_window_concat(done, str_run, start as int, window_start as int, window_end as int);
                        lemma_in_window_concat(done + str_run, esc_run, start as int, window_start as int, window_end as int);
                        assert(done + str_run + esc_run + segment_styles(
                            source@,
                            escape_end as int,
                            end as int,
                        ) =~= done + (str_run + (esc_run + segment_styles(
                            source@,
                            escape_end as int,
                            end as int,
                        ))));
                    }
                    let ghost str_run = run(index - plain_start, SpanStyle::Str);
                    let ghost esc_run = run(escape_end - index, SpanStyle::Escape);
                    push_span_window(
                        spans,
                        source,
                        plain_start,
                        index,
                        SpanStyle::Str,
                        window_start,
                        window_end,
                    );
                    push_span_window(
                        spans,
                        source,
                        index,
                        escape_end,
                        SpanStyle::Escape,
                        window_start,
                        window_end,
                    );
                    proof {
                        lemma_piece_concat(
                            source@,
                            window_start as int,
                            window_end as int,
                            start as int,
                            plain_start as int,
                            index as int,
                        );
                        lemma_piece_concat(
                            source@,
                            window_start as int,
                            window_end as int,
                            start as int,
                            index as int,
                            escape_end as int,
                        );
                    }
                    index = escape_end;
                    plain_start = index;
                    proof {
                        done = done + str_run + esc_run;
                    }
                    continue;
                }
            },
            None => {},
        }
        proof {
            assert(!escape_fits(source@, index as int, end as int));
        }
        index += 1;
    }
    proof {
        lemma_segment_plain(source@, plain_start as int, end as int, end as int);
        lemma_in_window_concat(
            done,
            run(end - plain_start, SpanStyle::Str),
            start as int,
            window_start as int,
            window_end as int,
        );
        assert(segment_styles(source@, end as int, end as int) =~= Seq::<SpanStyle>::empty());
        assert(done + run(end - plain_start, SpanStyle::Str) =~= segment_styles(
            source@,
            start as int,
            end as int,
        ));
    }
    push_span_window(spans, source, plain_start, end, SpanStyle::Str, window_start, window_end);
    proof {
        lemma_piece_concat(
            source@,
            window_start as int,
            window_end as int,
            start as int,
            plain_start as int,
            end as int,
        );
    }
}

/// What the tag `source[start..end]` does to the open elements `st` at
/// `base_depth`, and how it is coloured: its kind and name as read from the
/// text, taken into account by `apply_spec`.
pub open spec fn tag_effect(
    source: Seq<char>,
    start: int,
    end: int,
    st: Seq<(Seq<char>, usize)>,
    base_depth: usize,
) -> (Seq<(Seq<char>, usize)>, XmlTagState) {
    apply_spec(
        st,
        tag_kind_spec(source, start, end),
        match tag_name_spec(source, start, end) {
            Some((a, b)) => Some(source.subrange(a, b)),
            None => None,
        },
        base_depth,
    )
}

/// Takes the tag `source[start..end]` into account without colouring it.
pub fn apply_xml_tag_state(
    source: &[char],
    start: usize,
    end: usize,
    state: &mut XmlPairState,
    base_depth: usize,
) -> (r: XmlTagState)
    requires
        start < end <= source@.len(),
        base_depth + old(state).open_tags().len() < usize::MAX,
    ensures
        (final(state).open_tags(), r) == tag_effect(
            source@,
            start as int,
            end as int,
            old(state).open_tags(),
            base_depth,
        ),
        final(state).open_tags().len() <= old(state).open_tags().len() + 1,
{
    let kind = xml_tag_kind(source, start, end);
    match xml_tag_name_range(source, start, end) {
        Some((a, b)) => {
            let name = vstd::slice::slice_subrange(source, a, b);
            assert(name@ =~= source@.subrange(a as int, b as int));
            state.apply(kind, Some(name), base_depth)
        },
        None => state.apply(kind, None, base_depth),
    }
}

/// A char of tag punctuation.
pub open spec fn is_tag_punctuation(c: char) -> bool {
    c == '<' || c == '>' || c == '/' || c == '=' || c == '?' || c == '!'
}

/// The token of a tag that starts at `index` (before `end`): where it ends,
/// and the style of each of its chars. Whitespace is plain, a quoted value
/// (its quotes escaped or not) is string text, punctuation and attribute
/// names have their own styles, anything else is plain.
pub open spec fn tag_token(source: Seq<char>, index: int, end: int) -> (int, Seq<SpanStyle>) {
    let c = source[index];
    if is_ws(c) {
        let next = run_end(source, index, end, CharClass::Whitespace);
        (next, run(next - index, SpanStyle::Default))
    } else if c == '\\' && end - index >= 2 && (source[index + 1] == '"' || source[index + 1]
        == '\'') {
        let next = escaped_quoted_end_spec(source, index + 2, end, source[index + 1]);
        (next, segment_styles(source, index, next))
    } else if c == '"' || c == '\'' {
        let next = quoted_end_spec(source, index, end, c);
        (next, segment_styles(source, index, next))
    } else if is_tag_punctuation(c) {
        (index + 1, run(1, SpanStyle::Punctuation))
    } else if xml_name_char_spec(c) {
        let next = run_end(source, index, end, CharClass::XmlNameChar);
        (next, run(next - index, SpanStyle::Attr))
    } else {
        (index + 1, run(1, SpanStyle::Default))
    }
}

/// Where the name ends when it starts at `index`; `index` itself otherwise.
pub open spec fn name_end_at(name: Option<(int, int)>, index: int) -> int {
    match name {
        Some((a, b)) => if index == a && a < b {
            b
        } else {
            index
        },
        None => index,
    }
}

/// The style of each char of a tag from `index` up to `end`: its name
/// (at `name`) in `name_style`, its other tokens as `tag_token` colours them.
pub open spec fn tag_styles(
    source: Seq<char>,
    index: int,
    end: int,
    name: Option<(int, int)>,
    name_style: SpanStyle,
) -> Seq<SpanStyle>
    decreases end - index,
{
    if index >= end {
        Seq::empty()
    } else if index < name_end_at(name, index) <= end {
        let b = name_end_at(name, index);
        run(b - index, name_style) + tag_styles(source, b, end, name, name_style)
    } else {
        let (next, styles) = tag_token(source, index, end);
        if index < next <= end {
            styles + tag_styles(source, next, end, name, name_style)
        } else {
            Seq::empty()
        }
    }
}

proof fn lemma_quoted_end_bound(text: Seq<char>, start: int, limit: int, quote: char)
    requires
        start < limit,
    ensures
        start < quoted_end_spec(text, start, limit, quote) <= limit,
    decreases limit - start,
{
    if start + 1 < limit && text[start + 1] != quote {
        lemma_quoted_end_bound(text, start + 1, limit, quote);
    }
}

proof fn lemma_escaped_quoted_end_bound(text: Seq<char>, i: int, limit: int, quote: char)
    requires
        i <= limit,
    ensures
        i <= escaped_quoted_end_spec(text, i, limit, quote) <= limit,
    decreases limit - i,
{
    if i + 2 <= limit && !(text[i] == '\\' && text[i + 1] == quote) {
        lemma_escaped_quoted_end_bound(text, i + 1, limit, quote);
    }
}

/// Every token of a tag moves on and stays within the tag.
pub proof fn lemma_tag_token_bound(source: Seq<char>, index: int, end: int)
    requires
        0 <= index < end <= source.len(),
    ensures
        index < tag_token(source, index, end).0 <= end,
        tag_token(source, index, end).1.len() == tag_token(source, index, end).0 - index,
{
    let c = source[index];
    if is_ws(c) {
        super::lexer::lemma_run_end(source, index, end, CharClass::Whitespace);
    } else if c == '\\' && end - index >= 2 && (source[index + 1] == '"' || source[index + 1]
        == '\'') {
        lemma_escaped_quoted_end_bound(source, index + 2, end, source[index + 1]);
        let next = escaped_quoted_end_spec(source, index + 2, end, source[index + 1]);
        lemma_segment_styles_len(source, index, next);
    } else if c == '"' || c == '\'' {
        lemma_quoted_end_bound(source, index, end, c);
        lemma_segment_styles_len(source, index, quoted_end_spec(source, index, end, c));
    } else if is_tag_punctuation(c) {
    } else if xml_name_char_spec(c) {
        super::lexer::lemma_run_end(source, index, end, CharClass::XmlNameChar);
    }
}

/// One style for each char of the tag from `index` to `end`.
pub proof fn lemma_tag_styles_len(
    source: Seq<char>,
    index: int,
    end: int,
    name: Option<(int, int)>,
    name_style: SpanStyle,
)
    requires
        0 <= index <= end <= source.len(),
    ensures
        tag_styles(source, index, end, name, name_style).len() == end - index,
    decreases end - index,
{
    if index < end {
        if index < name_end_at(name, index) <= end {
            lemma_tag_styles_len(source, name_end_at(name, index), end, name, name_style);
        } else {
            lemma_tag_token_bound(source, index, end);
            lemma_tag_styles_len(source, tag_token(source, index, end).0, end, name, name_style);
        }
    }
}

/// How a tag's name is coloured: by its depth, or as an error when it
/// closes nothing.
pub open spec fn name_style(tag: XmlTagState) -> SpanStyle {
    if tag.matched {
        SpanStyle::Depth(tag.depth)
    } else {
        SpanStyle::Error
    }
}

/// The style of each char of the tag `source[start..end]` taken into account
/// with the open elements `st` at `base_depth`.
#[verifier::opaque]
pub open spec fn whole_tag_styles(
    source: Seq<char>,
    start: int,
    end: int,
    st: Seq<(Seq<char>, usize)>,
    base_depth: usize,
) -> Seq<SpanStyle> {
    tag_styles(
        source,
        start,
        end,
        tag_name_spec(source, start, end),
        name_style(tag_effect(source, start, end, st, base_depth).1),
    )
}

/// Colours the tag `source[start..end]`: its name by depth (or as an error
/// when it closes nothing), attributes, quoted values, punctuation.
#[verifier::rlimit(60)]
pub fn highlight_xml_tag_window(
    source: &[char],
    start: usize,
    end: usize,
    state: &mut XmlPairState,
    base_depth: usize,
    window_start: usize,
    window_end: usize,
    spans: &mut Vec<StyledText>,
)
    requires
        valid_window(source@, window_start as int, window_end as int),
        start < end <= source@.len(),
        base_depth + old(state).open_tags().len() < usize::MAX,
    ensures
        spans_tidy(old(spans)@) ==> spans_tidy(final(spans)@),
        final(state).open_tags() == tag_effect(
            source@,
            start as int,
            end as int,
            old(state).open_tags(),
            base_depth,
        ).0,
        final(state).open_tags().len() <= old(state).open_tags().len() + 1,
        spans_text(final(spans)@) == spans_text(old(spans)@) + piece(
            source@,
            window_start as int,
            window_end as int,
            start as int,
            end as int,
        ),
        spans_styles(final(spans)@) == spans_styles(old(spans)@) + in_window(
            whole_tag_styles(source@, start as int, end as int, old(state).open_tags(), base_depth),
            start as int,
            window_start as int,
            window_end as int,
        ),
{
    let ghost st0 = state.open_tags();
    let kind = xml_tag_kind(source, start, end);
    let name_range = xml_tag_name_range(source, start, end);
    let tag_state = match name_range {
        Some((a, b)) => {
            let name = vstd::slice::slice_subrange(source, a, b);
            assert(name@ =~= source@.subrange(a as int, b as int));
            state.apply(kind, Some(name), base_depth)
        },
        None => state.apply(kind, None, base_depth),
    };
    let ghost name_spec = tag_name_spec(source@, start as int, end as int);
    let ghost nstyle = name_style(tag_state);
    proof {
        assert(nstyle == name_style(tag_effect(source@, start as int, end as int, st0, base_depth).1));
    }
    let ghost total = tag_styles(source@, start as int, end as int, name_spec, nstyle);
    let ghost mut done: Seq<SpanStyle> = Seq::empty();
    let mut index = start;
    proof {
        assert(done + total =~= total);
        lemma_in_window_empty(start as int, window_start as int, window_end as int);
        assert(spans_styles(spans@) =~= spans_styles(old(spans)@) + in_window(
            done,
            start as int,
            window_start as int,
            window_end as int,
        ));
    }
    while index < end
        invariant
        spans_tidy(old(spans)@) ==> spans_tidy(spans@),
            valid_window(source@, window_start as int, window_end as int),
            start <= index <= end <= source@.len(),
            name_range matches Some((a, b)) ==> start < a < b <= end,
            name_range is None <==> name_spec is None,
            name_range matches Some((a, b)) ==> name_spec == Some((a as int, b as int)),
            total == tag_styles(source@, start as int, end as int, name_spec, nstyle),
            nstyle == (if tag_state.matched {
                SpanStyle::Depth(tag_state.depth)
            } else {
                SpanStyle::Error
            }),
            done.len() == index - start,
            done + tag_styles(source@, index as int, end as int, name_spec, nstyle) == total,
            spans_styles(spans@) == spans_styles(old(spans)@) + in_window(
                done,
                start as int,
                window_start as int,
                window_end as int,
            ),
            spans_text(spans@) == spans_text(old(spans)@) + piece(
                source@,
                window_start as int,
                window_end as int,
                start as int,
                index as int,
            ),
        decreases end - index,
    {
        let ghost before_styles = spans_styles(spans@);
        let next: usize;
        if let Some((name_start, name_end)) = name_range {
            if index == name_start {
                let style = if tag_state.matched {
                    SpanStyle::Depth(tag_state.depth)
                } else {
                    SpanStyle::Error
                };
                push_span_window(
                    spans,
                    source,
                    name_start,
                    name_end,
                    style,
                    window_start,
                    window_end,
                );
                proof {
                    lemma_piece_concat(
                        source@,
                        window_start as int,
                        window_end as int,
                        start as int,
                        index as int,
                        name_end as int,
                    );
                    let name_run = run(name_end - name_start, nstyle);
                    assert(tag_styles(source@, index as int, end as int, name_spec, nstyle)
                        == name_run + tag_styles(source@, name_end as int, end as int, name_spec, nstyle));
                    lemma_in_window_concat(done, name_run, start as int, window_start as int, window_end as int);
                    assert(done + name_run + tag_styles(source@, name_end as int, end as int, name_spec, nstyle)
                        =~= done + (name_run + tag_styles(source@, name_end as int, end as int, name_spec, nstyle)));
                    done = done + name_run;
                }
                index = name_end;
                continue;
            }
        }
        let c = source[index];
        if is_whitespace(c) {
            next = take_while(source, index, end, CharClass::Whitespace);
            proof {
                super::lexer::lemma_run_end(source@, index as int, end as int, CharClass::Whitespace);
            }
            push_span_window(spans, source, index, next, SpanStyle::Default, window_start, window_end);
        } else if c == '\\' && end - index >= 2 && (source[index + 1] == '"' || source[index + 1]
            == '\'') {
            let quote = source[index + 1];
            next = escaped_quoted_end(source, index, end, quote);
            highlight_string_segment_window(source, index, next, window_start, window_end, spans);
            proof {
                lemma_segment_styles_len(source@, index as int, next as int);
            }
        } else if c == '"' || c == '\'' {
            next = quoted_end(source, index, end, c);
            highlight_string_segment_window(source, index, next, window_start, window_end, spans);
            proof {
                lemma_segment_styles_len(source@, index as int, next as int);
            }
        } else if c == '<' || c == '>' || c == '/' || c == '=' || c == '?' || c == '!' {
            next = index + 1;
            push_span_window(
                spans,
                source,
                index,
                next,
                SpanStyle::Punctuation,
                window_start,
                window_end,
            );
        } else if is_xml_name_char(c) {
            next = take_while(source, index, end, CharClass::XmlNameChar);
            proof {
                super::lexer::lemma_run_end(source@, index as int, end as int, CharClass::XmlNameChar);
            }
            push_span_window(spans, source, index, next, SpanStyle::Attr, window_start, window_end);
        } else {
            next = index + 1;
            push_span_window(spans, source, index, next, SpanStyle::Default, window_start, window_end);
        }
        proof {
            lemma_piece_concat(
                source@,
                window_start as int,
                window_end as int,
                start as int,
                index as int,
                next as int,
            );
            let tok = tag_token(source@, index as int, end as int).1;
            assert(tag_token(source@, index as int, end as int).0 == next);
            assert(tok.len() == next - index);
            assert(spans_styles(spans@) == before_styles + in_window(
                tok,
                index as int,
                window_start as int,
                window_end as int,
            ));
            lemma_in_window_concat(done, tok, start as int, window_start as int, window_end as int);
            assert(next > index);
            assert(tag_styles(source@, index as int, end as int, name_spec, nstyle) == tok
                + tag_styles(source@, next as int, end as int, name_spec, nstyle));
            assert(done + tok + tag_styles(source@, next as int, end as int, name_spec, nstyle)
                =~= done + (tok + tag_styles(source@, next as int, end as int, name_spec, nstyle)));
            done = done + tok;
        }
        index = next;
    }
    proof {
        assert(tag_styles(source@, end as int, end as int, name_spec, nstyle) =~= Seq::<SpanStyle>::empty());
        assert(done =~= total);
        reveal(whole_tag_styles);
    }
}

} // verus!

verus! {

/// Where a tag that opens with `<` at `index` ends: just past the next `>`
/// before `stop`, else at `stop`.
pub open spec fn embedded_tag_end(source: Seq<char>, index: int, stop: int) -> int {
    let gt = find_spec(source, index, stop, '>');
    if gt < stop {
        gt + 1
    } else {
        stop
    }
}

/// The first index in `[from, limit)` holding `c`, or `limit`.
pub open spec fn find_spec(source: Seq<char>, from: int, limit: int, c: char) -> int
    decreases limit - from,
{
    if from >= limit {
        limit
    } else if source[from] == c {
        from
    } else {
        find_spec(source, from + 1, limit, c)
    }
}

pub proof fn lemma_find_bound(source: Seq<char>, from: int, limit: int, c: char)
    requires
        from <= limit,
    ensures
        from <= find_spec(source, from, limit, c) <= limit,
    decreases limit - from,
{
    if from < limit && source[from] != c {
        lemma_find_bound(source, from + 1, limit, c);
    }
}

/// Where `c` next occurs in `source[from..limit]`, or `limit`.
pub fn find_char(source: &[char], from: usize, limit: usize, c: char) -> (i: usize)
    requires
        from <= limit <= source@.len(),
    ensures
        i == find_spec(source@, from as int, limit as int, c),
        from <= i <= limit,
{
    let mut i = from;
    while i < limit
        invariant
            from <= i <= limit <= source@.len(),
            find_spec(source@, from as int, limit as int, c) == find_spec(
                source@,
                i as int,
                limit as int,
                c,
            ),
        decreases limit - i,
    {
        if source[i] == c {
            return i;
        }
        i += 1;
    }
    i
}

/// The style of each char of XML text `source[index..end]` read up to
/// `limit`, with the open elements `st` at `base_depth`: tags coloured as
/// tags (pairing up as they go), the text between them as string text with
/// its escapes marked, and a `<` that starts no tag as text.
#[verifier::opaque]
pub open spec fn xml_inline_scan(
    source: Seq<char>,
    index: int,
    end: int,
    limit: int,
    base_depth: usize,
    st: Seq<(Seq<char>, usize)>,
) -> Seq<SpanStyle>
    decreases end - index,
{
    if index < 0 || index >= end || index >= limit || end > source.len() {
        Seq::empty()
    } else if source[index] == '<' {
        let next = embedded_tag_end(source, index, end);
        if !(index < next <= end) {
            Seq::empty()
        } else if looks_like_tag_spec(source, index, next) {
            whole_tag_styles(source, index, next, st, base_depth) + xml_inline_scan(
                source,
                next,
                end,
                limit,
                base_depth,
                tag_effect(source, index, next, st, base_depth).0,
            )
        } else {
            segment_styles(source, index, next) + xml_inline_scan(
                source,
                next,
                end,
                limit,
                base_depth,
                st,
            )
        }
    } else {
        let next = find_spec(source, index, end, '<');
        if index < next <= end {
            segment_styles(source, index, next) + xml_inline_scan(
                source,
                next,
                end,
                limit,
                base_depth,
                st,
            )
        } else {
            Seq::empty()
        }
    }
}

/// Where an XML reading of `source[start..end]` resumes for a window from
/// `window_start`: at the last checkpoint before the window when it lies
/// within the text, else at `start` with nothing open.
pub open spec fn inline_resume(
    cps: Seq<super::checkpoints::XmlHighlightCheckpoint>,
    window_start: usize,
    start: int,
    end: int,
) -> (int, Seq<(Seq<char>, usize)>) {
    let rp = super::checkpoints::resume_point(cps, window_start);
    if rp.1 is Some && rp.0 <= end {
        (rp.0, rp.1->0)
    } else {
        (start, Seq::empty())
    }
}

/// Colours `source[start..end]` as XML (tags, and text between them),
/// through the window, resuming from a remembered state where one lies
/// before the window and remembering states as it goes.
pub fn highlight_inline_xml_window_indexed(
    source: &[char],
    start: usize,
    end: usize,
    base_depth: usize,
    window_start: usize,
    window_end: usize,
    spans: &mut Vec<StyledText>,
    checkpoints: &mut super::checkpoints::HighlightCheckpointIndex,
)
    requires
        valid_window(source@, window_start as int, window_end as int),
        start <= window_start,
        start <= end <= source@.len(),
        source@.len() <= usize::MAX / 8,
        base_depth <= source@.len(),
        old(checkpoints).wf(),
    ensures
        spans_tidy(old(spans)@) ==> spans_tidy(final(spans)@),
        final(checkpoints).wf(),
        spans_text(final(spans)@) == spans_text(old(spans)@) + piece(
            source@,
            window_start as int,
            window_end as int,
            start as int,
            end as int,
        ),
        ({
            let (first, st) = inline_resume(
                old(checkpoints).xml_lines@,
                window_start,
                start as int,
                end as int,
            );
            spans_styles(final(spans)@) == spans_styles(old(spans)@) + in_window(
                xml_inline_scan(source@, first, end as int, window_end as int, base_depth, st),
                first,
                window_start as int,
                window_end as int,
            )
        }),
{
    let mut index = start;
    let mut state = XmlPairState::new();
    let found = checkpoints.xml_line_before(window_start);
    proof {
        super::checkpoints::lemma_found_is_resume_point(checkpoints.xml_lines@, window_start, found);
        assert(state.open_tags() =~= Seq::<(Seq<char>, usize)>::empty());
    }
    match found {
        Some(checkpoint) => {
            if checkpoint.at <= end {
                index = checkpoint.at;
                state = checkpoint.state;
            }
        },
        None => {},
    }
    let ghost first = index as int;
    let ghost total = xml_inline_scan(source@, first, end as int, window_end as int, base_depth, state.open_tags());
    let ghost mut done: Seq<SpanStyle> = Seq::empty();
    proof {
        lemma_piece_before(source@, window_start as int, window_end as int, start as int, window_start as int);
        assert(spans_text(spans@) =~= spans_text(old(spans)@) + piece(
            source@,
            window_start as int,
            window_end as int,
            first,
            index as int,
        ));
        lemma_in_window_empty(first, window_start as int, window_end as int);
        assert(spans_styles(spans@) =~= spans_styles(old(spans)@) + in_window(done, first, window_start as int, window_end as int));
        assert(done + total =~= total);
    }
    while index < end && index < window_end
        invariant
        spans_tidy(old(spans)@) ==> spans_tidy(spans@),
            valid_window(source@, window_start as int, window_end as int),
            first <= window_start,
            start <= window_start,
            first <= index <= end <= source@.len() <= usize::MAX / 8,
            base_depth <= source@.len(),
            state.open_tags().len() <= index,
            checkpoints.wf(),
            spans_text(spans@) == spans_text(old(spans)@) + piece(
                source@,
                window_start as int,
                window_end as int,
                first,
                index as int,
            ),
            done.len() == index - first,
            done + xml_inline_scan(source@, index as int, end as int, window_end as int, base_depth, state.open_tags()) == total,
            spans_styles(spans@) == spans_styles(old(spans)@) + in_window(done, first, window_start as int, window_end as int),
        decreases end - index,
    {
        checkpoints.remember_xml_line(index, &state);
        let ghost st_before = state.open_tags();
        let ghost before = spans_styles(spans@);
        let ghost token: Seq<SpanStyle>;
        let next: usize;
        if source[index] == '<' {
            let gt = find_char(source, index, end, '>');
            next = if gt < end {
                gt + 1
            } else {
                end
            };
            proof {
                lemma_find_bound(source@, index as int, end as int, '>');
                assert(next == embedded_tag_end(source@, index as int, end as int));
            }
            if looks_like_xml_tag(source, index, next) {
                proof {
                    token = whole_tag_styles(source@, index as int, next as int, st_before, base_depth);
                    lemma_tag_styles_len(
                        source@,
                        index as int,
                        next as int,
                        tag_name_spec(source@, index as int, next as int),
                        name_style(tag_effect(source@, index as int, next as int, st_before, base_depth).1),
                    );
                    assert(token.len() == next - index) by {
                        reveal(whole_tag_styles);
                    }
                }
                if next <= window_start {
                    apply_xml_tag_state(source, index, next, &mut state, base_depth);
                    proof {
                        lemma_piece_before(source@, window_start as int, window_end as int, index as int, next as int);
                        assert(spans_text(spans@) =~= spans_text(spans@) + Seq::<char>::empty());
                        lemma_in_window_before(token, index as int, window_start as int, window_end as int);
                        assert(spans_styles(spans@) =~= before + in_window(token, index as int, window_start as int, window_end as int));
                    }
                } else {
                    highlight_xml_tag_window(
                        source,
                        index,
                        next,
                        &mut state,
                        base_depth,
                        window_start,
                        window_end,
                        spans,
                    );
                }
                proof {
                    assert(xml_inline_scan(source@, index as int, end as int, window_end as int, base_depth, st_before)
                        == token + xml_inline_scan(source@, next as int, end as int, window_end as int, base_depth, state.open_tags())) by {
                        reveal_with_fuel(xml_inline_scan, 1);
                    }
                }
            } else {
                proof {
                    token = segment_styles(source@, index as int, next as int);
                    lemma_segment_styles_len(source@, index as int, next as int);
                }
                if next > window_start {
                    highlight_string_segment_window(source, index, next, window_start, window_end, spans);
                } else {
                    proof {
                        lemma_piece_before(source@, window_start as int, window_end as int, index as int, next as int);
                        assert(spans_text(spans@) =~= spans_text(spans@) + Seq::<char>::empty());
                        lemma_in_window_before(token, index as int, window_start as int, window_end as int);
                        assert(spans_styles(spans@) =~= before + in_window(token, index as int, window_start as int, window_end as int));
                    }
                }
                proof {
                    assert(xml_inline_scan(source@, index as int, end as int, window_end as int, base_depth, st_before)
                        == token + xml_inline_scan(source@, next as int, end as int, window_end as int, base_depth, state.open_tags())) by {
                        reveal_with_fuel(xml_inline_scan, 1);
                    }
                }
            }
        } else {
            next = find_char(source, index, end, '<');
            proof {
                lemma_find_bound(source@, index + 1, end as int, '<');
                token = segment_styles(source@, index as int, next as int);
                lemma_segment_styles_len(source@, index as int, next as int);
            }
            if next > window_start {
                highlight_string_segment_window(source, index, next, window_start, window_end, spans);
            } else {
                proof {
                    lemma_piece_before(source@, window_start as int, window_end as int, index as int, next as int);
                    assert(spans_text(spans@) =~= spans_text(spans@) + Seq::<char>::empty());
                    lemma_in_window_before(token, index as int, window_start as int, window_end as int);
                    assert(spans_styles(spans@) =~= before + in_window(token, index as int, window_start as int, window_end as int));
                }
            }
            assert(next > index);
            proof {
                assert(xml_inline_scan(source@, index as int, end as int, window_end as int, base_depth, st_before)
                    == token + xml_inline_scan(source@, next as int, end as int, window_end as int, base_depth, state.open_tags())) by {
                    reveal_with_fuel(xml_inline_scan, 1);
                }
            }
        }
        proof {
            lemma_piece_concat(
                source@,
                window_start as int,
                window_end as int,
                first,
                index as int,
                next as int,
            );
            lemma_scan_step(
                first,
                index as int,
                next as int,
                window_start as int,
                window_end as int,
                done,
                token,
                xml_inline_scan(source@, index as int, end as int, window_end as int, base_depth, st_before),
                xml_inline_scan(source@, next as int, end as int, window_end as int, base_depth, state.open_tags()),
                total,
                spans_styles(old(spans)@),
                before,
                spans_styles(spans@),
            );
            done = done + token;
        }
        index = next;
    }
    proof {
        assert(piece(source@, window_start as int, window_end as int, first, index as int) =~= piece(
            source@,
            window_start as int,
            window_end as int,
            start as int,
            end as int,
        ));
        assert(xml_inline_scan(source@, index as int, end as int, window_end as int, base_depth, state.open_tags())
            == Seq::<SpanStyle>::empty()) by {
            reveal_with_fuel(xml_inline_scan, 1);
        }
        assert(done =~= total);
    }
}

/// Colours an XML line through the window, its depths counted from the
/// line's indent.
pub fn highlight_xml_line_window(
    source: &[char],
    window_start: usize,
    window_end: usize,
    checkpoints: &mut super::checkpoints::HighlightCheckpointIndex,
) -> (spans: Vec<StyledText>)
    requires
        valid_window(source@, window_start as int, window_end as int),
        source@.len() <= usize::MAX / 8,
        old(checkpoints).wf(),
    ensures
        final(checkpoints).wf(),
        spans_text(spans@) == source@.subrange(window_start as int, window_end as int),
        spans_tidy(spans@),
        ({
            let (first, st) = inline_resume(
                old(checkpoints).xml_lines@,
                window_start,
                0,
                source@.len() as int,
            );
            spans_styles(spans@) == in_window(
                xml_inline_scan(
                    source@,
                    first,
                    source@.len() as int,
                    window_end as int,
                    (indent_weight(source@, 0) / 2) as usize,
                    st,
                ),
                first,
                window_start as int,
                window_end as int,
            )
        }),
{
    let base_depth = xml_depth_from_indent(source);
    let mut spans: Vec<StyledText> = Vec::new();
    proof {
        super::lemma_spans_styles_empty();
    }
    highlight_inline_xml_window_indexed(
        source,
        0,
        source.len(),
        base_depth,
        window_start,
        window_end,
        &mut spans,
        checkpoints,
    );
    assert(spans_text(Seq::<StyledText>::empty()) =~= Seq::<char>::empty());
    assert(piece(source@, window_start as int, window_end as int, 0, source@.len() as int) =~= source@.subrange(window_start as int, window_end as int));
    assert(spans_styles(spans@) =~= in_window(
        xml_inline_scan(
            source@,
            inline_resume(old(checkpoints).xml_lines@, window_start, 0, source@.len() as int).0,
            source@.len() as int,
            window_end as int,
            base_depth,
            inline_resume(old(checkpoints).xml_lines@, window_start, 0, source@.len() as int).1,
        ),
        inline_resume(old(checkpoints).xml_lines@, window_start, 0, source@.len() as int).0,
        window_start as int,
        window_end as int,
    ));
    spans
}

} // verus!
