//! The small scanners the highlighters are built from.
use vstd::prelude::*;

use crate::text::{is_whitespace, is_ws};

use super::SpanStyle;

verus! {

/// An ASCII digit.
pub open spec fn is_ascii_digit(c: char) -> bool {
    '0' <= c <= '9'
}

/// An ASCII letter or digit.
pub open spec fn is_ascii_alnum(c: char) -> bool {
    ('0' <= c <= '9') || ('a' <= c <= 'z') || ('A' <= c <= 'Z')
}

/// An ASCII hexadecimal digit.
pub open spec fn is_hex(c: char) -> bool {
    ('0' <= c <= '9') || ('a' <= c <= 'f') || ('A' <= c <= 'F')
}

/// A char that can continue a JSON number.
pub open spec fn number_char_spec(c: char) -> bool {
    is_ascii_digit(c) || c == '-' || c == '+' || c == '.' || c == 'e' || c == 'E'
}

/// A char of an XML name.
pub open spec fn xml_name_char_spec(c: char) -> bool {
    is_ascii_alnum(c) || c == '_' || c == '-' || c == ':' || c == '.'
}

/// Whether `c` can continue a JSON number.
pub fn is_json_number_char(c: char) -> (r: bool)
    ensures
        r == number_char_spec(c),
{
    ('0' <= c && c <= '9') || c == '-' || c == '+' || c == '.' || c == 'e' || c == 'E'
}

/// Whether `c` belongs in an XML name.
pub fn is_xml_name_char(c: char) -> (r: bool)
    ensures
        r == xml_name_char_spec(c),
{
    ('0' <= c && c <= '9') || ('a' <= c && c <= 'z') || ('A' <= c && c <= 'Z') || c == '_' || c
        == '-' || c == ':' || c == '.'
}

/// The classes of chars that a run is taken of.
#[derive(Debug, Clone, Copy, PartialEq, Eq, Structural)]
pub enum CharClass {
    Whitespace,
    NumberChar,
    XmlNameChar,
}

/// Whether `c` is of `class`.
pub open spec fn in_class(class: CharClass, c: char) -> bool {
    match class {
        CharClass::Whitespace => is_ws(c),
        CharClass::NumberChar => number_char_spec(c),
        CharClass::XmlNameChar => xml_name_char_spec(c),
    }
}

/// The end of the run of `class` chars that starts at `start`, within `limit`.
pub open spec fn run_end(text: Seq<char>, start: int, limit: int, class: CharClass) -> int
    decreases limit - start,
{
    if start >= limit || start >= text.len() || start < 0 {
        start
    } else if in_class(class, text[start]) {
        run_end(text, start + 1, limit, class)
    } else {
        start
    }
}

pub proof fn lemma_run_end(text: Seq<char>, start: int, limit: int, class: CharClass)
    requires
        0 <= start <= limit <= text.len(),
    ensures
        start <= run_end(text, start, limit, class) <= limit,
        forall|i: int|
            start <= i < run_end(text, start, limit, class) ==> in_class(class, #[trigger] text[i]),
        run_end(text, start, limit, class) < limit ==> !in_class(
            class,
            text[run_end(text, start, limit, class)],
        ),
    decreases limit - start,
{
    if start < limit && in_class(class, text[start]) {
        lemma_run_end(text, start + 1, limit, class);
    }
}

/// Where the run of `class` chars from `start` ends, within `limit`.
pub fn take_while(text: &[char], start: usize, limit: usize, class: CharClass) -> (end: usize)
    requires
        start <= limit <= text@.len(),
    ensures
        end == run_end(text@, start as int, limit as int, class),
        start <= end <= limit,
{
    proof {
        lemma_run_end(text@, start as int, limit as int, class);
    }
    let mut end = start;
    while end < limit
        invariant
            start <= end <= limit <= text@.len(),
            run_end(text@, start as int, limit as int, class) == run_end(
                text@,
                end as int,
                limit as int,
                class,
            ),
        ensures
            start <= end <= limit,
            end == run_end(text@, start as int, limit as int, class),
        decreases limit - end,
    {
        let c = text[end];
        let fits = match class {
            CharClass::Whitespace => is_whitespace(c),
            CharClass::NumberChar => is_json_number_char(c),
            CharClass::XmlNameChar => is_xml_name_char(c),
        };
        if !fits {
            break;
        }
        end += 1;
    }
    end
}

/// Where an escape such as `\n` or `\u00e9` that starts at `start` ends: two
/// chars, or six for `\u` and four hex digits; `None` when no backslash
/// starts there or nothing follows it.
pub open spec fn escape_end_spec(text: Seq<char>, start: int) -> Option<int> {
    if start < 0 || start + 1 >= text.len() || text[start] != '\\' {
        None
    } else if text[start + 1] == 'u' && start + 6 <= text.len() && is_hex(text[start + 2])
        && is_hex(text[start + 3]) && is_hex(text[start + 4]) && is_hex(text[start + 5]) {
        Some(start + 6)
    } else {
        Some(start + 2)
    }
}

fn is_hex_char(c: char) -> (r: bool)
    ensures
        r == is_hex(c),
{
    ('0' <= c && c <= '9') || ('a' <= c && c <= 'f') || ('A' <= c && c <= 'F')
}

/// The end of the escape sequence at `start`, if one starts there.
pub fn escape_token_end(text: &[char], start: usize) -> (end: Option<usize>)
    ensures
        match escape_end_spec(text@, start as int) {
            Some(e) => end == Some(e as usize),
            None => end is None,
        },
        end matches Some(e) ==> start < e <= text@.len() && e == escape_end_spec(
            text@,
            start as int,
        )->0,
{
    let n = text.len();
    if start >= n || n - start < 2 || text[start] != '\\' {
        return None;
    }
    if text[start + 1] == 'u' && n - start >= 6 && is_hex_char(text[start + 2]) && is_hex_char(
        text[start + 3],
    ) && is_hex_char(text[start + 4]) && is_hex_char(text[start + 5]) {
        return Some(start + 6);
    }
    Some(start + 2)
}

/// Where a JSON string that opens at `start` closes, looking no further than
/// `limit`: just past its closing quote (and `true`), else `limit` clamped to
/// the text (and `false`).
pub open spec fn string_end_spec(text: Seq<char>, start: int, limit: int) -> (int, bool) {
    if start >= text.len() {
        (text.len() as int, false)
    } else {
        let stop = if limit < text.len() {
            limit
        } else {
            text.len() as int
        };
        let from = if start + 1 < stop {
            start + 1
        } else {
            stop
        };
        match crate::viewer::input::points::closing_quote(text.take(stop), from, false) {
            Some(q) => (q + 1, true),
            None => (stop, false),
        }
    }
}

/// Where the JSON string opening at `start` ends, within `limit`.
pub fn json_string_end_until(text: &[char], start: usize, limit: usize) -> (r: (usize, bool))
    ensures
        r.0 as int == string_end_spec(text@, start as int, limit as int).0,
        r.1 == string_end_spec(text@, start as int, limit as int).1,
        r.1 ==> start < r.0 <= text@.len(),
{
    let n = text.len();
    if start >= n {
        return (n, false);
    }
    let stop = if limit < n {
        limit
    } else {
        n
    };
    let ghost head = text@.take(stop as int);
    let mut escaped = false;
    let mut index = if start + 1 < stop {
        start + 1
    } else {
        stop
    };
    let ghost from = index as int;
    while index < stop
        invariant
            index <= stop <= n == text@.len(),
            start < n,
            stop == (if limit < n {
                limit
            } else {
                n
            }),
            from == (if start + 1 < stop {
                start + 1
            } else {
                stop as int
            }),
            head == text@.take(stop as int),
            from <= index,
            crate::viewer::input::points::closing_quote(head, from, false)
                == crate::viewer::input::points::closing_quote(head, index as int, escaped),
        decreases stop - index,
    {
        let c = text[index];
        assert(head[index as int] == c);
        if escaped {
            escaped = false;
        } else if c == '\\' {
            escaped = true;
        } else if c == '"' {
            return (index + 1, true);
        }
        index += 1;
    }
    (stop, false)
}

/// The last char before `i` that is not whitespace, if any.
pub open spec fn last_non_ws_before(text: Seq<char>, i: int) -> Option<char>
    decreases i,
{
    if i <= 0 || i > text.len() {
        None
    } else if !is_ws(text[i - 1]) {
        Some(text[i - 1])
    } else {
        last_non_ws_before(text, i - 1)
    }
}

/// A quote at `quote_start` opens a value: what comes before it is `:` or
/// `[`.
pub open spec fn quote_starts_value_spec(text: Seq<char>, quote_start: int) -> bool {
    match last_non_ws_before(text, quote_start) {
        Some(c) => c == ':' || c == '[',
        None => false,
    }
}

/// Whether the quote at `quote_start` opens a value rather than a key.
pub fn json_quote_starts_value(text: &[char], quote_start: usize) -> (r: bool)
    requires
        quote_start <= text@.len(),
    ensures
        r == quote_starts_value_spec(text@, quote_start as int),
{
    let mut i = quote_start;
    while i > 0
        invariant
            i <= quote_start <= text@.len(),
            last_non_ws_before(text@, quote_start as int) == last_non_ws_before(text@, i as int),
        decreases i,
    {
        let c = text[i - 1];
        if !is_whitespace(c) {
            return c == ':' || c == '[';
        }
        i -= 1;
    }
    false
}

/// What follows `end`, past whitespace, is a colon.
pub open spec fn string_is_key_spec(text: Seq<char>, end: int) -> bool {
    let k = crate::viewer::input::points::skip_ws(text, end);
    k < text.len() && text[k] == ':'
}

/// Whether the string ending at `end` is a key: a colon follows it.
pub fn json_string_is_key(text: &[char], end: usize) -> (r: bool)
    requires
        end <= text@.len(),
    ensures
        r == string_is_key_spec(text@, end as int),
{
    let k = crate::viewer::input::points::skip_ws_from(text, end);
    k < text.len() && text[k] == ':'
}

/// `word` is at `start` and no letter, digit or `_` follows it.
pub open spec fn keyword_at(text: Seq<char>, start: int, word: Seq<char>) -> bool {
    &&& start + word.len() <= text.len()
    &&& text.subrange(start, start + word.len()) == word
    &&& (start + word.len() == text.len() || !(is_ascii_alnum(text[start + word.len()])
        || text[start + word.len()] == '_'))
}

/// The JSON keyword at `start` and its style: `true` or `false` as booleans,
/// `null` as null.
pub open spec fn keyword_spec(text: Seq<char>, start: int) -> Option<(int, SpanStyle)> {
    if keyword_at(text, start, seq!['t', 'r', 'u', 'e']) {
        Some((4, SpanStyle::Bool))
    } else if keyword_at(text, start, seq!['f', 'a', 'l', 's', 'e']) {
        Some((5, SpanStyle::Bool))
    } else if keyword_at(text, start, seq!['n', 'u', 'l', 'l']) {
        Some((4, SpanStyle::Null))
    } else {
        None
    }
}

/// `true` and `false` standing as whole words are coloured alike, as
/// booleans, and `null` as null; each keyword covers exactly its own chars.
pub proof fn law_keyword_styles(text: Seq<char>, start: int)
    requires
        0 <= start,
    ensures
        keyword_at(text, start, seq!['t', 'r', 'u', 'e']) ==> keyword_spec(text, start) == Some(
            (4int, SpanStyle::Bool),
        ),
        keyword_at(text, start, seq!['f', 'a', 'l', 's', 'e']) ==> keyword_spec(text, start)
            == Some((5int, SpanStyle::Bool)),
        keyword_at(text, start, seq!['n', 'u', 'l', 'l']) ==> keyword_spec(text, start) == Some(
            (4int, SpanStyle::Null),
        ),
{
    if start < text.len() {
        if keyword_at(text, start, seq!['f', 'a', 'l', 's', 'e']) {
            assert(text.subrange(start, start + 5)[0] == text[start]);
            assert(text[start] == 'f');
            assert(text.subrange(start, start + 4)[0] == text[start]);
        }
        if keyword_at(text, start, seq!['n', 'u', 'l', 'l']) {
            assert(text.subrange(start, start + 4)[0] == text[start]);
            assert(text[start] == 'n');
            if start + 5 <= text.len() {
                assert(text.subrange(start, start + 5)[0] == text[start]);
            }
        }
    }
}

fn keyword_at_exec(text: &[char], start: usize, word: &[char]) -> (r: bool)
    requires
        start <= text@.len(),
    ensures
        r == keyword_at(text@, start as int, word@),
{
    let n = text.len();
    if n - start < word.len() {
        return false;
    }
    let mut i: usize = 0;
    while i < word.len()
        invariant
            i <= word@.len(),
            start + word@.len() <= n == text@.len(),
            forall|j: int| 0 <= j < i ==> text@[start + j] == word@[j],
        decreases word@.len() - i,
    {
        if text[start + i] != word[i] {
            assert(text@.subrange(start as int, start + word@.len())[i as int] != word@[i as int]);
            return false;
        }
        i += 1;
    }
    assert(text@.subrange(start as int, start + word@.len()) =~= word@);
    keyword_boundary(text, start + word.len())
}

/// No letter, digit or `_` follows position `end` of `text`: a word that
/// ends there is a whole word.
pub fn keyword_boundary(text: &[char], end: usize) -> (r: bool)
    requires
        end <= text@.len(),
    ensures
        r == (end == text@.len() || !(is_ascii_alnum(text@[end as int]) || text@[end as int] == '_')),
{
    if end == text.len() {
        return true;
    }
    let c = text[end];
    !(('0' <= c && c <= '9') || ('a' <= c && c <= 'z') || ('A' <= c && c <= 'Z') || c == '_')
}

/// The JSON keyword at `start`, if one is there: its length and style.
pub fn json_keyword(text: &[char], start: usize) -> (r: Option<(usize, SpanStyle)>)
    requires
        start <= text@.len(),
    ensures
        match keyword_spec(text@, start as int) {
            Some((n, style)) => r == Some((n as usize, style)),
            None => r is None,
        },
{
    let t = ['t', 'r', 'u', 'e'];
    let f = ['f', 'a', 'l', 's', 'e'];
    let z = ['n', 'u', 'l', 'l'];
    assert(t@ =~= seq!['t', 'r', 'u', 'e']);
    assert(f@ =~= seq!['f', 'a', 'l', 's', 'e']);
    assert(z@ =~= seq!['n', 'u', 'l', 'l']);
    if keyword_at_exec(text, start, t.as_slice()) {
        return Some((4, SpanStyle::Bool));
    }
    if keyword_at_exec(text, start, f.as_slice()) {
        return Some((5, SpanStyle::Bool));
    }
    if keyword_at_exec(text, start, z.as_slice()) {
        return Some((4, SpanStyle::Null));
    }
    None
}

/// Just past the first `quote` after `start`, within `limit`; else `limit`.
pub open spec fn quoted_end_spec(text: Seq<char>, start: int, limit: int, quote: char) -> int
    decreases limit - start,
{
    if start + 1 >= limit {
        limit
    } else if text[start + 1] == quote {
        start + 2
    } else {
        quoted_end_spec(text, start + 1, limit, quote)
    }
}

/// Where the quoted text opening at `start` closes, within `limit`.
pub fn quoted_end(text: &[char], start: usize, limit: usize, quote: char) -> (end: usize)
    requires
        start < limit <= text@.len(),
    ensures
        end == quoted_end_spec(text@, start as int, limit as int, quote),
        start < end <= limit,
{
    let mut i = start;
    while i + 1 < limit
        invariant
            start <= i < limit <= text@.len(),
            quoted_end_spec(text@, start as int, limit as int, quote) == quoted_end_spec(
                text@,
                i as int,
                limit as int,
                quote,
            ),
        decreases limit - i,
    {
        if text[i + 1] == quote {
            return i + 2;
        }
        i += 1;
    }
    limit
}

/// Just past the first backslash-and-`quote` after the one at `start`, within
/// `limit`; else `limit`.
pub open spec fn escaped_quoted_end_spec(text: Seq<char>, i: int, limit: int, quote: char) -> int
    decreases limit - i,
{
    if i + 2 > limit {
        limit
    } else if text[i] == '\\' && text[i + 1] == quote {
        i + 2
    } else {
        escaped_quoted_end_spec(text, i + 1, limit, quote)
    }
}

/// Where text quoted with escaped quotes (`\"...\"`) opening at `start` closes.
pub fn escaped_quoted_end(text: &[char], start: usize, limit: usize, quote: char) -> (end: usize)
    requires
        start + 2 <= limit <= text@.len(),
    ensures
        end == escaped_quoted_end_spec(text@, start + 2, limit as int, quote),
        start < end <= limit,
{
    let mut i = start + 2;
    while limit - i >= 2
        invariant
            start + 2 <= i <= limit <= text@.len(),
            escaped_quoted_end_spec(text@, start + 2, limit as int, quote)
                == escaped_quoted_end_spec(text@, i as int, limit as int, quote),
        decreases limit - i,
    {
        if text[i] == '\\' && text[i + 1] == quote {
            return i + 2;
        }
        i += 1;
    }
    limit
}

} // verus!
