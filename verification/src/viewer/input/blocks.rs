//! Where a block that starts on a line ends: by indent, by TOML table, by
//! Jinja tag pairs, or at the end of the file.
use vstd::prelude::*;

use crate::text::chars_of;

use super::points::{
    chars_equal, first_word, is_blank, lemma_skip_ws, lemma_until_ws, skip_ws, skip_ws_from,
    toml_table_spec, trim_start_seq, until_ws_from, all_ws,
};

verus! {

/// How many whitespace chars start `line`.
pub open spec fn leading_indent_spec(line: Seq<char>) -> int {
    skip_ws(line, 0)
}

/// The number of whitespace chars at the start of `line`.
pub fn leading_indent(line: &str) -> (n: usize)
    ensures
        n == leading_indent_spec(line@),
{
    let cs = chars_of(line);
    skip_ws_from(cs.as_slice(), 0)
}

/// The last offset into the window read from `read_start` that is still in
/// view down to `viewport_bottom`; `None` with nothing read or the view above
/// the window.
pub open spec fn max_observed_spec(len: int, read_start: int, viewport_bottom: int) -> Option<int> {
    if len == 0 || viewport_bottom < read_start {
        None
    } else if viewport_bottom - read_start < len - 1 {
        Some(viewport_bottom - read_start)
    } else {
        Some(len - 1)
    }
}

/// The last offset into the window that is in view.
pub fn max_observed_offset(lines: &[String], read_start: usize, viewport_bottom: usize) -> (r: Option<
    usize,
>)
    ensures
        match max_observed_spec(lines@.len() as int, read_start as int, viewport_bottom as int) {
            Some(m) => r == Some(m as usize),
            None => r is None,
        },
        r matches Some(m) ==> m < lines@.len(),
{
    if lines.len() == 0 || viewport_bottom < read_start {
        return None;
    }
    let span = viewport_bottom - read_start;
    if span < lines.len() - 1 {
        Some(span)
    } else {
        Some(lines.len() - 1)
    }
}

/// The last offset that can close a block in view: one past the bottom, where
/// the line after a block shows where it ends.
pub open spec fn max_boundary_spec(len: int, read_start: int, viewport_bottom: int) -> Option<int> {
    max_observed_spec(
        len,
        read_start,
        if viewport_bottom == usize::MAX {
            viewport_bottom
        } else {
            viewport_bottom + 1
        },
    )
}

/// The last offset that can close a block in view.
pub fn max_boundary_offset(lines: &[String], read_start: usize, viewport_bottom: usize) -> (r: Option<
    usize,
>)
    ensures
        match max_boundary_spec(lines@.len() as int, read_start as int, viewport_bottom as int) {
            Some(m) => r == Some(m as usize),
            None => r is None,
        },
        r matches Some(m) ==> m < lines@.len(),
{
    let below = if viewport_bottom == usize::MAX {
        viewport_bottom
    } else {
        viewport_bottom + 1
    };
    max_observed_offset(lines, read_start, below)
}

/// The last line of the file, when its length is known, the line is in view
/// and it was read.
pub open spec fn eof_end_spec(
    len: int,
    read_start: int,
    viewport_bottom: int,
    line_count: int,
    line_count_exact: bool,
) -> Option<int> {
    if !line_count_exact || line_count == 0 {
        None
    } else {
        let eof = line_count - 1;
        let read_end = if read_start + len > usize::MAX {
            usize::MAX as int
        } else {
            read_start + len
        };
        if eof <= viewport_bottom && eof < read_end {
            Some(eof)
        } else {
            None
        }
    }
}

/// The end of a block that runs to the end of the file.
pub fn eof_block_end(
    lines: &[String],
    read_start: usize,
    viewport_bottom: usize,
    line_count: usize,
    line_count_exact: bool,
) -> (r: Option<usize>)
    ensures
        match eof_end_spec(
            lines@.len() as int,
            read_start as int,
            viewport_bottom as int,
            line_count as int,
            line_count_exact,
        ) {
            Some(e) => r == Some(e as usize),
            None => r is None,
        },
{
    if !line_count_exact || line_count == 0 {
        return None;
    }
    let eof = line_count - 1;
    let read_end = if read_start > usize::MAX - lines.len() {
        usize::MAX
    } else {
        read_start + lines.len()
    };
    if eof <= viewport_bottom && eof < read_end {
        Some(eof)
    } else {
        None
    }
}

/// The Jinja tag keyword a line starts with: the first word after `{%`.
pub open spec fn keyword_spec(line: Seq<char>) -> Option<Seq<char>> {
    let t = trim_start_seq(line);
    if t.len() >= 2 && t[0] == '{' && t[1] == '%' && first_word(t.skip(2)).len() > 0 {
        Some(first_word(t.skip(2)))
    } else {
        None
    }
}

/// The keyword of the Jinja tag that `line` starts with, as chars.
pub fn jinja_keyword(line: &str) -> (r: Option<Vec<char>>)
    ensures
        match keyword_spec(line@) {
            Some(k) => r matches Some(v) && v@ == k,
            None => r is None,
        },
{
    let cs = chars_of(line);
    let s = skip_ws_from(cs.as_slice(), 0);
    proof {
        lemma_skip_ws(cs@, 0);
    }
    let n = cs.len();
    if n - s < 2 || cs[s] != '{' || cs[s + 1] != '%' {
        proof {
            let t = trim_start_seq(line@);
            assert(t =~= cs@.skip(s as int));
        }
        return None;
    }
    let ghost t = cs@.skip(s as int);
    let ghost rest = t.skip(2);
    assert(rest =~= cs@.skip(s + 2));
    let start = skip_ws_from(cs.as_slice(), s + 2);
    proof {
        lemma_skip_ws(cs@, s + 2);
        crate::viewer::input::points::lemma_skip_ws_offset(cs@, s + 2, s + 2);
    }
    let end = until_ws_from(cs.as_slice(), start);
    proof {
        lemma_until_ws(cs@, start as int);
        lemma_until_ws_offset(cs@, s + 2, start as int);
        assert(first_word(rest) =~= cs@.subrange(start as int, end as int));
    }
    if end == start {
        return None;
    }
    let mut word: Vec<char> = Vec::new();
    let mut i = start;
    while i < end
        invariant
            start <= i <= end <= cs@.len(),
            word@ == cs@.subrange(start as int, i as int),
        decreases end - i,
    {
        word.push(cs[i]);
        i += 1;
        assert(word@ =~= cs@.subrange(start as int, i as int));
    }
    Some(word)
}

/// `until_ws` over `cs[k..]` from `p - k` is `until_ws` over `cs` from `p`,
/// less `k`.
pub proof fn lemma_until_ws_offset(cs: Seq<char>, k: int, p: int)
    requires
        0 <= k <= p <= cs.len(),
    ensures
        crate::viewer::input::points::until_ws(cs.skip(k), p - k) + k
            == crate::viewer::input::points::until_ws(cs, p),
    decreases cs.len() - p,
{
    let tail = cs.skip(k);
    if p < cs.len() {
        assert(tail[p - k] == cs[p]);
        if !crate::text::is_ws(cs[p]) {
            lemma_until_ws_offset(cs, k, p + 1);
        }
    }
}

/// The keyword that opens the block `keyword` belongs to: `if` for `elif`
/// and `else`.
pub open spec fn open_keyword_spec(keyword: Seq<char>) -> Seq<char> {
    if keyword == "elif"@ || keyword == "else"@ {
        "if"@
    } else {
        keyword
    }
}

/// The keyword that closes the block `keyword` opens, if it opens one.
pub open spec fn close_keyword_spec(keyword: Seq<char>) -> Option<Seq<char>> {
    if keyword == "block"@ {
        Some("endblock"@)
    } else if keyword == "if"@ || keyword == "elif"@ || keyword == "else"@ {
        Some("endif"@)
    } else if keyword == "for"@ {
        Some("endfor"@)
    } else if keyword == "macro"@ {
        Some("endmacro"@)
    } else if keyword == "filter"@ {
        Some("endfilter"@)
    } else if keyword == "call"@ {
        Some("endcall"@)
    } else if keyword == "set"@ {
        Some("endset"@)
    } else if keyword == "with"@ {
        Some("endwith"@)
    } else {
        None
    }
}

/// A string holding `s`.
fn owned(s: &str) -> (r: Vec<char>)
    ensures
        r@ == s@,
{
    chars_of(s)
}

/// The keyword that opens the block of `keyword`.
pub fn open_keyword(keyword: &[char]) -> (r: Vec<char>)
    ensures
        r@ == open_keyword_spec(keyword@),
{
    if chars_equal(keyword, "elif") || chars_equal(keyword, "else") {
        owned("if")
    } else {
        let mut v: Vec<char> = Vec::new();
        let mut i: usize = 0;
        while i < keyword.len()
            invariant
                i <= keyword@.len(),
                v@ == keyword@.take(i as int),
            decreases keyword@.len() - i,
        {
            v.push(keyword[i]);
            i += 1;
            assert(v@ =~= keyword@.take(i as int));
        }
        assert(keyword@.take(keyword@.len() as int) =~= keyword@);
        v
    }
}

/// The keyword that closes the block `keyword` opens.
pub fn close_keyword(keyword: &[char]) -> (r: Option<Vec<char>>)
    ensures
        match close_keyword_spec(keyword@) {
            Some(k) => r matches Some(v) && v@ == k,
            None => r is None,
        },
{
    if chars_equal(keyword, "block") {
        Some(owned("endblock"))
    } else if chars_equal(keyword, "if") || chars_equal(keyword, "elif") || chars_equal(
        keyword,
        "else",
    ) {
        Some(owned("endif"))
    } else if chars_equal(keyword, "for") {
        Some(owned("endfor"))
    } else if chars_equal(keyword, "macro") {
        Some(owned("endmacro"))
    } else if chars_equal(keyword, "filter") {
        Some(owned("endfilter"))
    } else if chars_equal(keyword, "call") {
        Some(owned("endcall"))
    } else if chars_equal(keyword, "set") {
        Some(owned("endset"))
    } else if chars_equal(keyword, "with") {
        Some(owned("endwith"))
    } else {
        None
    }
}

/// Whether `a` and `b` hold the same chars.
fn same_chars(a: &[char], b: &[char]) -> (r: bool)
    ensures
        r == (a@ == b@),
{
    if a.len() != b.len() {
        return false;
    }
    let mut i: usize = 0;
    while i < a.len()
        invariant
            i <= a@.len() == b@.len(),
            forall|j: int| 0 <= j < i ==> a@[j] == b@[j],
        decreases a@.len() - i,
    {
        if a[i] != b[i] {
            return false;
        }
        i += 1;
    }
    assert(a@ =~= b@);
    true
}

/// Scanning the lines at offsets `k..=max` for the tag that closes a Jinja
/// block at `depth` open blocks of its kind.
pub open spec fn jinja_close_scan(
    lines: Seq<String>,
    k: int,
    max: int,
    open: Seq<char>,
    close: Seq<char>,
    depth: int,
) -> Option<int>
    decreases max + 1 - k,
{
    if k > max || k < 0 || k >= lines.len() {
        None
    } else {
        match keyword_spec(lines[k]@) {
            None => jinja_close_scan(lines, k + 1, max, open, close, depth),
            Some(kw) => if kw == open {
                jinja_close_scan(
                    lines,
                    k + 1,
                    max,
                    open,
                    close,
                    if depth == usize::MAX {
                        depth
                    } else {
                        depth + 1
                    },
                )
            } else if kw == close {
                let d = if depth > 0 {
                    depth - 1
                } else {
                    0
                };
                if d == 0 {
                    Some(k)
                } else {
                    jinja_close_scan(lines, k + 1, max, open, close, d)
                }
            } else {
                jinja_close_scan(lines, k + 1, max, open, close, depth)
            },
        }
    }
}

/// Where the Jinja block that starts at `start_offset` ends: the offset of its
/// closing tag (nested blocks of its kind counted), itself for a tag that
/// opens no block; `None` when no end is in view.
pub open spec fn jinja_end_spec(
    lines: Seq<String>,
    read_start: int,
    start_offset: int,
    viewport_bottom: int,
) -> Option<int> {
    match max_observed_spec(lines.len() as int, read_start, viewport_bottom) {
        None => None,
        Some(max) => if start_offset >= lines.len() {
            None
        } else {
            match keyword_spec(lines[start_offset]@) {
                None => None,
                Some(kw) => match close_keyword_spec(kw) {
                    None => Some(read_start + start_offset),
                    Some(close) => match jinja_close_scan(
                        lines,
                        start_offset + 1,
                        max,
                        open_keyword_spec(kw),
                        close,
                        1,
                    ) {
                        Some(o) => Some(read_start + o),
                        None => None,
                    },
                },
            }
        },
    }
}

/// Where the Jinja block starting at `start_offset` ends.
pub fn jinja_block_end(
    lines: &[String],
    read_start: usize,
    start_offset: usize,
    viewport_bottom: usize,
) -> (r: Option<usize>)
    requires
        read_start + lines@.len() <= usize::MAX,
    ensures
        match jinja_end_spec(lines@, read_start as int, start_offset as int, viewport_bottom as int) {
            Some(e) => r == Some(e as usize),
            None => r is None,
        },
{
    let max = match max_observed_offset(lines, read_start, viewport_bottom) {
        None => return None,
        Some(m) => m,
    };
    if start_offset >= lines.len() {
        return None;
    }
    let start_keyword = match jinja_keyword(lines[start_offset].as_str()) {
        None => return None,
        Some(k) => k,
    };
    let close = match close_keyword(start_keyword.as_slice()) {
        None => return Some(read_start + start_offset),
        Some(c) => c,
    };
    let open = open_keyword(start_keyword.as_slice());
    let mut depth: usize = 1;
    let mut k = start_offset + 1;
    let ghost kw = start_keyword@;
    while k <= max
        invariant
            max < lines@.len(),
            read_start + lines@.len() <= usize::MAX,
            start_offset < lines@.len(),
            start_offset + 1 <= k,
            k <= max + 1 || k == start_offset + 1,
            depth >= 1,
            max_observed_spec(lines@.len() as int, read_start as int, viewport_bottom as int)
                == Some(max as int),
            keyword_spec(lines@[start_offset as int]@) == Some(kw),
            close_keyword_spec(kw) == Some(close@),
            open@ == open_keyword_spec(kw),
            jinja_close_scan(lines@, start_offset + 1, max as int, open@, close@, 1)
                == jinja_close_scan(lines@, k as int, max as int, open@, close@, depth as int),
        decreases max + 1 - k,
    {
        match jinja_keyword(lines[k].as_str()) {
            None => {},
            Some(found) => {
                if same_chars(found.as_slice(), open.as_slice()) {
                    depth = if depth == usize::MAX {
                        depth
                    } else {
                        depth + 1
                    };
                } else if same_chars(found.as_slice(), close.as_slice()) {
                    depth = depth - 1;
                    if depth == 0 {
                        return Some(read_start + k);
                    }
                }
            },
        }
        k += 1;
    }
    None
}

/// Whether a line ends a block at its own indent: a closing bracket or tag, or
/// a Jinja `end...` tag.
pub open spec fn same_indent_closing_spec(line: Seq<char>) -> bool {
    let t = trim_start_seq(line);
    ||| t.len() > 0 && t[0] == '}'
    ||| t.len() > 0 && t[0] == ']'
    ||| t.len() >= 2 && t[0] == '<' && t[1] == '/'
    ||| (keyword_spec(line) matches Some(k) && k.len() >= 3 && k[0] == 'e' && k[1] == 'n' && k[2]
        == 'd')
}

/// Whether `line` closes a block at its own indent.
pub fn is_same_indent_closing_line(line: &str) -> (r: bool)
    ensures
        r == same_indent_closing_spec(line@),
{
    let cs = chars_of(line);
    let s = skip_ws_from(cs.as_slice(), 0);
    proof {
        lemma_skip_ws(cs@, 0);
        assert(trim_start_seq(line@) =~= cs@.skip(s as int));
    }
    let n = cs.len();
    if s < n && (cs[s] == '}' || cs[s] == ']') {
        return true;
    }
    if n - s >= 2 && cs[s] == '<' && cs[s + 1] == '/' {
        return true;
    }
    match jinja_keyword(line) {
        Some(k) => k.len() >= 3 && k[0] == 'e' && k[1] == 'n' && k[2] == 'd',
        None => false,
    }
}

/// Scanning offsets `k..=max` for the first line, not blank, indented no
/// deeper than `indent`.
pub open spec fn indent_scan(lines: Seq<String>, k: int, max: int, indent: int) -> Option<int>
    decreases max + 1 - k,
{
    if k > max || k < 0 || k >= lines.len() {
        None
    } else if all_ws(lines[k]@) {
        indent_scan(lines, k + 1, max, indent)
    } else if leading_indent_spec(lines[k]@) <= indent {
        Some(k)
    } else {
        indent_scan(lines, k + 1, max, indent)
    }
}

/// Where a block that starts at `start_offset` ends by indent: the line that
/// comes back to its indent if that line closes it, else the line before.
pub open spec fn indent_end_spec(
    lines: Seq<String>,
    read_start: int,
    start_offset: int,
    viewport_bottom: int,
) -> Option<int> {
    match max_boundary_spec(lines.len() as int, read_start, viewport_bottom) {
        None => None,
        Some(max) => if start_offset >= lines.len() {
            None
        } else {
            match indent_scan(
                lines,
                start_offset + 1,
                max,
                leading_indent_spec(lines[start_offset]@),
            ) {
                None => None,
                Some(o) => if same_indent_closing_spec(lines[o]@) {
                    Some(read_start + o)
                } else {
                    Some(read_start + o - 1)
                },
            }
        },
    }
}

/// Where the block starting at `start_offset` ends by indent.
pub fn indent_block_end(
    lines: &[String],
    read_start: usize,
    start_offset: usize,
    viewport_bottom: usize,
) -> (r: Option<usize>)
    requires
        read_start + lines@.len() <= usize::MAX,
    ensures
        match indent_end_spec(lines@, read_start as int, start_offset as int, viewport_bottom as int) {
            Some(e) => r == Some(e as usize),
            None => r is None,
        },
{
    let max = match max_boundary_offset(lines, read_start, viewport_bottom) {
        None => return None,
        Some(m) => m,
    };
    if start_offset >= lines.len() {
        return None;
    }
    let start_indent = leading_indent(lines[start_offset].as_str());
    let mut k = start_offset + 1;
    while k <= max
        invariant
            max < lines@.len(),
            read_start + lines@.len() <= usize::MAX,
            start_offset < lines@.len(),
            start_offset + 1 <= k,
            k <= max + 1 || k == start_offset + 1,
            max_boundary_spec(lines@.len() as int, read_start as int, viewport_bottom as int)
                == Some(max as int),
            start_indent == leading_indent_spec(lines@[start_offset as int]@),
            indent_scan(lines@, start_offset + 1, max as int, start_indent as int) == indent_scan(
                lines@,
                k as int,
                max as int,
                start_indent as int,
            ),
        decreases max + 1 - k,
    {
        let cs = chars_of(lines[k].as_str());
        if !is_blank(cs.as_slice()) {
            if leading_indent(lines[k].as_str()) <= start_indent {
                if is_same_indent_closing_line(lines[k].as_str()) {
                    return Some(read_start + k);
                }
                return Some(read_start + k - 1);
            }
        }
        k += 1;
    }
    None
}

/// Scanning offsets `k..=max` for the next TOML table header.
pub open spec fn table_scan(lines: Seq<String>, k: int, max: int) -> Option<int>
    decreases max + 1 - k,
{
    if k > max || k < 0 || k >= lines.len() {
        None
    } else if toml_table_spec(lines[k]@) {
        Some(k)
    } else {
        table_scan(lines, k + 1, max)
    }
}

/// Where a TOML table that starts at `start_offset` ends: the line before the
/// next table header in view.
pub open spec fn toml_end_spec(
    lines: Seq<String>,
    read_start: int,
    start_offset: int,
    viewport_bottom: int,
) -> Option<int> {
    match max_boundary_spec(lines.len() as int, read_start, viewport_bottom) {
        None => None,
        Some(max) => match table_scan(lines, start_offset + 1, max) {
            Some(o) => Some(read_start + o - 1),
            None => None,
        },
    }
}

/// Where the TOML table starting at `start_offset` ends.
pub fn toml_block_end(
    lines: &[String],
    read_start: usize,
    start_offset: usize,
    viewport_bottom: usize,
) -> (r: Option<usize>)
    requires
        read_start + lines@.len() <= usize::MAX,
        start_offset < usize::MAX,
    ensures
        match toml_end_spec(lines@, read_start as int, start_offset as int, viewport_bottom as int) {
            Some(e) => r == Some(e as usize),
            None => r is None,
        },
{
    let max = match max_boundary_offset(lines, read_start, viewport_bottom) {
        None => return None,
        Some(m) => m,
    };
    let mut k = start_offset + 1;
    while k <= max
        invariant
            max < lines@.len(),
            read_start + lines@.len() <= usize::MAX,
            start_offset + 1 <= k,
            k <= max + 1 || k == start_offset + 1,
            max_boundary_spec(lines@.len() as int, read_start as int, viewport_bottom as int)
                == Some(max as int),
            table_scan(lines@, start_offset + 1, max as int) == table_scan(
                lines@,
                k as int,
                max as int,
            ),
        decreases max + 1 - k,
    {
        let cs = chars_of(lines[k].as_str());
        if crate::viewer::input::points::is_toml_table(cs.as_slice()) {
            return Some(read_start + k - 1);
        }
        k += 1;
    }
    None
}

} // verus!
