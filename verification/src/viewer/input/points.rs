//! Which lines start a block, for each kind of text.
use vstd::prelude::*;

use crate::text::{
    byte_len, byte_offset, char_utf8_len, chars_of, is_whitespace, is_ws, lemma_byte_offset_mono,
    lemma_byte_offset_step, lemma_str_len,
};

verus! {

/// The kinds of text whose blocks the viewer can jump between.
#[derive(Debug, Clone, Copy, PartialEq, Eq, Structural)]
pub enum SyntaxKind {
    Structured,
    Markdown,
    Toml,
    Jinja,
    Plain,
}

/// The first index at or after `p` whose char is not whitespace, or the length.
pub open spec fn skip_ws(cs: Seq<char>, p: int) -> int
    decreases cs.len() - p,
{
    if p < 0 || p >= cs.len() {
        cs.len() as int
    } else if is_ws(cs[p]) {
        skip_ws(cs, p + 1)
    } else {
        p
    }
}

/// The first index at or after `p` whose char is whitespace, or the length.
pub open spec fn until_ws(cs: Seq<char>, p: int) -> int
    decreases cs.len() - p,
{
    if p < 0 || p >= cs.len() {
        cs.len() as int
    } else if is_ws(cs[p]) {
        p
    } else {
        until_ws(cs, p + 1)
    }
}

/// `cs` without its leading whitespace (`str::trim_start`).
pub open spec fn trim_start_seq(cs: Seq<char>) -> Seq<char> {
    cs.skip(skip_ws(cs, 0))
}

/// Every char of `cs` is whitespace: what trims to nothing.
pub open spec fn all_ws(cs: Seq<char>) -> bool {
    forall|i: int| 0 <= i < cs.len() ==> is_ws(#[trigger] cs[i])
}

pub proof fn lemma_skip_ws(cs: Seq<char>, p: int)
    requires
        0 <= p <= cs.len(),
    ensures
        p <= skip_ws(cs, p) <= cs.len(),
        forall|i: int| p <= i < skip_ws(cs, p) ==> is_ws(#[trigger] cs[i]),
        skip_ws(cs, p) < cs.len() ==> !is_ws(cs[skip_ws(cs, p)]),
    decreases cs.len() - p,
{
    if p < cs.len() && is_ws(cs[p]) {
        lemma_skip_ws(cs, p + 1);
    }
}

pub proof fn lemma_until_ws(cs: Seq<char>, p: int)
    requires
        0 <= p <= cs.len(),
    ensures
        p <= until_ws(cs, p) <= cs.len(),
        forall|i: int| p <= i < until_ws(cs, p) ==> !is_ws(#[trigger] cs[i]),
        until_ws(cs, p) < cs.len() ==> is_ws(cs[until_ws(cs, p)]),
    decreases cs.len() - p,
{
    if p < cs.len() && !is_ws(cs[p]) {
        lemma_until_ws(cs, p + 1);
    }
}

/// The first index at or after `p` that is not whitespace.
pub fn skip_ws_from(cs: &[char], p: usize) -> (i: usize)
    requires
        p <= cs@.len(),
    ensures
        i == skip_ws(cs@, p as int),
{
    let mut i = p;
    while i < cs.len() && is_whitespace(cs[i])
        invariant
            p <= i <= cs@.len(),
            skip_ws(cs@, p as int) == skip_ws(cs@, i as int),
        decreases cs@.len() - i,
    {
        i += 1;
    }
    i
}

/// The first index at or after `p` that is whitespace.
pub fn until_ws_from(cs: &[char], p: usize) -> (i: usize)
    requires
        p <= cs@.len(),
    ensures
        i == until_ws(cs@, p as int),
{
    let mut i = p;
    while i < cs.len() && !is_whitespace(cs[i])
        invariant
            p <= i <= cs@.len(),
            until_ws(cs@, p as int) == until_ws(cs@, i as int),
        decreases cs@.len() - i,
    {
        i += 1;
    }
    i
}

/// Whether all of `cs` is whitespace.
pub fn is_blank(cs: &[char]) -> (r: bool)
    ensures
        r == all_ws(cs@),
{
    let k = skip_ws_from(cs, 0);
    proof {
        lemma_skip_ws(cs@, 0);
    }
    k == cs.len()
}

/// Whether `cs` holds exactly the chars of `s`.
pub fn chars_equal(cs: &[char], s: &str) -> (r: bool)
    ensures
        r == (cs@ == s@),
{
    let t = chars_of(s);
    if cs.len() != t.len() {
        return false;
    }
    let mut i: usize = 0;
    while i < cs.len()
        invariant
            i <= cs@.len(),
            cs@.len() == t@.len(),
            t@ == s@,
            forall|j: int| 0 <= j < i ==> cs@[j] == t@[j],
        decreases cs@.len() - i,
    {
        if cs[i] != t[i] {
            return false;
        }
        i += 1;
    }
    assert(cs@ =~= t@);
    true
}

/// An ASCII letter.
pub open spec fn is_ascii_alpha(c: char) -> bool {
    ('a' <= c <= 'z') || ('A' <= c <= 'Z')
}

/// The ASCII whitespace of `u8::is_ascii_whitespace`: space, tab, line feed,
/// form feed, carriage return.
pub open spec fn is_ascii_ws(c: char) -> bool {
    c == ' ' || c == '\t' || c == '\n' || c == '\x0C' || c == '\r'
}

/// `t` (which starts with `<`) opens an XML element: a letter or `_` follows.
pub open spec fn xml_start_tag_spec(t: Seq<char>) -> bool {
    t.len() >= 2 && (is_ascii_alpha(t[1]) || t[1] == '_')
}

/// The index of the quote that closes a JSON string, scanning from `i`;
/// `escaped` tells whether the char before `i` was an unescaped backslash.
pub open spec fn closing_quote(t: Seq<char>, i: int, escaped: bool) -> Option<int>
    decreases t.len() - i,
{
    if i < 0 || i >= t.len() {
        None
    } else if escaped {
        closing_quote(t, i + 1, false)
    } else if t[i] == '\\' {
        closing_quote(t, i + 1, true)
    } else if t[i] == '"' {
        Some(i)
    } else {
        closing_quote(t, i + 1, false)
    }
}

/// What follows `"key":` at the start of `t`, trimmed on the left; `None`
/// when `t` does not start with a quoted key and a colon.
pub open spec fn value_after_key(t: Seq<char>) -> Option<Seq<char>> {
    if t.len() == 0 || t[0] != '"' {
        None
    } else {
        match closing_quote(t, 1, false) {
            None => None,
            Some(q) => {
                let rest = trim_start_seq(t.skip(q + 1));
                if rest.len() > 0 && rest[0] == ':' {
                    Some(trim_start_seq(rest.skip(1)))
                } else {
                    None
                }
            },
        }
    }
}

/// `t` (trimmed) opens an object or array, itself or as the value of a key.
pub open spec fn json_composite_spec(t: Seq<char>) -> bool {
    if t.len() > 0 && (t[0] == '{' || t[0] == '[') {
        true
    } else {
        match value_after_key(t) {
            Some(v) => v.len() > 0 && (v[0] == '{' || v[0] == '['),
            None => false,
        }
    }
}

/// A JSON or XML line that opens a block.
pub open spec fn structured_point_spec(line: Seq<char>) -> bool {
    let t = trim_start_seq(line);
    if t.len() > 0 && t[0] == '<' {
        xml_start_tag_spec(t)
    } else {
        json_composite_spec(t)
    }
}

/// How many `#` start `t`.
pub open spec fn hash_run(t: Seq<char>, i: int) -> int
    decreases t.len() - i,
{
    if i < 0 || i >= t.len() || t[i] != '#' {
        i
    } else {
        hash_run(t, i + 1)
    }
}

/// A Markdown heading: one to six `#` and then ASCII whitespace.
pub open spec fn markdown_heading_spec(line: Seq<char>) -> bool {
    let t = trim_start_seq(line);
    let hashes = hash_run(t, 0);
    1 <= hashes <= 6 && hashes < t.len() && is_ascii_ws(t[hashes])
}

/// A TOML table header: `[`, a `]` somewhere after, and not `[]`.
pub open spec fn toml_table_spec(line: Seq<char>) -> bool {
    let t = trim_start_seq(line);
    &&& t.len() > 0
    &&& t[0] == '['
    &&& exists|i: int| 0 <= i < t.len() && t[i] == ']'
    &&& !(t.len() >= 2 && t[1] == ']')
}

/// The first whitespace-separated word of `r`.
pub open spec fn first_word(r: Seq<char>) -> Seq<char> {
    let s = skip_ws(r, 0);
    r.subrange(s, until_ws(r, s))
}

/// The Jinja tags that start or end a block.
pub open spec fn jinja_block_keyword(k: Seq<char>) -> bool {
    ||| k == "block"@
    ||| k == "endblock"@
    ||| k == "if"@
    ||| k == "elif"@
    ||| k == "else"@
    ||| k == "endif"@
    ||| k == "for"@
    ||| k == "endfor"@
    ||| k == "macro"@
    ||| k == "endmacro"@
    ||| k == "filter"@
    ||| k == "endfilter"@
    ||| k == "call"@
    ||| k == "endcall"@
    ||| k == "include"@
    ||| k == "extends"@
    ||| k == "set"@
    ||| k == "with"@
    ||| k == "endwith"@
}

/// A Jinja statement `{% keyword ...` whose keyword starts or ends a block.
pub open spec fn jinja_block_spec(line: Seq<char>) -> bool {
    let t = trim_start_seq(line);
    t.len() >= 2 && t[0] == '{' && t[1] == '%' && jinja_block_keyword(first_word(t.skip(2)))
}

/// A paragraph starts at a non-blank line with no line, or a blank line,
/// before it.
pub open spec fn paragraph_start_spec(line: Seq<char>, previous: Option<Seq<char>>) -> bool {
    !all_ws(line) && match previous {
        None => true,
        Some(p) => all_ws(p),
    }
}

/// Whether `line` starts a block in text of kind `syntax`.
pub open spec fn structure_point_spec(
    syntax: SyntaxKind,
    line: Seq<char>,
    previous: Option<Seq<char>>,
) -> bool {
    match syntax {
        SyntaxKind::Structured => structured_point_spec(line),
        SyntaxKind::Markdown => markdown_heading_spec(line),
        SyntaxKind::Toml => toml_table_spec(line),
        SyntaxKind::Jinja => jinja_block_spec(line),
        SyntaxKind::Plain => paragraph_start_spec(line, previous),
    }
}

/// Whether the trimmed line `t`, which starts with `<`, opens an element.
fn is_xml_start_tag(t: &[char]) -> (r: bool)
    ensures
        r == xml_start_tag_spec(t@),
{
    if t.len() < 2 {
        return false;
    }
    let c = t[1];
    ('a' <= c && c <= 'z') || ('A' <= c && c <= 'Z') || c == '_'
}

/// What follows `"key":` at the start of `t`, as an index into `t`.
fn json_value_after_key(t: &[char]) -> (r: Option<usize>)
    ensures
        match value_after_key(t@) {
            None => r is None,
            Some(v) => r matches Some(i) && i <= t@.len() && t@.skip(i as int) == v,
        },
{
    if t.len() == 0 || t[0] != '"' {
        return None;
    }
    let mut escaped = false;
    let mut i: usize = 1;
    while i < t.len()
        invariant
            1 <= i <= t@.len(),
            t@.len() > 0 && t@[0] == '"',
            closing_quote(t@, 1, false) == closing_quote(t@, i as int, escaped),
        decreases t@.len() - i,
    {
        let c = t[i];
        if escaped {
            escaped = false;
        } else if c == '\\' {
            escaped = true;
        } else if c == '"' {
            let after = skip_ws_from(t, i + 1);
            proof {
                lemma_skip_ws(t@, i + 1);
                let tail = t@.skip(i + 1);
                lemma_skip_ws_shift(t@, i + 1);
                assert(trim_start_seq(tail) =~= t@.skip(after as int));
            }
            if after < t.len() && t[after] == ':' {
                let value = skip_ws_from(t, after + 1);
                proof {
                    lemma_skip_ws(t@, after + 1);
                    lemma_skip_ws_shift(t@, after + 1);
                    let rest = t@.skip(after as int);
                    assert(rest.skip(1) =~= t@.skip(after + 1));
                    assert(trim_start_seq(rest.skip(1)) =~= t@.skip(value as int));
                }
                return Some(value);
            }
            return None;
        }
        i += 1;
    }
    None
}

/// Skipping whitespace in a suffix is skipping it in the whole from there.
pub proof fn lemma_skip_ws_shift(cs: Seq<char>, p: int)
    requires
        0 <= p <= cs.len(),
    ensures
        skip_ws(cs.skip(p), 0) + p == skip_ws(cs, p),
    decreases cs.len() - p,
{
    let tail = cs.skip(p);
    if p < cs.len() {
        assert(tail[0] == cs[p]);
        if is_ws(cs[p]) {
            lemma_skip_ws_shift(cs, p + 1);
            assert(tail.skip(1) =~= cs.skip(p + 1));
            lemma_skip_ws_tail(tail);
        }
    }
}

/// Skipping from 1 after a leading whitespace char is skipping in the rest.
pub proof fn lemma_skip_ws_tail(cs: Seq<char>)
    requires
        cs.len() > 0,
        is_ws(cs[0]),
    ensures
        skip_ws(cs, 0) == skip_ws(cs.skip(1), 0) + 1,
{
    lemma_skip_ws_offset(cs, 1, 1);
}

/// `skip_ws` over `cs[k..]` from `p - k` is `skip_ws` over `cs` from `p`,
/// less `k`.
pub proof fn lemma_skip_ws_offset(cs: Seq<char>, k: int, p: int)
    requires
        0 <= k <= p <= cs.len(),
    ensures
        skip_ws(cs.skip(k), p - k) + k == skip_ws(cs, p),
    decreases cs.len() - p,
{
    let tail = cs.skip(k);
    if p < cs.len() {
        assert(tail[p - k] == cs[p]);
        if is_ws(cs[p]) {
            lemma_skip_ws_offset(cs, k, p + 1);
        }
    }
}

/// Whether the trimmed line `t` opens an object or array.
fn is_json_composite_point(t: &[char]) -> (r: bool)
    ensures
        r == json_composite_spec(t@),
{
    if t.len() > 0 && (t[0] == '{' || t[0] == '[') {
        return true;
    }
    match json_value_after_key(t) {
        None => false,
        Some(i) => i < t.len() && (t[i] == '{' || t[i] == '['),
    }
}

/// Whether `line` (JSON or XML) opens a block.
fn is_structured_point(line: &[char]) -> (r: bool)
    ensures
        r == structured_point_spec(line@),
{
    let s = skip_ws_from(line, 0);
    proof {
        lemma_skip_ws(line@, 0);
    }
    let t = slice_from(line, s);
    if t.len() > 0 && t[0] == '<' {
        is_xml_start_tag(t)
    } else {
        is_json_composite_point(t)
    }
}

/// `cs[start..]`.
fn slice_from(cs: &[char], start: usize) -> (t: &[char])
    requires
        start <= cs@.len(),
    ensures
        t@ == cs@.skip(start as int),
{
    let t = vstd::slice::slice_subrange(cs, start, cs.len());
    assert(t@ =~= cs@.skip(start as int));
    t
}

/// Whether `line` is a Markdown heading.
fn is_markdown_heading(line: &[char]) -> (r: bool)
    ensures
        r == markdown_heading_spec(line@),
{
    let s = skip_ws_from(line, 0);
    proof {
        lemma_skip_ws(line@, 0);
    }
    let t = slice_from(line, s);
    let mut hashes: usize = 0;
    while hashes < t.len() && t[hashes] == '#'
        invariant
            hashes <= t@.len(),
            hash_run(t@, 0) == hash_run(t@, hashes as int),
        decreases t@.len() - hashes,
    {
        hashes += 1;
    }
    if hashes < 1 || hashes > 6 || hashes >= t.len() {
        return false;
    }
    let c = t[hashes];
    c == ' ' || c == '\t' || c == '\n' || c == '\x0C' || c == '\r'
}

/// Whether `line` is a TOML table header.
pub fn is_toml_table(line: &[char]) -> (r: bool)
    ensures
        r == toml_table_spec(line@),
{
    let s = skip_ws_from(line, 0);
    proof {
        lemma_skip_ws(line@, 0);
    }
    let t = slice_from(line, s);
    if t.len() == 0 || t[0] != '[' {
        return false;
    }
    if t.len() >= 2 && t[1] == ']' {
        return false;
    }
    let mut i: usize = 0;
    while i < t.len()
        invariant
            i <= t@.len(),
            t@ == trim_start_seq(line@),
            t@.len() > 0 && t@[0] == '[',
            !(t@.len() >= 2 && t@[1] == ']'),
            forall|j: int| 0 <= j < i ==> t@[j] != ']',
        decreases t@.len() - i,
    {
        if t[i] == ']' {
            assert(t@[i as int] == ']');
            return true;
        }
        i += 1;
    }
    false
}

/// Whether `k` is a keyword that starts or ends a Jinja block.
fn is_jinja_block_keyword(k: &[char]) -> (r: bool)
    ensures
        r == jinja_block_keyword(k@),
{
    chars_equal(k, "block") || chars_equal(k, "endblock") || chars_equal(k, "if")
        || chars_equal(k, "elif") || chars_equal(k, "else") || chars_equal(k, "endif")
        || chars_equal(k, "for") || chars_equal(k, "endfor") || chars_equal(k, "macro")
        || chars_equal(k, "endmacro") || chars_equal(k, "filter") || chars_equal(k, "endfilter")
        || chars_equal(k, "call") || chars_equal(k, "endcall") || chars_equal(k, "include")
        || chars_equal(k, "extends") || chars_equal(k, "set") || chars_equal(k, "with")
        || chars_equal(k, "endwith")
}

/// Whether `line` is a Jinja statement that starts or ends a block.
fn is_jinja_block(line: &[char]) -> (r: bool)
    ensures
        r == jinja_block_spec(line@),
{
    let s = skip_ws_from(line, 0);
    proof {
        lemma_skip_ws(line@, 0);
    }
    let t = slice_from(line, s);
    if t.len() < 2 || t[0] != '{' || t[1] != '%' {
        return false;
    }
    let rest = slice_from(t, 2);
    let start = skip_ws_from(rest, 0);
    proof {
        lemma_skip_ws(rest@, 0);
    }
    let end = until_ws_from(rest, start);
    proof {
        lemma_until_ws(rest@, start as int);
    }
    let word = vstd::slice::slice_subrange(rest, start, end);
    is_jinja_block_keyword(word)
}

/// Whether `line` starts a paragraph after `previous`.
fn is_paragraph_start(line: &[char], previous: Option<&[char]>) -> (r: bool)
    ensures
        r == paragraph_start_spec(
            line@,
            match previous {
                Some(p) => Some(p@),
                None => None,
            },
        ),
{
    if is_blank(line) {
        return false;
    }
    match previous {
        None => true,
        Some(p) => is_blank(p),
    }
}

/// Whether `line` starts a block in text of kind `syntax`; `previous` is the
/// line before it, if any.
pub fn is_structure_point(syntax: SyntaxKind, line: &str, previous: Option<&str>) -> (r: bool)
    ensures
        r == structure_point_spec(
            syntax,
            line@,
            match previous {
                Some(p) => Some(p@),
                None => None,
            },
        ),
{
    let cs = chars_of(line);
    match syntax {
        SyntaxKind::Structured => is_structured_point(cs.as_slice()),
        SyntaxKind::Markdown => is_markdown_heading(cs.as_slice()),
        SyntaxKind::Toml => is_toml_table(cs.as_slice()),
        SyntaxKind::Jinja => is_jinja_block(cs.as_slice()),
        SyntaxKind::Plain => match previous {
            None => is_paragraph_start(cs.as_slice(), None),
            Some(p) => {
                let pcs = chars_of(p);
                is_paragraph_start(cs.as_slice(), Some(pcs.as_slice()))
            },
        },
    }
}

/// Where the text of `line` starts: the byte index of its first char that is
/// not whitespace, or 0 for a blank line.
pub open spec fn first_non_ws_spec(line: Seq<char>) -> int {
    let k = skip_ws(line, 0);
    if k < line.len() {
        byte_offset(line, k) as int
    } else {
        0
    }
}

/// The byte index of the first char of `line` that is not whitespace.
pub fn first_non_ws_byte(line: &str) -> (index: usize)
    ensures
        index == first_non_ws_spec(line@),
{
    let cs = chars_of(line);
    let total = line.as_bytes().len();
    proof {
        lemma_str_len(line);
    }
    let k = skip_ws_from(cs.as_slice(), 0);
    proof {
        lemma_skip_ws(cs@, 0);
    }
    if k >= cs.len() {
        return 0;
    }
    let mut i: usize = 0;
    let mut offset: usize = 0;
    while i < k
        invariant
            i <= k < cs@.len(),
            cs@ == line@,
            total == byte_len(line@),
            offset == byte_offset(cs@, i as int),
        decreases k - i,
    {
        proof {
            lemma_byte_offset_step(cs@, i as int);
            lemma_byte_offset_mono(cs@, i + 1, cs@.len() as int);
        }
        offset = offset + char_utf8_len(cs[i]);
        i += 1;
    }
    offset
}

} // verus!
