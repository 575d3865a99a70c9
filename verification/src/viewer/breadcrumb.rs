//! The path of JSON keys that leads to a line, shown above the view.
use vstd::prelude::*;

use crate::text::{byte_offset, char_utf8_len, chars_of, lemma_byte_offset_mono, lemma_byte_offset_step, lemma_str_len, byte_len, push_chars, push_str, string_push};
use crate::viewer::input::points::{closing_quote, lemma_skip_ws, skip_ws, skip_ws_from};
use crate::viewer::highlight::{lemma_spans_text_push, spans_text, SpanStyle, StyledText};

verus! {

/// Paths are remembered every this many lines.
pub const CHECKPOINT_INTERVAL: usize = 512;

/// The most rows a breadcrumb takes.
pub const MAX_BREADCRUMB_ROWS: usize = 2;

/// Narrower views show no breadcrumb.
pub const MIN_BREADCRUMB_WIDTH: usize = 16;

/// What a line of pretty-printed JSON is, as far as the path goes: a key at
/// an indent, a closing bracket at an indent, or anything else.
#[derive(Debug, Clone, PartialEq, Eq)]
pub enum JsonLineKind {
    Key { indent: usize, key: String },
    Closing { indent: usize },
    Other,
}

/// A line's kind as plain values.
pub enum LineShape {
    Key(usize, Seq<char>),
    Closing(usize),
    Other,
}

impl JsonLineKind {
    pub open spec fn shape(&self) -> LineShape {
        match self {
            JsonLineKind::Key { indent, key } => LineShape::Key(*indent, key@),
            JsonLineKind::Closing { indent } => LineShape::Closing(*indent),
            JsonLineKind::Other => LineShape::Other,
        }
    }
}

/// A key of the path and the indent of its line.
#[derive(Debug, Clone, PartialEq, Eq)]
pub struct PathEntry {
    pub indent: usize,
    pub key: String,
}

/// A path as indents and keys.
pub open spec fn path_view(stack: Seq<PathEntry>) -> Seq<(usize, Seq<char>)> {
    stack.map_values(|e: PathEntry| (e.indent, e.key@))
}

/// What the JSON escapes in a key's text stand for, as far as a breadcrumb
/// shows them: `\"`, `\\` and `\/` become the char itself; the control
/// escapes and `\u` with its four digits stay as written; any other escaped
/// char stands for itself; a lone trailing backslash stays.
pub open spec fn decode_spec(s: Seq<char>) -> Seq<char>
    decreases s.len(),
{
    if s.len() == 0 {
        Seq::empty()
    } else if s[0] != '\\' {
        seq![s[0]] + decode_spec(s.skip(1))
    } else if s.len() == 1 {
        seq!['\\']
    } else {
        let e = s[1];
        if e == 'b' || e == 'f' || e == 'n' || e == 'r' || e == 't' {
            seq!['\\', e] + decode_spec(s.skip(2))
        } else if e == 'u' {
            let stop = if s.len() < 6 {
                s.len() as int
            } else {
                6
            };
            seq!['\\', 'u'] + s.subrange(2, stop) + decode_spec(s.skip(stop))
        } else {
            seq![e] + decode_spec(s.skip(2))
        }
    }
}

/// Text with no backslash reads as itself.
pub proof fn law_decode_plain_text(s: Seq<char>)
    requires
        forall|i: int| 0 <= i < s.len() ==> s[i] != '\\',
    ensures
        decode_spec(s) == s,
    decreases s.len(),
{
    if s.len() > 0 {
        let rest = s.skip(1);
        assert forall|i: int| 0 <= i < rest.len() implies rest[i] != '\\' by {
            assert(rest[i] == s[i + 1]);
        }
        law_decode_plain_text(rest);
        assert(seq![s[0]] + rest =~= s);
    }
}

/// The text of a JSON string's content as a breadcrumb shows it.
pub fn decode_json_string_content(content: &[char]) -> (out: String)
    ensures
        out@ == decode_spec(content@),
{
    let mut out = String::new();
    let n = content.len();
    let mut i: usize = 0;
    assert(content@.skip(0) =~= content@);
    assert(out@ + decode_spec(content@) =~= decode_spec(content@));
    while i < n
        invariant
            i <= n == content@.len(),
            decode_spec(content@) == out@ + decode_spec(content@.skip(i as int)),
        decreases n - i,
    {
        let ghost rest = content@.skip(i as int);
        let c = content[i];
        assert(rest[0] == c);
        if c != '\\' {
            string_push(&mut out, c);
            i += 1;
            assert(rest.skip(1) =~= content@.skip(i as int));
            continue;
        }
        if i + 1 == n {
            string_push(&mut out, '\\');
            i += 1;
            assert(content@.skip(i as int) =~= Seq::<char>::empty());
            continue;
        }
        let e = content[i + 1];
        assert(rest[1] == e);
        if e == 'b' || e == 'f' || e == 'n' || e == 'r' || e == 't' {
            string_push(&mut out, '\\');
            string_push(&mut out, e);
            i += 2;
            assert(rest.skip(2) =~= content@.skip(i as int));
        } else if e == 'u' {
            string_push(&mut out, '\\');
            string_push(&mut out, 'u');
            let stop = if n - i < 6 {
                n
            } else {
                i + 6
            };
            let ghost before = out@;
            let mut j = i + 2;
            while j < stop
                invariant
                    i + 2 <= j <= stop <= n == content@.len(),
                    out@ == before + content@.subrange(i + 2, j as int),
                decreases stop - j,
            {
                string_push(&mut out, content[j]);
                j += 1;
                assert(out@ =~= before + content@.subrange(i + 2, j as int));
            }
            assert(rest.subrange(2, stop - i) =~= content@.subrange(i + 2, stop as int));
            assert(rest.skip(stop - i) =~= content@.skip(stop as int));
            i = stop;
        } else {
            string_push(&mut out, e);
            i += 2;
            assert(rest.skip(2) =~= content@.skip(i as int));
        }
    }
    assert(content@.skip(n as int) =~= Seq::<char>::empty());
    out
}

/// The key that `t` (a trimmed line) starts with: a quoted string followed,
/// past whitespace, by a colon.
pub open spec fn key_spec(t: Seq<char>) -> Option<Seq<char>> {
    if t.len() == 0 || t[0] != '"' {
        None
    } else {
        match closing_quote(t, 1, false) {
            None => None,
            Some(q) => {
                let after = skip_ws(t, q + 1);
                if after < t.len() && t[after] == ':' {
                    Some(decode_spec(t.subrange(1, q)))
                } else {
                    None
                }
            },
        }
    }
}

/// The kind of the line `line`.
pub open spec fn classify_spec(line: Seq<char>) -> LineShape {
    let k = skip_ws(line, 0);
    let indent = byte_offset(line, k) as usize;
    let t = line.skip(k);
    if t.len() > 0 && (t[0] == '}' || t[0] == ']') {
        LineShape::Closing(indent)
    } else {
        match key_spec(t) {
            Some(key) => LineShape::Key(indent, key),
            None => LineShape::Other,
        }
    }
}

pub proof fn lemma_closing_quote_bounds(t: Seq<char>, i: int, escaped: bool)
    requires
        0 <= i,
    ensures
        closing_quote(t, i, escaped) matches Some(q) ==> i <= q < t.len() && t[q] == '"',
    decreases t.len() - i,
{
    if i < t.len() {
        lemma_closing_quote_bounds(t, i + 1, false);
        lemma_closing_quote_bounds(t, i + 1, true);
    }
}

/// Reads the key a trimmed line starts with, if it starts with one.
/// Where the string that `t` starts with ends: the index just past its
/// closing quote (escaped quotes do not close it), if it has one.
pub fn json_string_end(t: &[char]) -> (end: Option<usize>)
    requires
        t@.len() > 0,
    ensures
        match closing_quote(t@, 1, false) {
            Some(q) => end == Some((q + 1) as usize),
            None => end is None,
        },
{
    let mut escaped = false;
    let mut i: usize = 1;
    while i < t.len()
        invariant
            1 <= i <= t@.len(),
            closing_quote(t@, 1, false) == closing_quote(t@, i as int, escaped),
        decreases t@.len() - i,
    {
        let c = t[i];
        if escaped {
            escaped = false;
        } else if c == '\\' {
            escaped = true;
        } else if c == '"' {
            return Some(i + 1);
        }
        i += 1;
    }
    None
}

pub fn parse_json_key(t: &[char]) -> (key: Option<String>)
    ensures
        match key_spec(t@) {
            Some(k) => key matches Some(s) && s@ == k,
            None => key is None,
        },
{
    if t.len() == 0 || t[0] != '"' {
        return None;
    }
    let end = match json_string_end(t) {
        Some(e) => e,
        None => return None,
    };
    proof {
        lemma_closing_quote_bounds(t@, 1, false);
    }
    let after = skip_ws_from(t, end);
    if after < t.len() && t[after] == ':' {
        let content = vstd::slice::slice_subrange(t, 1, end - 1);
        let key = decode_json_string_content(content);
        return Some(key);
    }
    None
}

/// What kind of line `line` is.
pub fn classify_json_line(line: &str) -> (kind: JsonLineKind)
    ensures
        kind.shape() == classify_spec(line@),
{
    let cs = chars_of(line);
    let k = skip_ws_from(cs.as_slice(), 0);
    proof {
        lemma_skip_ws(cs@, 0);
        lemma_str_len(line);
    }
    let total = line.as_bytes().len();
    let mut i: usize = 0;
    let mut indent: usize = 0;
    while i < k
        invariant
            i <= k <= cs@.len(),
            cs@ == line@,
            total == byte_len(line@),
            indent == byte_offset(cs@, i as int),
        decreases k - i,
    {
        proof {
            lemma_byte_offset_step(cs@, i as int);
            lemma_byte_offset_mono(cs@, i + 1, cs@.len() as int);
        }
        indent = indent + char_utf8_len(cs[i]);
        i += 1;
    }
    let t = vstd::slice::slice_subrange(cs.as_slice(), k, cs.len());
    assert(t@ =~= cs@.skip(k as int));
    if t.len() > 0 && (t[0] == '}' || t[0] == ']') {
        return JsonLineKind::Closing { indent };
    }
    match parse_json_key(t) {
        Some(key) => JsonLineKind::Key { indent, key },
        None => JsonLineKind::Other,
    }
}

/// The path with the entries at `indent` or deeper dropped from its end.
pub open spec fn pop_spec(path: Seq<(usize, Seq<char>)>, indent: usize) -> Seq<(usize, Seq<char>)>
    decreases path.len(),
{
    if path.len() > 0 && path.last().0 >= indent {
        pop_spec(path.drop_last(), indent)
    } else {
        path
    }
}

/// The path after a line of kind `shape`: a key replaces the entries at its
/// indent or deeper and is added; a closing bracket drops them.
pub open spec fn apply_spec(path: Seq<(usize, Seq<char>)>, shape: LineShape) -> Seq<(usize, Seq<char>)> {
    match shape {
        LineShape::Key(indent, key) => pop_spec(path, indent).push((indent, key)),
        LineShape::Closing(indent) => pop_spec(path, indent),
        LineShape::Other => path,
    }
}

/// The path in force after the first `n` lines.
pub open spec fn path_after(lines: Seq<String>, n: int) -> Seq<(usize, Seq<char>)>
    decreases n,
{
    if n <= 0 {
        Seq::empty()
    } else {
        apply_spec(path_after(lines, n - 1), classify_spec(lines[n - 1]@))
    }
}

/// Drops the entries at `indent` or deeper from the end of the path.
pub fn pop_to_parent(stack: &mut Vec<PathEntry>, indent: usize)
    ensures
        path_view(final(stack)@) == pop_spec(path_view(old(stack)@), indent),
{
    let ghost start = path_view(stack@);
    while stack.len() > 0 && stack[stack.len() - 1].indent >= indent
        invariant
            pop_spec(start, indent) == pop_spec(path_view(stack@), indent),
        decreases stack@.len(),
    {
        let ghost before = stack@;
        stack.pop();
        assert(path_view(stack@) =~= path_view(before).drop_last());
    }
}

/// Updates the path for one more line.
pub fn apply_line_to_stack(stack: &mut Vec<PathEntry>, line: JsonLineKind)
    ensures
        path_view(final(stack)@) == apply_spec(path_view(old(stack)@), line.shape()),
{
    match line {
        JsonLineKind::Key { indent, key } => {
            pop_to_parent(stack, indent);
            let ghost before = stack@;
            stack.push(PathEntry { indent, key });
            assert(path_view(stack@) =~= path_view(before).push((indent, key@)));
        },
        JsonLineKind::Closing { indent } => {
            pop_to_parent(stack, indent);
        },
        JsonLineKind::Other => {},
    }
}

/// The texts of `keys`.
pub open spec fn key_texts(keys: Seq<String>) -> Seq<Seq<char>> {
    keys.map_values(|k: String| k@)
}

/// Adding a key adds its text.
pub proof fn lemma_key_texts_push(keys: Seq<String>, key: String)
    ensures
        key_texts(keys.push(key)) == key_texts(keys).push(key@),
{
    assert(key_texts(keys.push(key)) =~= key_texts(keys).push(key@));
}

/// The keys of a path.
pub open spec fn keys_of(path: Seq<(usize, Seq<char>)>) -> Seq<Seq<char>> {
    path.map_values(|e: (usize, Seq<char>)| e.1)
}

/// A copy of the path.
fn copy_path(stack: &[PathEntry]) -> (copy: Vec<PathEntry>)
    ensures
        path_view(copy@) == path_view(stack@),
{
    let mut copy: Vec<PathEntry> = Vec::new();
    let mut i: usize = 0;
    while i < stack.len()
        invariant
            i <= stack@.len(),
            copy@.len() == i,
            path_view(copy@) == path_view(stack@.take(i as int)),
        decreases stack@.len() - i,
    {
        let key = stack[i].key.clone();
        let ghost before = copy@;
        copy.push(PathEntry { indent: stack[i].indent, key });
        proof {
            assert forall|j: int| 0 <= j < i + 1 implies #[trigger] path_view(copy@)[j] == path_view(
                stack@.take(i + 1),
            )[j] by {
                if j < i {
                    assert(path_view(before)[j] == path_view(stack@.take(i as int))[j]);
                    assert(copy@[j] == before[j]);
                }
            }
            assert(path_view(copy@) =~= path_view(stack@.take(i + 1)));
        }
        i += 1;
    }
    assert(stack@.take(stack@.len() as int) =~= stack@);
    copy
}

/// The keys leading to a line of kind `line` under `stack`.
pub fn path_for_current_line(stack: &[PathEntry], line: JsonLineKind) -> (keys: Vec<String>)
    ensures
        key_texts(keys@) == keys_of(apply_spec(
            path_view(stack@),
            match line.shape() {
                LineShape::Closing(_) => LineShape::Other,
                other => other,
            },
        )),
{
    let mut path = copy_path(stack);
    match line {
        JsonLineKind::Key { indent, key } => {
            pop_to_parent(&mut path, indent);
            let ghost before = path@;
            path.push(PathEntry { indent, key });
            assert(path_view(path@) =~= path_view(before).push((indent, key@)));
        },
        _ => {},
    }
    let mut keys: Vec<String> = Vec::new();
    let mut i: usize = 0;
    while i < path.len()
        invariant
            i <= path@.len(),
            keys@.len() == i,
            key_texts(keys@) == keys_of(path_view(path@).take(i as int)),
        decreases path@.len() - i,
    {
        let key = path[i].key.clone();
        let ghost before = keys@;
        keys.push(key);
        proof {
            assert forall|j: int| 0 <= j < i + 1 implies #[trigger] key_texts(keys@)[j]
                == keys_of(path_view(path@).take(i + 1))[j] by {
                if j < i {
                    assert(key_texts(before)[j] == keys_of(path_view(path@).take(i as int))[j]);
                    assert(keys@[j] == before[j]);
                }
            }
            assert(key_texts(keys@) =~= keys_of(path_view(path@).take(i + 1)));
        }
        i += 1;
    }
    assert(path_view(path@).take(path@.len() as int) =~= path_view(path@));
    keys
}

} // verus!

verus! {

/// The path in force after the first `line` lines.
#[derive(Debug)]
pub struct PathCheckpoint {
    pub line: usize,
    pub stack: Vec<PathEntry>,
}

/// Paths remembered along a file, so that the path of a line far down need
/// not be worked out from the first line.
#[derive(Debug)]
pub struct JsonBreadcrumbCache {
    pub checkpoints: Vec<PathCheckpoint>,
}

/// Checkpoint `k` of `cps` is the latest one at or before `line`.
pub open spec fn latest_at_or_before(cps: Seq<PathCheckpoint>, line: usize, k: int) -> bool {
    &&& 0 <= k < cps.len()
    &&& cps[k].line <= line
    &&& forall|j: int| k < j < cps.len() ==> (#[trigger] cps[j]).line > line
}

/// `after` is `before` with a checkpoint for `line` holding `path` put at
/// `i`, where it keeps the lines in order: it takes the place of one for the
/// same line, or goes in between.
pub open spec fn placed_at(
    before: Seq<PathCheckpoint>,
    after: Seq<PathCheckpoint>,
    i: int,
    line: usize,
    path: Seq<(usize, Seq<char>)>,
) -> bool {
    let rest = if i < before.len() && before[i].line == line {
        i + 1
    } else {
        i
    };
    &&& 0 <= i <= before.len()
    &&& forall|j: int| 0 <= j < i ==> (#[trigger] before[j]).line < line
    &&& i < before.len() ==> before[i].line >= line
    &&& after.len() == i + 1 + before.len() - rest
    &&& after[i].line == line
    &&& path_view(after[i].stack@) == path
    &&& forall|j: int| 0 <= j < i ==> #[trigger] after[j] == before[j]
    &&& forall|j: int| i < j < after.len() ==> #[trigger] after[j] == before[j - i - 1 + rest]
}

impl JsonBreadcrumbCache {
    /// The checkpoints are in increasing order of line, and each holds the
    /// path in force after its line of `lines`.
    pub open spec fn wf_for(&self, lines: Seq<String>) -> bool {
        &&& forall|i: int, j: int|
            0 <= i < j < self.checkpoints@.len() ==> self.checkpoints@[i].line
                < self.checkpoints@[j].line
        &&& forall|i: int|
            0 <= i < self.checkpoints@.len() ==> #[trigger] path_view(
                self.checkpoints@[i].stack@,
            ) == path_after(lines, self.checkpoints@[i].line as int)
    }

    /// A cache with nothing remembered.
    pub fn new() -> (cache: Self)
        ensures
            cache.checkpoints@.len() == 0,
            forall|lines: Seq<String>| cache.wf_for(lines),
    {
        JsonBreadcrumbCache { checkpoints: Vec::new() }
    }

    /// The latest remembered line at or before `line` and its path, or the
    /// first line and the empty path.
    fn checkpoint_before(&self, line: usize, lines: Ghost<Seq<String>>) -> (r: (usize, Vec<PathEntry>))
        requires
            self.wf_for(lines@),
        ensures
            r.0 <= line,
            path_view(r.1@) == path_after(lines@, r.0 as int),
            (forall|k: int|
                0 <= k < self.checkpoints@.len() ==> (#[trigger] self.checkpoints@[k]).line
                    > line) ==> r.0 == 0 && r.1@.len() == 0,
            (exists|k: int| 0 <= k < self.checkpoints@.len() && #[trigger] self.checkpoints@[k].line <= line)
                ==> exists|k: int|
                #![trigger self.checkpoints@[k]]
                latest_at_or_before(self.checkpoints@, line, k) && r.0 == self.checkpoints@[k].line
                    && path_view(r.1@) == path_view(self.checkpoints@[k].stack@),
    {
        let mut i = self.checkpoints.len();
        while i > 0
            invariant
                i <= self.checkpoints@.len(),
                self.wf_for(lines@),
                forall|j: int| i <= j < self.checkpoints@.len() ==> (#[trigger] self.checkpoints@[j]).line > line,
            decreases i,
        {
            if self.checkpoints[i - 1].line <= line {
                let stack = copy_path(self.checkpoints[i - 1].stack.as_slice());
                assert(path_view(self.checkpoints@[i - 1].stack@) == path_after(
                    lines@,
                    self.checkpoints@[i - 1].line as int,
                ));
                assert(latest_at_or_before(self.checkpoints@, line, i - 1));
                return (self.checkpoints[i - 1].line, stack);
            }
            i -= 1;
        }
        (0, Vec::new())
    }

    /// Remembers the path in force after `line` lines, on every interval.
    fn remember_checkpoint(&mut self, line: usize, stack: &[PathEntry], lines: Ghost<Seq<String>>)
        requires
            old(self).wf_for(lines@),
            path_view(stack@) == path_after(lines@, line as int),
        ensures
            final(self).wf_for(lines@),
            line == 0 || line % CHECKPOINT_INTERVAL != 0 ==> final(self).checkpoints@ == old(
                self,
            ).checkpoints@,
            line > 0 && line % CHECKPOINT_INTERVAL == 0 ==> exists|i: int|
                placed_at(
                    old(self).checkpoints@,
                    final(self).checkpoints@,
                    i,
                    line,
                    path_view(stack@),
                ),
    {
        if line == 0 || line % CHECKPOINT_INTERVAL != 0 {
            return;
        }
        let n = self.checkpoints.len();
        let mut i: usize = 0;
        while i < n && self.checkpoints[i].line < line
            invariant
                i <= n == self.checkpoints@.len(),
                forall|j: int| 0 <= j < i ==> (#[trigger] self.checkpoints@[j]).line < line,
            decreases n - i,
        {
            i += 1;
        }
        let copy = copy_path(stack);
        let ghost before = self.checkpoints@;
        if i < n && self.checkpoints[i].line == line {
            self.checkpoints.remove(i);
            self.checkpoints.insert(i, PathCheckpoint { line, stack: copy });
            proof {
                assert forall|a: int| 0 <= a < self.checkpoints@.len() && a != i implies self.checkpoints@[a]
                    == before[a] by {}
                assert(placed_at(before, self.checkpoints@, i as int, line, path_view(stack@)));
            }
        } else {
            self.checkpoints.insert(i, PathCheckpoint { line, stack: copy });
            proof {
                assert forall|a: int| 0 <= a < i implies self.checkpoints@[a] == before[a] by {}
                assert forall|a: int| i < a < self.checkpoints@.len() implies self.checkpoints@[a]
                    == before[a - 1] by {}
                assert(placed_at(before, self.checkpoints@, i as int, line, path_view(stack@)));
            }
        }
    }

    /// The keys leading to line `line` of `lines` (the last line if it lies
    /// beyond): the path in force before it, with the line's own key.
    pub fn path_for_line(&mut self, lines: &[String], line: usize) -> (keys: Vec<String>)
        requires
            old(self).wf_for(lines@),
        ensures
            final(self).wf_for(lines@),
            key_texts(keys@) == breadcrumb_path(lines@, line as int),
    {
        let n = lines.len();
        if n == 0 {
            return Vec::new();
        }
        let line = if line < n - 1 {
            line
        } else {
            n - 1
        };
        let (start, mut stack) = self.checkpoint_before(line, Ghost(lines@));
        let mut next = start;
        while next < line
            invariant
                next <= line < n == lines@.len(),
                path_view(stack@) == path_after(lines@, next as int),
                self.wf_for(lines@),
            decreases line - next,
        {
            let kind = classify_json_line(lines[next].as_str());
            apply_line_to_stack(&mut stack, kind);
            next += 1;
            self.remember_checkpoint(next, stack.as_slice(), Ghost(lines@));
        }
        let kind = classify_json_line(lines[line].as_str());
        path_for_current_line(stack.as_slice(), kind)
    }
}

} // verus!

verus! {

/// The keys kept, last first, when fitting the path's tail into `budget`
/// chars: keys are taken from the end while they fit (the last always, each
/// other with a three-char separator), and an ellipsis marks where the rest
/// was dropped. `k` keys are left to look at, `used` chars are spent.
pub open spec fn tail_pick(path: Seq<Seq<char>>, k: int, used: int, budget: int) -> Seq<Seq<char>>
    decreases k,
{
    if k <= 0 || k > path.len() {
        Seq::empty()
    } else {
        let first = k == path.len();
        let next = path[k - 1].len() + if first {
            0int
        } else {
            3int
        };
        let limit = if budget >= 2 {
            budget - 2
        } else {
            0
        };
        if !first && used + next > limit {
            seq![seq!['.', '.', '.']]
        } else {
            seq![path[k - 1]] + tail_pick(path, k - 1, used + next, budget)
        }
    }
}

/// The tail of the path that fits `max_rows` rows of `width` chars, with an
/// ellipsis first where keys were dropped.
pub open spec fn fit_tail_spec(path: Seq<Seq<char>>, width: int, max_rows: int) -> Seq<Seq<char>> {
    let budget = if width * max_rows > usize::MAX {
        usize::MAX as int
    } else {
        width * max_rows
    };
    tail_pick(path, path.len() as int, 0, budget).reverse()
}

/// Keeps the keys at the end of the path that fit the rows.
pub fn fit_path_tail(path: &[String], width: usize, max_rows: usize) -> (kept: Vec<String>)
    ensures
        key_texts(kept@) == fit_tail_spec(key_texts(path@), width as int, max_rows as int),
{
    let budget: usize = if max_rows != 0 && width > usize::MAX / max_rows {
        usize::MAX
    } else {
        proof {
            if max_rows != 0 {
                vstd::arithmetic::mul::lemma_mul_inequality(width as int, (usize::MAX / max_rows) as int, max_rows as int);
                vstd::arithmetic::div_mod::lemma_fundamental_div_mod(usize::MAX as int, max_rows as int);
                vstd::arithmetic::div_mod::lemma_mod_bound(usize::MAX as int, max_rows as int);
                assert((usize::MAX / max_rows) as int * max_rows <= usize::MAX) by (nonlinear_arith)
                    requires
                        max_rows > 0,
                        usize::MAX as int == max_rows * (usize::MAX / max_rows) as int + usize::MAX as int % max_rows as int,
                        usize::MAX as int % max_rows as int >= 0,
                ;
            }
        }
        width * max_rows
    };
    proof {
        if !(max_rows != 0 && width > usize::MAX / max_rows) {
            if max_rows == 0 {
                assert(width * max_rows == 0) by (nonlinear_arith) requires max_rows == 0;
            }
        } else {
            assert(width * max_rows > usize::MAX) by (nonlinear_arith)
                requires
                    max_rows > 0,
                    width > usize::MAX / max_rows,
            ;
        }
    }
    let limit = if budget >= 2 {
        budget - 2
    } else {
        0
    };
    let ghost texts = key_texts(path@);
    let mut picked: Vec<String> = Vec::new();
    let mut used: usize = 0;
    let mut k = path.len();
    let n = path.len();
    proof {
        assert(picked@.len() == 0);
    }
    while k > 0
        invariant_except_break
            tail_pick(texts, n as int, 0, budget as int) == key_texts(picked@) + tail_pick(
                texts,
                k as int,
                used as int,
                budget as int,
            ),
        invariant
            k <= n == path@.len(),
            texts == key_texts(path@),
            limit == (if budget >= 2 {
                budget - 2
            } else {
                0
            }),
            k == n ==> used == 0 && picked@.len() == 0,
        ensures
            tail_pick(texts, n as int, 0, budget as int) == key_texts(picked@),
        decreases k,
    {
        let key = &path[k - 1];
        let key_width = chars_of(key.as_str()).len();
        assert(texts[k - 1] == path@[k - 1]@);
        let first = k == n;
        let next: usize = if first {
            key_width
        } else if key_width > usize::MAX - 3 {
            usize::MAX
        } else {
            key_width + 3
        };
        let too_wide = !first && (next > limit || used > limit - next);
        if too_wide {
            let mut dots = String::new();
            push_str(&mut dots, "...");
            proof {
                reveal_strlit("...");
            }
            let ghost before = picked@;
            assert(dots@ =~= seq!['.', '.', '.']);
            picked.push(dots);
            proof {
                lemma_key_texts_push(before, dots);
                assert(key_texts(picked@) =~= key_texts(before).push(seq!['.', '.', '.']));
                assert(tail_pick(texts, k as int, used as int, budget as int) == seq![seq!['.', '.', '.']]);
                assert(key_texts(before) + seq![seq!['.', '.', '.']] =~= key_texts(before).push(seq!['.', '.', '.']));
            }
            break;
        }
        let ghost before = picked@;
        let owned = key.clone();
        picked.push(owned);
        proof {
            lemma_key_texts_push(before, owned);
            assert(key_texts(picked@) =~= key_texts(before).push(texts[k - 1]));
            let rest = tail_pick(texts, k - 1, used + next, budget as int);
            assert(tail_pick(texts, k as int, used as int, budget as int) == seq![texts[k - 1]] + rest);
            assert(key_texts(before) + (seq![texts[k - 1]] + rest) =~= key_texts(picked@) + rest);
        }
        used = if first {
            next
        } else {
            used + next
        };
        k -= 1;
    }
    let mut kept: Vec<String> = Vec::new();
    let mut i = picked.len();
    while i > 0
        invariant
            i <= picked@.len(),
            key_texts(kept@) == key_texts(picked@).skip(i as int).reverse(),
        decreases i,
    {
        let ghost before = kept@;
        let owned = picked[i - 1].clone();
        kept.push(owned);
        i -= 1;
        proof {
            lemma_key_texts_push(before, owned);
            let whole = key_texts(picked@);
            assert forall|j: int| 0 <= j < whole.skip(i as int).len() implies #[trigger] whole.skip(i as int).reverse()[j]
                == key_texts(kept@)[j] by {
                if j < whole.skip(i as int).len() - 1 {
                    assert(whole.skip(i as int).reverse()[j] == whole.skip(i + 1).reverse()[j]);
                }
            }
            assert(key_texts(kept@) =~= key_texts(picked@).skip(i as int).reverse());
        }
    }
    assert(key_texts(picked@).skip(0) =~= key_texts(picked@));
    kept
}

} // verus!

verus! {

/// `key` cut to `width` chars, an ellipsis standing for what was cut.
pub open spec fn truncate_spec(key: Seq<char>, width: int) -> Seq<char> {
    if key.len() <= width {
        key
    } else if width <= 1 {
        seq!['…']
    } else {
        key.take(width - 1).push('…')
    }
}

/// A key shortened to fit `width` chars.
pub fn truncate_key(key: &str, width: usize) -> (out: String)
    ensures
        out@ == truncate_spec(key@, width as int),
{
    let cs = chars_of(key);
    if cs.len() <= width {
        let mut out = String::new();
        push_chars(&mut out, cs.as_slice());
        assert(out@ =~= key@);
        return out;
    }
    let mut out = String::new();
    if width <= 1 {
        string_push(&mut out, '…');
        assert(out@ =~= seq!['…']);
        return out;
    }
    push_chars(&mut out, vstd::slice::slice_subrange(cs.as_slice(), 0, width - 1));
    string_push(&mut out, '…');
    assert(out@ =~= key@.take(width - 1).push('…'));
    out
}

/// The width in chars of a row of spans.
pub open spec fn row_width(row: Seq<StyledText>) -> int {
    spans_text(row).len() as int
}

/// A row of spans by what it shows: each span's text and colour.
pub open spec fn span_views(row: Seq<StyledText>) -> Seq<(Seq<char>, SpanStyle)> {
    Seq::new(row.len(), |k: int| (row[k].text@, row[k].style))
}

/// Rows of spans by what they show.
pub open spec fn rows_views(rows: Seq<Vec<StyledText>>) -> Seq<Seq<(Seq<char>, SpanStyle)>> {
    Seq::new(rows.len(), |r: int| span_views(rows[r]@))
}

/// The separator between two keys of a row: ` › ` in the gutter's colour.
pub open spec fn separator_views() -> Seq<(Seq<char>, SpanStyle)> {
    seq![(seq![' '], SpanStyle::Gutter), (seq!['›'], SpanStyle::Gutter), (seq![' '], SpanStyle::Gutter)]
}

/// Puts `key` at the end of the row being filled, after a separator when the
/// row has keys already, cut to the width left.
pub open spec fn add_key(
    rows: Seq<Seq<(Seq<char>, SpanStyle)>>,
    current: Seq<(Seq<char>, SpanStyle)>,
    used: int,
    key: Seq<char>,
    width: int,
) -> (Seq<Seq<(Seq<char>, SpanStyle)>>, Seq<(Seq<char>, SpanStyle)>, int, bool) {
    let (row, taken) = if current.len() > 0 {
        (current + separator_views(), used + 3)
    } else {
        (current, used)
    };
    let text = truncate_spec(key, if width > taken {
        width - taken
    } else {
        0
    });
    (rows, row.push((text, SpanStyle::Key)), taken + text.len(), false)
}

/// Lays key number `index` out: on the row being filled if it fits there
/// after a separator, else on a new row; the layout stops once `max_rows`
/// rows are full.
pub open spec fn place_key(
    state: (Seq<Seq<(Seq<char>, SpanStyle)>>, Seq<(Seq<char>, SpanStyle)>, int, bool),
    key: Seq<char>,
    index: int,
    width: int,
    max_rows: int,
) -> (Seq<Seq<(Seq<char>, SpanStyle)>>, Seq<(Seq<char>, SpanStyle)>, int, bool) {
    let (rows, current, used, stopped) = state;
    let separator = if index > 0 {
        3int
    } else {
        0
    };
    if stopped {
        state
    } else if current.len() > 0 && used + separator + key.len() > width {
        if rows.len() + 1 >= max_rows {
            (rows.push(current), Seq::empty(), 0, true)
        } else {
            add_key(rows.push(current), Seq::empty(), 0, key, width)
        }
    } else {
        add_key(rows, current, used, key, width)
    }
}

/// The layout after the first `n` keys.
pub open spec fn layout_keys(keys: Seq<Seq<char>>, n: int, width: int, max_rows: int) -> (
    Seq<Seq<(Seq<char>, SpanStyle)>>,
    Seq<(Seq<char>, SpanStyle)>,
    int,
    bool,
)
    decreases n,
{
    if n <= 0 {
        (Seq::empty(), Seq::empty(), 0, false)
    } else {
        place_key(layout_keys(keys, n - 1, width, max_rows), keys[n - 1], n - 1, width, max_rows)
    }
}

/// The rows of the breadcrumb for `path`: the tail of it that fits, laid out
/// key by key, the last row kept when there is room for it.
pub open spec fn breadcrumb_spec(path: Seq<Seq<char>>, width: int, max_rows: int) -> Seq<
    Seq<(Seq<char>, SpanStyle)>,
> {
    if max_rows == 0 {
        Seq::empty()
    } else {
        let keys = fit_tail_spec(path, width, max_rows);
        let (rows, current, _, stopped) = layout_keys(keys, keys.len() as int, width, max_rows);
        if stopped || current.len() == 0 || rows.len() >= max_rows {
            rows
        } else {
            rows.push(current)
        }
    }
}

/// Once the rows are full, later keys change nothing.
proof fn lemma_layout_stays_stopped(keys: Seq<Seq<char>>, i: int, n: int, width: int, max_rows: int)
    requires
        0 <= i <= n,
        layout_keys(keys, i, width, max_rows).3,
    ensures
        layout_keys(keys, n, width, max_rows) == layout_keys(keys, i, width, max_rows),
    decreases n - i,
{
    if n > i {
        lemma_layout_stays_stopped(keys, i, n - 1, width, max_rows);
    }
}

/// Lays the tail of the path out in at most `max_rows` rows of `width`
/// chars, keys separated by ` › `, a key that fits no row cut to fit.
pub fn breadcrumb_lines(path: &[String], width: usize, max_rows: usize) -> (rows: Vec<
    Vec<StyledText>,
>)
    ensures
        rows_views(rows@) == breadcrumb_spec(key_texts(path@), width as int, max_rows as int),
        rows@.len() <= max_rows,
        forall|r: int| 0 <= r < rows@.len() ==> (#[trigger] rows@[r])@.len() > 0,
        width >= 1 ==> forall|r: int| 0 <= r < rows@.len() ==> row_width(#[trigger] rows@[r]@)
            <= width,
{
    let mut rows: Vec<Vec<StyledText>> = Vec::new();
    if max_rows == 0 {
        return rows;
    }
    let visible = fit_path_tail(path, width, max_rows);
    let mut current: Vec<StyledText> = Vec::new();
    let mut used: usize = 0;
    let mut index: usize = 0;
    let ghost keys = key_texts(visible@);
    proof {
        assert(span_views(current@) =~= Seq::<(Seq<char>, SpanStyle)>::empty());
        assert(rows_views(rows@) =~= Seq::<Seq<(Seq<char>, SpanStyle)>>::empty());
    }
    while index < visible.len()
        invariant
            keys == key_texts(visible@),
            index <= visible@.len(),
            keys == fit_tail_spec(key_texts(path@), width as int, max_rows as int),
            layout_keys(keys, index as int, width as int, max_rows as int) == (
                rows_views(rows@),
                span_views(current@),
                used as int,
                false,
            ),
            max_rows > 0,
            rows@.len() < max_rows,
            forall|r: int| 0 <= r < rows@.len() ==> (#[trigger] rows@[r])@.len() > 0,
            width >= 1 ==> forall|r: int| 0 <= r < rows@.len() ==> row_width(#[trigger] rows@[r]@)
                <= width,
            used == spans_text(current@).len(),
            current@.len() == 0 ==> used == 0,
            index == 0 ==> current@.len() == 0,
            used <= width || (width == 0 && used <= 1),
        decreases visible@.len() - index,
    {
        let key = &visible[index];
        let key_width = chars_of(key.as_str()).len();
        assert(keys[index as int] == key@);
        let ghost before_rows = rows_views(rows@);
        let ghost before_current = span_views(current@);
        let ghost before_used = used as int;
        let separator_width: usize = if index > 0 {
            3
        } else {
            0
        };
        let fits = width >= used && width - used >= separator_width && width - used
            - separator_width >= key_width;
        if current.len() > 0 && !fits {
            let ghost cur = current@;
            rows.push(current);
            current = Vec::new();
            used = 0;
            proof {
                assert(rows_views(rows@) =~= before_rows.push(span_views(cur)));
                assert(span_views(current@) =~= Seq::<(Seq<char>, SpanStyle)>::empty());
            }
            if rows.len() >= max_rows {
                proof {
                    lemma_layout_stays_stopped(
                        keys,
                        index + 1,
                        keys.len() as int,
                        width as int,
                        max_rows as int,
                    );
                }
                return rows;
            }
        }
        let ghost mid_current = span_views(current@);
        let ghost mid_used = used as int;
        if current.len() > 0 {
            let ghost before = current@;
            assert(fits);
            let mut space = String::new();
            push_str(&mut space, " ");
            let mut mark = String::new();
            string_push(&mut mark, '›');
            let mut space2 = String::new();
            push_str(&mut space2, " ");
            proof {
                reveal_strlit(" ");
            }
            let s1 = StyledText { text: space, style: SpanStyle::Gutter };
            let s2 = StyledText { text: mark, style: SpanStyle::Gutter };
            let s3 = StyledText { text: space2, style: SpanStyle::Gutter };
            assert(s1.text@.len() == 1 && s2.text@.len() == 1 && s3.text@.len() == 1);
            proof {
                lemma_spans_text_push(current@, s1);
                lemma_spans_text_push(current@.push(s1), s2);
                lemma_spans_text_push(current@.push(s1).push(s2), s3);
            }
            current.push(s1);
            current.push(s2);
            current.push(s3);
            used = used + 3;
            proof {
                assert(s1.text@ =~= seq![' ']);
                assert(s2.text@ =~= seq!['›']);
                assert(s3.text@ =~= seq![' ']);
                assert(span_views(current@) =~= mid_current + separator_views());
            }
        }
        let available = if width > used {
            width - used
        } else {
            0
        };
        let text = truncate_key(key.as_str(), available);
        let ghost text_view = text@;
        let text_width = chars_of(text.as_str()).len();
        proof {
            if key@.len() > available && available > 1 {
                assert(key@.take(available - 1).push('…').len() == available);
            }
            if current@.len() > 0 {
                assert(key@.len() <= available);
            }
        }
        let span = StyledText { text, style: SpanStyle::Key };
        proof {
            lemma_spans_text_push(current@, span);
        }
        let ghost before_push = current@;
        current.push(span);
        used = used + text_width;
        proof {
            assert(span_views(current@) =~= span_views(before_push).push((text_view, SpanStyle::Key)));
        }
        index += 1;
    }
    let ghost cur = current@;
    let ghost before_rows = rows_views(rows@);
    if current.len() > 0 && rows.len() < max_rows {
        rows.push(current);
        assert(rows_views(rows@) =~= before_rows.push(span_views(cur)));
    }
    proof {
        assert(layout_keys(keys, keys.len() as int, width as int, max_rows as int) == (
            before_rows,
            span_views(cur),
            used as int,
            false,
        ));
    }
    rows
}

} // verus!

verus! {

/// Puts `indent_width` spaces, in the gutter's colour, before each row.
pub fn indent_lines(rows: Vec<Vec<StyledText>>, indent_width: usize) -> (out: Vec<Vec<StyledText>>)
    ensures
        indent_width == 0 ==> out@ == rows@,
        indent_width > 0 ==> out@.len() == rows@.len() && forall|r: int|
            0 <= r < rows@.len() ==> (#[trigger] out@[r])@.len() == rows@[r]@.len() + 1
                && out@[r]@[0].style == SpanStyle::Gutter && out@[r]@[0].text@ == Seq::new(
                indent_width as nat,
                |i: int| ' ',
            ) && out@[r]@.skip(1) == rows@[r]@,
{
    if indent_width == 0 {
        return rows;
    }
    let mut out: Vec<Vec<StyledText>> = Vec::new();
    let mut rows = rows;
    let ghost given = rows@;
    let mut i: usize = 0;
    let n = rows.len();
    while i < n
        invariant
            i <= n == given.len(),
            rows@ == given.skip(i as int),
            out@.len() == i,
            forall|r: int|
                0 <= r < i ==> (#[trigger] out@[r])@.len() == given[r]@.len() + 1
                    && out@[r]@[0].style == SpanStyle::Gutter && out@[r]@[0].text@ == Seq::new(
                    indent_width as nat,
                    |i: int| ' ',
                ) && out@[r]@.skip(1) == given[r]@,
        decreases n - i,
    {
        let mut spaces = String::new();
        let mut k: usize = 0;
        while k < indent_width
            invariant
                k <= indent_width,
                spaces@ == Seq::new(k as nat, |i: int| ' '),
            decreases indent_width - k,
        {
            string_push(&mut spaces, ' ');
            k += 1;
            assert(spaces@ =~= Seq::new(k as nat, |i: int| ' '));
        }
        let row = rows.remove(0);
        assert(row == given[i as int]);
        assert(rows@ =~= given.skip(i + 1));
        let mut line: Vec<StyledText> = Vec::new();
        line.push(StyledText { text: spaces, style: SpanStyle::Gutter });
        let mut tail = row;
        let ghost tail_view = tail@;
        line.append(&mut tail);
        assert(line@.skip(1) =~= tail_view);
        out.push(line);
        i += 1;
    }
    out
}

/// The keys leading to line `line` of `lines` (the last line if it lies
/// beyond): the path in force before it, with the line's own key; none for
/// no lines.
pub open spec fn breadcrumb_path(lines: Seq<String>, line: int) -> Seq<Seq<char>> {
    if lines.len() == 0 {
        Seq::empty()
    } else {
        let l = if line < lines.len() - 1 {
            line
        } else {
            lines.len() - 1
        };
        keys_of(
            apply_spec(
                path_after(lines, l),
                match classify_spec(lines[l]@) {
                    LineShape::Closing(_) => LineShape::Other,
                    other => other,
                },
            ),
        )
    }
}

/// Rows with `indent` spaces in the gutter's colour put before each.
pub open spec fn indented_views(rows: Seq<Seq<(Seq<char>, SpanStyle)>>, indent: int) -> Seq<
    Seq<(Seq<char>, SpanStyle)>,
> {
    if indent == 0 {
        rows
    } else {
        Seq::new(
            rows.len(),
            |r: int| seq![(Seq::new(indent as nat, |i: int| ' '), SpanStyle::Gutter)] + rows[r],
        )
    }
}

/// The content width and row count the breadcrumb gets, or none when the
/// view is too narrow or too low for it.
pub open spec fn breadcrumb_room(width: int, indent_width: int, available_rows: int) -> Option<(int, int)> {
    let content_width = if width > indent_width {
        width - indent_width
    } else {
        0
    };
    if content_width < MIN_BREADCRUMB_WIDTH || available_rows < 5 {
        None
    } else {
        Some(
            (
                content_width,
                if MAX_BREADCRUMB_ROWS < available_rows - 3 {
                    MAX_BREADCRUMB_ROWS as int
                } else {
                    available_rows - 3
                },
            ),
        )
    }
}

impl JsonBreadcrumbCache {
    /// The breadcrumb shown above the view at line `line` of `lines`: the keys
    /// leading there, in at most two rows (fewer when the view is short) of the
    /// width left after the indent; nothing when the view is too narrow or low
    /// or the line has no path.
    pub fn render(
        &mut self,
        lines: &[String],
        line: usize,
        width: usize,
        indent_width: usize,
        available_rows: usize,
    ) -> (rows: Vec<Vec<StyledText>>)
        requires
            old(self).wf_for(lines@),
        ensures
            final(self).wf_for(lines@),
            rows_views(rows@) == match breadcrumb_room(width as int, indent_width as int, available_rows as int) {
                None => Seq::empty(),
                Some((content_width, max_rows)) => {
                    let path = breadcrumb_path(lines@, line as int);
                    if path.len() == 0 {
                        Seq::empty()
                    } else {
                        indented_views(breadcrumb_spec(path, content_width, max_rows), indent_width as int)
                    }
                },
            },
            rows@.len() <= MAX_BREADCRUMB_ROWS,
    {
        let content_width = if width > indent_width {
            width - indent_width
        } else {
            0
        };
        if content_width < MIN_BREADCRUMB_WIDTH || available_rows < 5 {
            let none: Vec<Vec<StyledText>> = Vec::new();
            assert(rows_views(none@) =~= Seq::<Seq<(Seq<char>, SpanStyle)>>::empty());
            return none;
        }
        let path = self.path_for_line(lines, line);
        if path.len() == 0 {
            let none: Vec<Vec<StyledText>> = Vec::new();
            assert(rows_views(none@) =~= Seq::<Seq<(Seq<char>, SpanStyle)>>::empty());
            return none;
        }
        let max_rows = if MAX_BREADCRUMB_ROWS < available_rows - 3 {
            MAX_BREADCRUMB_ROWS
        } else {
            available_rows - 3
        };
        let laid = breadcrumb_lines(path.as_slice(), content_width, max_rows);
        let ghost laid_view = laid@;
        let out = indent_lines(laid, indent_width);
        proof {
            if indent_width > 0 {
                assert forall|r: int| 0 <= r < out@.len() implies span_views(#[trigger] out@[r]@) =~= seq![
                    (Seq::new(indent_width as nat, |i: int| ' '), SpanStyle::Gutter),
                ] + span_views(laid_view[r]@) by {
                    assert(out@[r]@.skip(1) == laid_view[r]@);
                    assert forall|k: int| 1 <= k < out@[r]@.len() implies out@[r]@[k] == laid_view[r]@[k - 1] by {
                        assert(out@[r]@.skip(1)[k - 1] == out@[r]@[k]);
                    }
                }
                assert(rows_views(out@) =~= indented_views(rows_views(laid_view), indent_width as int));
            }
        }
        out
    }
}

} // verus!
