//! Formatting one record (one JSONL line or one in-memory value).
use vstd::prelude::*;

use super::detect::is_ascii_ws_byte;
use super::json::{
    is_json_ws, skip_ws_spec, value_spec,
    format_json, format_json_spec, format_json_value, format_jsonl, jsonl_failure, jsonl_from,
    trim_line_end, trim_line_end_spec, JsonError, JsonlError,
};
use super::types::{FormatKind, FormatOptions};
use crate::bytes::{bytes_to_vec, push_bytes};
use crate::text::{lines_from, split_lines, string_from_utf8, string_from_utf8_lossy, lossy_utf8};

verus! {

/// Why a record could not be formatted.
#[derive(Debug, Clone, Copy, PartialEq, Eq)]
pub enum RecordError {
    /// The record is not one JSON value.
    Json(JsonError),
    /// Markup formatting is not part of this library.
    XmlUnsupported,
    /// The formatted bytes were not UTF-8.
    NotUtf8,
}

/// What formatting a record as `kind` gives: the pretty JSON for JSON kinds,
/// the input unchanged for passthrough kinds, and nothing for markup.
pub open spec fn format_record_spec(input: Seq<u8>, kind: FormatKind, indent: nat) -> Option<
    Seq<u8>,
> {
    match kind {
        FormatKind::Json | FormatKind::Jsonl => format_json_spec(input, indent),
        FormatKind::Plain | FormatKind::Jinja => Some(input),
        _ => None,
    }
}

/// How many bytes to reserve for formatting `input_len` bytes.
pub open spec fn record_output_capacity_spec(input_len: int) -> int {
    if input_len >= 1024 * 1024 {
        let extra = input_len / 3;
        if input_len + extra > usize::MAX {
            usize::MAX as int
        } else {
            input_len + extra
        }
    } else {
        let doubled = input_len * 2;
        if doubled < 128 {
            128
        } else if doubled > 8192 {
            8192
        } else {
            doubled
        }
    }
}

pub fn record_output_capacity(input_len: usize) -> (n: usize)
    ensures
        n == record_output_capacity_spec(input_len as int),
{
    if input_len >= 1024 * 1024 {
        return input_len.saturating_add(input_len / 3);
    }
    let doubled = if input_len > usize::MAX / 2 {
        usize::MAX
    } else {
        input_len * 2
    };
    if doubled < 128 {
        128
    } else if doubled > 8192 {
        8192
    } else {
        doubled
    }
}

/// Formats one record as `kind`.
pub fn format_record_to_bytes(input: &[u8], kind: FormatKind, indent: usize) -> (r: Result<
    Vec<u8>,
    RecordError,
>)
    requires
        kind != FormatKind::Auto,
    ensures
        match format_record_spec(input@, kind, indent as nat) {
            Some(out) => r is Ok && r->Ok_0@ == out,
            None => r is Err,
        },
        kind == FormatKind::Xml ==> r == Err::<Vec<u8>, RecordError>(RecordError::XmlUnsupported),
        (kind == FormatKind::Json || kind == FormatKind::Jsonl) && r is Err ==> r->Err_0 is Json,
{
    match kind {
        FormatKind::Json | FormatKind::Jsonl => match format_json_value(input, indent) {
            Ok(out) => Ok(out),
            Err(e) => Err(RecordError::Json(e)),
        },
        FormatKind::Plain | FormatKind::Jinja => Ok(bytes_to_vec(input)),
        _ => Err(RecordError::XmlUnsupported),
    }
}

/// Formats one record as `kind` into a string.
pub fn format_record_to_string(input: &[u8], kind: FormatKind, indent: usize) -> (r: Result<
    String,
    RecordError,
>)
    requires
        kind != FormatKind::Auto,
    ensures
        match format_record_spec(input@, kind, indent as nat) {
            Some(out) => if vstd::utf8::valid_utf8(out) {
                r is Ok && r->Ok_0@ == vstd::utf8::decode_utf8(out)
            } else {
                r == Err::<String, RecordError>(RecordError::NotUtf8)
            },
            None => r is Err,
        },
        kind == FormatKind::Xml ==> r == Err::<String, RecordError>(RecordError::XmlUnsupported),
        (kind == FormatKind::Json || kind == FormatKind::Jsonl) && format_record_spec(input@, kind, indent as nat)
            is None ==> r is Err && r->Err_0 is Json,
{
    let output = match format_record_to_bytes(input, kind, indent) {
        Ok(output) => output,
        Err(e) => return Err(e),
    };
    match string_from_utf8(output) {
        Some(s) => Ok(s),
        None => Err(RecordError::NotUtf8),
    }
}

/// Why a file could not be formatted as the format tried.
#[derive(Debug, Clone, Copy, PartialEq, Eq)]
pub enum SourceError {
    /// The file is not one JSON value.
    Json(JsonError),
    /// A line of the file is not one JSON value.
    Jsonl(JsonlError),
    /// Markup formatting is not part of this library.
    XmlUnsupported,
}

/// What formatting a whole file as `kind` gives: the pretty JSON value and a
/// new line, the pretty JSON lines, the file unchanged for passthrough kinds,
/// and nothing for markup.
pub open spec fn format_source_spec(input: Seq<u8>, kind: FormatKind, indent: nat) -> Option<
    Seq<u8>,
> {
    match kind {
        FormatKind::Json => match format_json_spec(input, indent) {
            Some(out) => Some(out.push(0x0a)),
            None => None,
        },
        FormatKind::Jsonl => jsonl_from(input, 0, indent),
        FormatKind::Plain | FormatKind::Jinja => Some(input),
        _ => None,
    }
}

/// Formats the bytes of a whole file as `kind`, which detection has already
/// resolved.
pub fn format_source_bytes(input: &[u8], kind: FormatKind, options: FormatOptions) -> (r: Result<
    Vec<u8>,
    SourceError,
>)
    requires
        kind != FormatKind::Auto,
    ensures
        match format_source_spec(input@, kind, options.indent as nat) {
            Some(out) => r is Ok && r->Ok_0@ == out,
            None => r is Err,
        },
        kind == FormatKind::Json && r is Err ==> r->Err_0 is Json,
        kind == FormatKind::Jsonl && r is Err ==> r->Err_0 is Jsonl && r->Err_0->Jsonl_0.line
            == jsonl_failure(input@, 0, options.indent as nat, 0),
        kind == FormatKind::Xml ==> r == Err::<Vec<u8>, SourceError>(SourceError::XmlUnsupported),
{
    match kind {
        FormatKind::Json => match format_json(input, options.indent) {
            Ok(out) => Ok(out),
            Err(e) => Err(SourceError::Json(e)),
        },
        FormatKind::Jsonl => match format_jsonl(input, options.indent) {
            Ok(out) => Ok(out),
            Err(e) => Err(SourceError::Jsonl(e)),
        },
        FormatKind::Plain | FormatKind::Jinja => Ok(bytes_to_vec(input)),
        _ => Err(SourceError::XmlUnsupported),
    }
}

/// A record line without its line ending.
pub fn trim_record_line_end(line: &[u8]) -> (r: &[u8])
    ensures
        r@ == trim_line_end_spec(line@),
{
    trim_line_end(line)
}

/// `bytes` without leading and trailing ASCII whitespace.
pub open spec fn trim_ascii_ws_spec(bytes: Seq<u8>) -> Seq<u8>
    decreases bytes.len(),
{
    if bytes.len() > 0 && is_ascii_ws_byte(bytes[0]) {
        trim_ascii_ws_spec(bytes.drop_first())
    } else if bytes.len() > 0 && is_ascii_ws_byte(bytes.last()) {
        trim_ascii_ws_spec(bytes.drop_last())
    } else {
        bytes
    }
}

pub fn trim_ascii_ws(bytes: &[u8]) -> (r: &[u8])
    ensures
        r@ == trim_ascii_ws_spec(bytes@),
{
    let mut start: usize = 0;
    let mut end: usize = bytes.len();
    assert(bytes@.subrange(0, bytes@.len() as int) =~= bytes@);
    while start < end && is_ascii_ws(bytes[start])
        invariant
            start <= end == bytes.len(),
            trim_ascii_ws_spec(bytes@.subrange(start as int, end as int)) == trim_ascii_ws_spec(
                bytes@,
            ),
        decreases end - start,
    {
        assert(bytes@.subrange(start as int, end as int).drop_first() =~= bytes@.subrange(
            start + 1,
            end as int,
        ));
        start += 1;
    }
    while start < end && is_ascii_ws(bytes[end - 1])
        invariant
            start <= end <= bytes.len(),
            start < end ==> !is_ascii_ws_byte(bytes@[start as int]),
            trim_ascii_ws_spec(bytes@.subrange(start as int, end as int)) == trim_ascii_ws_spec(
                bytes@,
            ),
        decreases end - start,
    {
        assert(bytes@.subrange(start as int, end as int).drop_last() =~= bytes@.subrange(
            start as int,
            end - 1,
        ));
        end -= 1;
    }
    let r = &bytes[start..end];
    assert(r@ =~= bytes@.subrange(start as int, end as int));
    r
}

fn is_ascii_ws(b: u8) -> (r: bool)
    ensures
        r == is_ascii_ws_byte(b),
{
    b == 0x20 || b == 0x09 || b == 0x0a || b == 0x0c || b == 0x0d
}

/// The kind a record looks like from its first non-blank byte: markup for
/// `<`, JSON for what can start a JSON value, nothing otherwise.
pub open spec fn record_format_kind_spec(line: Seq<u8>) -> Option<FormatKind> {
    let t = trim_ascii_ws_spec(line);
    if t.len() == 0 {
        None
    } else if t[0] == 0x3c {
        Some(FormatKind::Xml)
    } else if t[0] == 0x7b || t[0] == 0x5b || t[0] == 0x22 || t[0] == 0x2d || (0x30 <= t[0]
        <= 0x39) || t[0] == 0x74 || t[0] == 0x66 || t[0] == 0x6e {
        Some(FormatKind::Json)
    } else {
        None
    }
}

pub fn record_format_kind(line: &[u8]) -> (r: Option<FormatKind>)
    ensures
        r == record_format_kind_spec(line@),
{
    let t = trim_ascii_ws(line);
    if t.len() == 0 {
        return None;
    }
    let b = t[0];
    if b == 0x3c {
        Some(FormatKind::Xml)
    } else if b == 0x7b || b == 0x5b || b == 0x22 || b == 0x2d || (0x30 <= b && b <= 0x39)
        || b == 0x74 || b == 0x66 || b == 0x6e {
        Some(FormatKind::Json)
    } else {
        None
    }
}

/// Whether a line formats as the kind it looks like, at two spaces.
pub open spec fn parseable_record_line_spec(line: Seq<u8>) -> bool {
    match record_format_kind_spec(line) {
        Some(kind) => match format_record_spec(line, kind, 2) {
            Some(out) => vstd::utf8::valid_utf8(out),
            None => false,
        },
        None => false,
    }
}

pub fn parseable_record_line(line: &[u8]) -> (r: bool)
    ensures
        r == parseable_record_line_spec(line@),
{
    match record_format_kind(line) {
        Some(kind) => format_record_to_string(line, kind, 2).is_ok(),
        None => false,
    }
}

/// The bytes shown for one record line: blank lines become empty, lines
/// that format as `options.kind` are formatted, and the rest stay as they
/// are (without the line ending).
pub open spec fn format_record_bytes_spec(line: Seq<u8>, options: FormatOptions) -> Option<
    Seq<u8>,
> {
    let trimmed = trim_line_end_spec(line);
    if trim_ascii_ws_spec(trimmed).len() == 0 {
        Some(Seq::empty())
    } else {
        match options.kind {
            FormatKind::Auto => match record_format_kind_spec(trimmed) {
                Some(kind) => match format_record_spec(trimmed, kind, options.indent as nat) {
                    Some(out) => Some(out),
                    None => Some(trimmed),
                },
                None => Some(trimmed),
            },
            FormatKind::Json | FormatKind::Jsonl => format_json_spec(
                trimmed,
                options.indent as nat,
            ),
            FormatKind::Xml => None,
            _ => Some(trimmed),
        }
    }
}

pub fn format_record_bytes(line: &[u8], options: FormatOptions) -> (r: Result<
    Vec<u8>,
    RecordError,
>)
    ensures
        match format_record_bytes_spec(line@, options) {
            Some(out) => r is Ok && r->Ok_0@ == out,
            None => r is Err,
        },
{
    let trimmed = trim_record_line_end(line);
    if trim_ascii_ws(trimmed).len() == 0 {
        return Ok(Vec::new());
    }
    let formatted = match options.kind {
        FormatKind::Auto => match record_format_kind(trimmed) {
            Some(kind) => match format_record_to_bytes(trimmed, kind, options.indent) {
                Ok(out) => Some(out),
                Err(_) => None,
            },
            None => None,
        },
        FormatKind::Json | FormatKind::Jsonl => Some(
            format_record_to_bytes(trimmed, FormatKind::Json, options.indent)?,
        ),
        FormatKind::Xml => Some(format_record_to_bytes(trimmed, FormatKind::Xml, options.indent)?),
        FormatKind::Plain | FormatKind::Jinja => None,
    };
    match formatted {
        Some(out) => Ok(out),
        None => Ok(bytes_to_vec(trimmed)),
    }
}

/// The display lines of one record line.
pub open spec fn format_record_lines_spec(line: Seq<u8>, options: FormatOptions) -> Option<
    Seq<Seq<char>>,
> {
    if trim_ascii_ws_spec(trim_line_end_spec(line)).len() == 0 {
        Some(seq![Seq::<char>::empty()])
    } else {
        match format_record_bytes_spec(line, options) {
            Some(out) => Some(lines_from(lossy_utf8(out), 0)),
            None => None,
        }
    }
}

pub fn format_record_lines(line: &[u8], options: FormatOptions) -> (r: Result<
    Vec<String>,
    RecordError,
>)
    ensures
        match format_record_lines_spec(line@, options) {
            Some(lines) => r is Ok && r->Ok_0@.len() == lines.len() && forall|i: int|
                0 <= i < lines.len() ==> #[trigger] r->Ok_0@[i]@ == lines[i],
            None => r is Err,
        },
{
    let trimmed = trim_record_line_end(line);
    if trim_ascii_ws(trimmed).len() == 0 {
        let mut v = Vec::new();
        v.push(String::new());
        return Ok(v);
    }
    let formatted = format_record_bytes(line, options)?;
    let text = string_from_utf8_lossy(formatted.as_slice());
    Ok(split_lines(text.as_str()))
}


proof fn lemma_skip_ws_prefix(s: Seq<u8>, p: int)
    requires
        0 <= p <= s.len(),
    ensures
        p <= skip_ws_spec(s, p) <= s.len(),
        forall|i: int| p <= i < skip_ws_spec(s, p) ==> is_json_ws(#[trigger] s[i]),
    decreases s.len() - p,
{
    if p < s.len() && is_json_ws(s[p]) {
        lemma_skip_ws_prefix(s, p + 1);
    }
}

/// Trimming blanks keeps the first non-blank byte in front.
proof fn lemma_trim_keeps_first(bytes: Seq<u8>, k: int)
    requires
        0 <= k < bytes.len(),
        !is_ascii_ws_byte(bytes[k]),
        forall|i: int| 0 <= i < k ==> is_ascii_ws_byte(#[trigger] bytes[i]),
    ensures
        trim_ascii_ws_spec(bytes).len() > 0,
        trim_ascii_ws_spec(bytes)[0] == bytes[k],
    decreases bytes.len(),
{
    if is_ascii_ws_byte(bytes[0]) {
        let rest = bytes.drop_first();
        assert forall|i: int| 0 <= i < k - 1 implies is_ascii_ws_byte(#[trigger] rest[i]) by {
            assert(rest[i] == bytes[i + 1]);
        }
        lemma_trim_keeps_first(rest, k - 1);
    } else if is_ascii_ws_byte(bytes.last()) {
        lemma_trim_keeps_first(bytes.drop_last(), k);
    }
}

/// A record whose first non-blank byte is `{` or `[` is taken for JSON.
pub proof fn law_braces_are_json_records(line: Seq<u8>, k: int)
    requires
        0 <= k < line.len(),
        line[k] == 0x7b || line[k] == 0x5b,
        forall|i: int| 0 <= i < k ==> is_ascii_ws_byte(#[trigger] line[i]),
    ensures
        record_format_kind_spec(line) == Some(FormatKind::Json),
{
    lemma_trim_keeps_first(line, k);
}

/// In automatic mode a record line holding one well-formed JSON value is
/// shown in its pretty form.
pub proof fn law_auto_formats_json_records(line: Seq<u8>, options: FormatOptions)
    requires
        options.kind is Auto,
        format_json_spec(trim_line_end_spec(line), options.indent as nat) is Some,
    ensures
        format_record_bytes_spec(line, options) == format_json_spec(
            trim_line_end_spec(line),
            options.indent as nat,
        ),
{
    let t = trim_line_end_spec(line);
    let ind = Seq::new(options.indent as nat, |i: int| 0x20u8);
    assert(value_spec(t, 0, 0, ind) is Some);
    lemma_skip_ws_prefix(t, 0);
    let q = skip_ws_spec(t, 0);
    assert(q < t.len());
    assert forall|i: int| 0 <= i < q implies is_ascii_ws_byte(#[trigger] t[i]) by {
        assert(is_json_ws(t[i]));
    }
    lemma_trim_keeps_first(t, q);
    assert(record_format_kind_spec(t) == Some(FormatKind::Json));
}

} // verus!
