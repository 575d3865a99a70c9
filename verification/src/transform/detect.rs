//! Picking the formats to try for an input.
use vstd::prelude::*;

use super::types::FormatKind;

verus! {

/// `kinds` with `kind` added at the end unless it is already there.
pub open spec fn push_unique_spec(kinds: Seq<FormatKind>, kind: FormatKind) -> Seq<FormatKind> {
    if kinds.contains(kind) {
        kinds
    } else {
        kinds.push(kind)
    }
}

pub fn push_unique(kinds: &mut Vec<FormatKind>, kind: FormatKind)
    ensures
        final(kinds)@ == push_unique_spec(old(kinds)@, kind),
{
    let mut i: usize = 0;
    while i < kinds.len()
        invariant
            i <= kinds.len(),
            kinds@ == old(kinds)@,
            forall|j: int| 0 <= j < i ==> kinds@[j] != kind,
        decreases kinds.len() - i,
    {
        if kinds[i] == kind {
            return;
        }
        i += 1;
    }
    kinds.push(kind);
}

/// The formats to try, in order, for a request of `requested` on input
/// whose content looks like `detected`.
pub open spec fn candidate_kinds_spec(requested: FormatKind, detected: FormatKind) -> Seq<
    FormatKind,
> {
    if requested != FormatKind::Auto {
        seq![requested]
    } else {
        let k0 = seq![detected];
        let k1 = if detected == FormatKind::Json {
            push_unique_spec(k0, FormatKind::Jsonl)
        } else {
            k0
        };
        push_unique_spec(
            push_unique_spec(
                push_unique_spec(push_unique_spec(k1, FormatKind::Json), FormatKind::Jsonl),
                FormatKind::Xml,
            ),
            FormatKind::Plain,
        )
    }
}

/// The formats to try, in order: the requested one alone, or for `Auto` the
/// detected one first and then JSON, JSONL, XML and, last, plain text, each
/// once.
pub fn candidate_kinds(requested: FormatKind, detected: FormatKind) -> (kinds: Vec<FormatKind>)
    ensures
        kinds@ == candidate_kinds_spec(requested, detected),
{
    if requested != FormatKind::Auto {
        let mut v = Vec::new();
        v.push(requested);
        return v;
    }
    let mut kinds: Vec<FormatKind> = Vec::new();
    push_unique(&mut kinds, detected);
    assert(kinds@ =~= seq![detected]);
    if detected == FormatKind::Json {
        push_unique(&mut kinds, FormatKind::Jsonl);
    }
    push_unique(&mut kinds, FormatKind::Json);
    push_unique(&mut kinds, FormatKind::Jsonl);
    push_unique(&mut kinds, FormatKind::Xml);
    push_unique(&mut kinds, FormatKind::Plain);
    kinds
}

pub open spec fn lower(c: char) -> char {
    if 'A' <= c <= 'Z' {
        ((c as u32) + 32) as char
    } else {
        c
    }
}

/// Whether `s` equals `target` (lower-case ASCII) ignoring ASCII case.
pub open spec fn eq_ignore_case(s: Seq<char>, target: Seq<char>) -> bool {
    s.len() == target.len() && forall|i: int| 0 <= i < s.len() ==> lower(#[trigger] s[i]) == target[i]
}

fn eq_ascii_ignore_case(s: &[char], target: &str) -> (r: bool)
    ensures
        r == eq_ignore_case(s@, target@),
{
    let t = crate::text::chars_of(target);
    if s.len() != t.len() {
        return false;
    }
    let mut i: usize = 0;
    while i < s.len()
        invariant
            i <= s.len(),
            s@.len() == t@.len(),
            t@ == target@,
            forall|j: int| 0 <= j < i ==> lower(#[trigger] s@[j]) == t@[j],
        decreases s.len() - i,
    {
        let c = s[i];
        let l = if 'A' <= c && c <= 'Z' {
            ((c as u8) + 32) as char
        } else {
            c
        };
        assert(l == lower(c));
        if l != t[i] {
            return false;
        }
        i += 1;
    }
    true
}

/// The kind that a file extension names, compared without regard to ASCII case.
pub open spec fn kind_from_extension_spec(ext: Seq<char>) -> Option<FormatKind> {
    if eq_ignore_case(ext, "json"@) {
        Some(FormatKind::Json)
    } else if eq_ignore_case(ext, "jsonl"@) || eq_ignore_case(ext, "ndjson"@) {
        Some(FormatKind::Jsonl)
    } else if eq_ignore_case(ext, "xml"@) || eq_ignore_case(ext, "html"@) || eq_ignore_case(
        ext,
        "htm"@,
    ) || eq_ignore_case(ext, "xhtml"@) {
        Some(FormatKind::Xml)
    } else {
        None
    }
}

/// An extension equal to `xml`, `html`, `htm` or `xhtml`, in any ASCII case,
/// names markup; `json` names JSON; `jsonl` and `ndjson` name JSON lines.
pub proof fn law_extension_names_kind(ext: Seq<char>)
    ensures
        eq_ignore_case(ext, "json"@) ==> kind_from_extension_spec(ext) == Some(FormatKind::Json),
        eq_ignore_case(ext, "jsonl"@) || eq_ignore_case(ext, "ndjson"@) ==> kind_from_extension_spec(
            ext,
        ) == Some(FormatKind::Jsonl),
        eq_ignore_case(ext, "xml"@) || eq_ignore_case(ext, "html"@) || eq_ignore_case(ext, "htm"@)
            || eq_ignore_case(ext, "xhtml"@) ==> kind_from_extension_spec(ext) == Some(
            FormatKind::Xml,
        ),
{
    reveal_strlit("json");
    reveal_strlit("jsonl");
    reveal_strlit("ndjson");
    reveal_strlit("xml");
    reveal_strlit("html");
    reveal_strlit("htm");
    reveal_strlit("xhtml");
    if eq_ignore_case(ext, "html"@) {
        assert(lower(ext[0]) == 'h');
    }
    if eq_ignore_case(ext, "xhtml"@) {
        assert(lower(ext[0]) == 'x');
    }
}

/// The kind that a file extension names, if it names one.
pub fn kind_from_extension(ext: &str) -> (r: Option<FormatKind>)
    ensures
        r == kind_from_extension_spec(ext@),
{
    let e = crate::text::chars_of(ext);
    let e = e.as_slice();
    if eq_ascii_ignore_case(e, "json") {
        Some(FormatKind::Json)
    } else if eq_ascii_ignore_case(e, "jsonl") || eq_ascii_ignore_case(e, "ndjson") {
        Some(FormatKind::Jsonl)
    } else if eq_ascii_ignore_case(e, "xml") || eq_ascii_ignore_case(e, "html")
        || eq_ascii_ignore_case(e, "htm") || eq_ascii_ignore_case(e, "xhtml") {
        Some(FormatKind::Xml)
    } else {
        None
    }
}

pub open spec fn is_ascii_ws_byte(b: u8) -> bool {
    b == 0x20 || b == 0x09 || b == 0x0a || b == 0x0c || b == 0x0d
}

/// The first byte of `prefix` that is not ASCII whitespace.
pub open spec fn first_non_ws_spec(prefix: Seq<u8>) -> Option<u8>
    decreases prefix.len(),
{
    if prefix.len() == 0 {
        None
    } else if is_ascii_ws_byte(prefix[0]) {
        first_non_ws_spec(prefix.drop_first())
    } else {
        Some(prefix[0])
    }
}

/// The kind that the start of the content suggests: markup for `<`, JSON
/// (documents or record streams) for `{` or `[`, and plain text otherwise.
pub open spec fn kind_from_prefix_spec(prefix: Seq<u8>) -> FormatKind {
    match first_non_ws_spec(prefix) {
        Some(b) => if b == 0x3c {
            FormatKind::Xml
        } else if b == 0x7b || b == 0x5b {
            FormatKind::Json
        } else {
            FormatKind::Plain
        },
        None => FormatKind::Plain,
    }
}

pub fn kind_from_prefix(prefix: &[u8]) -> (k: FormatKind)
    ensures
        k == kind_from_prefix_spec(prefix@),
{
    let mut i: usize = 0;
    assert(prefix@.subrange(0, prefix@.len() as int) =~= prefix@);
    while i < prefix.len() && (prefix[i] == 0x20 || prefix[i] == 0x09 || prefix[i] == 0x0a
        || prefix[i] == 0x0c || prefix[i] == 0x0d)
        invariant
            i <= prefix.len(),
            first_non_ws_spec(prefix@.subrange(i as int, prefix@.len() as int)) == first_non_ws_spec(
                prefix@,
            ),
        decreases prefix.len() - i,
    {
        assert(prefix@.subrange(i as int, prefix@.len() as int).drop_first() =~= prefix@.subrange(
            i + 1,
            prefix@.len() as int,
        ));
        i += 1;
    }
    assert(prefix@.subrange(0, prefix@.len() as int) =~= prefix@);
    if i == prefix.len() {
        return FormatKind::Plain;
    }
    let b = prefix[i];
    if b == 0x3c {
        FormatKind::Xml
    } else if b == 0x7b || b == 0x5b {
        FormatKind::Json
    } else {
        FormatKind::Plain
    }
}

} // verus!
