use fmtview::transform::detect::{candidate_kinds, kind_from_prefix};
use fmtview::transform::engine::{
    format_record_lines, format_record_to_string, format_source_bytes, trim_record_line_end,
    RecordError, SourceError,
};
use fmtview::transform::json::{
    format_json, format_json_value, format_jsonl, JsonError, Utf8Validator,
};
use fmtview::transform::types::{FormatKind, FormatOptions};

#[test]
fn trims_crlf_line_endings() {
    assert_eq!(trim_record_line_end(b"{\"a\":1}\r\n"), b"{\"a\":1}");
}

#[test]
fn preserves_empty_jsonl_lines() {
    let line = b"\n";
    assert!(trim_record_line_end(line).is_empty());
}

#[test]
fn trims_only_one_line_ending() {
    assert_eq!(trim_record_line_end(b"abc\n\n"), b"abc\n");
    assert_eq!(trim_record_line_end(b"abc"), b"abc");
    assert_eq!(trim_record_line_end(b"\r"), b"");
    assert_eq!(trim_record_line_end(b"a\n\r"), b"a\n");
}

#[test]
fn formats_a_json_record_with_the_indent() {
    let out = format_record_to_string(b"{\"a\":[1,true,null]}", FormatKind::Json, 2).unwrap();
    assert_eq!(out, "{\n  \"a\": [\n    1,\n    true,\n    null\n  ]\n}");
}

#[test]
fn formats_empty_containers_compactly() {
    let out = format_record_to_string(b"{\"a\":{},\"b\":[]}", FormatKind::Json, 4).unwrap();
    assert_eq!(out, "{\n    \"a\": {},\n    \"b\": []\n}");
}

#[test]
fn rejects_trailing_garbage() {
    assert!(format_record_to_string(b"{} x", FormatKind::Json, 2).is_err());
}

#[test]
fn formats_json_value_with_escapes_kept() {
    let out = format_json_value(b"\"a\\u00e9\\n\"", 2).unwrap();
    assert_eq!(out, b"\"a\\u00e9\\n\"".to_vec());
}

#[test]
fn json_errors_name_what_went_wrong() {
    assert!(matches!(format_json_value(b"[1,]", 2), Err(JsonError::UnexpectedByte { .. })));
    assert!(format_json_value(b"", 2).is_err());
    assert!(format_json_value(b"01", 2).is_err());
}

#[test]
fn formats_each_jsonl_record_on_its_own() {
    let out = format_jsonl(b"{\"a\":1}\n[2]\n", 2).unwrap();
    assert_eq!(String::from_utf8(out).unwrap(), "{\n  \"a\": 1\n}\n[\n  2\n]\n");
}

#[test]
fn record_lines_split_the_formatted_record() {
    let options = FormatOptions { kind: FormatKind::Jsonl, indent: 2 };
    let lines = format_record_lines(b"{\"a\":1}\n", options).unwrap();
    assert_eq!(lines, vec!["{".to_owned(), "  \"a\": 1".to_owned(), "}".to_owned()]);
}

#[test]
fn plain_records_pass_through() {
    let out = format_record_to_string(b"not json", FormatKind::Plain, 2).unwrap();
    assert_eq!(out, "not json");
}

#[test]
fn xml_records_are_refused() {
    assert!(matches!(
        format_record_to_string(b"<a/>", FormatKind::Xml, 2),
        Err(RecordError::XmlUnsupported)
    ));
}

#[test]
fn json_file_ends_with_a_new_line() {
    assert_eq!(format_json(br#"{"a":1}"#, 2).unwrap(), b"{\n  \"a\": 1\n}\n".to_vec());
    assert!(format_json(b"{", 2).is_err());
}

#[test]
fn source_formatting_dispatches_on_kind() {
    let options = FormatOptions { kind: FormatKind::Auto, indent: 2 };
    assert_eq!(
        format_source_bytes(b"[1,2]", FormatKind::Json, options).unwrap(),
        b"[\n  1,\n  2\n]\n".to_vec()
    );
    assert_eq!(
        format_source_bytes(b"{\"a\":1}\n\n[]\n", FormatKind::Jsonl, options).unwrap(),
        b"{\n  \"a\": 1\n}\n\n[]\n".to_vec()
    );
    assert_eq!(
        format_source_bytes(b"  {{ x }}  ", FormatKind::Jinja, options).unwrap(),
        b"  {{ x }}  ".to_vec()
    );
    assert_eq!(
        format_source_bytes(b"<a/>", FormatKind::Xml, options),
        Err(SourceError::XmlUnsupported)
    );
    assert!(matches!(
        format_source_bytes(b"nope", FormatKind::Json, options),
        Err(SourceError::Json(_))
    ));
    match format_source_bytes(b"{}\n{\n", FormatKind::Jsonl, options) {
        Err(SourceError::Jsonl(error)) => assert_eq!(error.line, 2),
        other => panic!("unexpected {other:?}"),
    }
}

#[test]
fn unknown_content_falls_back_to_plain_text() {
    assert_eq!(kind_from_prefix(b"hello world\n"), FormatKind::Plain);
    assert_eq!(kind_from_prefix(b"  \n"), FormatKind::Plain);
    assert_eq!(kind_from_prefix(b"  {\"a\":1}"), FormatKind::Json);
    assert_eq!(kind_from_prefix(b"<a/>"), FormatKind::Xml);
    assert_eq!(
        candidate_kinds(FormatKind::Auto, FormatKind::Plain),
        vec![FormatKind::Plain, FormatKind::Json, FormatKind::Jsonl, FormatKind::Xml]
    );
    assert_eq!(
        candidate_kinds(FormatKind::Auto, FormatKind::Json),
        vec![FormatKind::Json, FormatKind::Jsonl, FormatKind::Xml, FormatKind::Plain]
    );
}

/// Feeds `bytes` to a fresh check: the index of the refused byte, `bytes.len()`
/// when only the finish fails, or `None` when all is well formed.
fn utf8_failure(bytes: &[u8]) -> Option<usize> {
    let mut check = Utf8Validator::new();
    for (i, b) in bytes.iter().enumerate() {
        if check.accept(*b).is_err() {
            return Some(i);
        }
    }
    if check.finish().is_err() {
        Some(bytes.len())
    } else {
        None
    }
}

#[test]
fn utf8_check_refuses_exactly_the_ill_formed_sequences() {
    assert_eq!(utf8_failure(&[0xC2, 0xA9]), None);
    assert_eq!(utf8_failure(&[0xF0, 0x9F, 0x98, 0x80]), None);
    assert_eq!(utf8_failure(&[0xE0, 0x80]), Some(1));
    assert_eq!(utf8_failure(&[0xED, 0xA0]), Some(1));
    assert_eq!(utf8_failure(&[0xF4, 0x90]), Some(1));
    assert_eq!(utf8_failure(&[0xC0]), Some(0));
    assert_eq!(utf8_failure(&[0xC3]), Some(1));
    for bytes in [&[0xC2u8, 0xA9][..], &[0xED, 0x9F, 0xBF][..], &[0xE0, 0x80][..], &[0xC3][..]] {
        assert_eq!(utf8_failure(bytes).is_none(), std::str::from_utf8(bytes).is_ok());
    }
}
