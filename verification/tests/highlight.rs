use fmtview::viewer::breadcrumb::{
    breadcrumb_lines, classify_json_line, decode_json_string_content, fit_path_tail,
    truncate_key, JsonBreadcrumbCache, JsonLineKind,
};
use fmtview::viewer::highlight::lines::{highlight_content, highlight_content_window, ViewMode};
use fmtview::viewer::highlight::xml::{XmlPairState, XmlTagKind};
use fmtview::viewer::highlight::{SpanStyle, StyledText};

fn text_of(spans: &[StyledText]) -> String {
    spans.iter().map(|span| span.text.as_str()).collect()
}

fn style_of(spans: &[StyledText], text: &str) -> Option<SpanStyle> {
    spans.iter().find(|span| span.text == text).map(|span| span.style)
}

#[test]
fn json_lines_keep_their_text_and_colour_keys_and_values() {
    let line = "  \"name\": \"value\", \"n\": -1.5e3, \"ok\": true, \"none\": null";
    let spans = highlight_content(line, ViewMode::Plain);
    assert_eq!(text_of(&spans), line);
    assert_eq!(style_of(&spans, "\"name\""), Some(SpanStyle::Key));
    assert_eq!(style_of(&spans, "-1.5e3"), Some(SpanStyle::Number));
    assert_eq!(style_of(&spans, "true"), Some(SpanStyle::Bool));
    assert_eq!(style_of(&spans, "null"), Some(SpanStyle::Null));
}

#[test]
fn escapes_inside_strings_are_marked() {
    let spans = highlight_content("[\"a\\nb\"]", ViewMode::Plain);
    assert_eq!(text_of(&spans), "[\"a\\nb\"]");
    assert_eq!(style_of(&spans, "\\n"), Some(SpanStyle::Escape));
}

#[test]
fn a_window_yields_exactly_its_chars() {
    let line = "{\"key\": \"some longer value\"}";
    let spans = highlight_content_window(line, ViewMode::Plain, 3, 12);
    assert_eq!(text_of(&spans), &line[3..12]);
    let spans = highlight_content_window(line, ViewMode::Plain, 20, 500);
    assert_eq!(text_of(&spans), &line[20..]);
}

#[test]
fn xml_names_take_the_colour_of_their_depth() {
    let line = "<a><b x=\"1\"></b></a>";
    let spans = highlight_content(line, ViewMode::Plain);
    assert_eq!(text_of(&spans), line);
    assert_eq!(style_of(&spans, "a"), Some(SpanStyle::Depth(0)));
    assert_eq!(style_of(&spans, "b"), Some(SpanStyle::Depth(1)));
    assert_eq!(style_of(&spans, "x"), Some(SpanStyle::Attr));
}

#[test]
fn an_unmatched_close_tag_is_an_error() {
    let spans = highlight_content("<a></b>", ViewMode::Plain);
    assert_eq!(style_of(&spans, "b"), Some(SpanStyle::Error));
}

#[test]
fn diff_lines_colour_markers_and_headers() {
    let spans = highlight_content("@@ -1 +1 @@", ViewMode::Diff);
    assert_eq!(spans.len(), 1);
    assert_eq!(spans[0].style, SpanStyle::DiffHunk);
    let spans = highlight_content("+  \"a\": 2,", ViewMode::Diff);
    assert_eq!(text_of(&spans), "+  \"a\": 2,");
    assert_eq!(spans[0].style, SpanStyle::DiffAdded);
    assert_eq!(style_of(&spans, "\"a\""), Some(SpanStyle::Key));
}

#[test]
fn closing_a_tag_right_after_opening_it_restores_the_stack() {
    let mut state = XmlPairState::new();
    let name: Vec<char> = "item".chars().collect();
    let open = state.apply(XmlTagKind::Open, Some(&name), 1);
    let close = state.apply(XmlTagKind::Close, Some(&name), 1);
    assert!(open.matched && close.matched);
    assert_eq!(open.depth, close.depth);
    assert!(state.stack.is_empty());
}

#[test]
fn lines_are_classified_by_key_and_indent() {
    assert_eq!(
        classify_json_line("  \"a\\\"b\": {"),
        JsonLineKind::Key { indent: 2, key: "a\"b".to_owned() }
    );
    assert_eq!(classify_json_line("    ],"), JsonLineKind::Closing { indent: 4 });
    assert_eq!(classify_json_line("  1,"), JsonLineKind::Other);
    assert_eq!(decode_json_string_content(&"x\\u00e9\\ty".chars().collect::<Vec<_>>()), "x\\u00e9\\ty");
}

#[test]
fn breadcrumb_tracks_nested_keys_through_the_cache() {
    let lines: Vec<String> = vec![
        "{".into(),
        "  \"outer\": {".into(),
        "    \"inner\": {".into(),
        "      \"value\": 1".into(),
        "    }".into(),
        "  }".into(),
        "}".into(),
    ];
    let mut cache = JsonBreadcrumbCache::new();
    assert_eq!(cache.path_for_line(&lines, 3), vec!["outer", "inner", "value"]);
    assert_eq!(cache.path_for_line(&lines, 4), vec!["outer", "inner", "value"]);
    assert_eq!(cache.path_for_line(&lines, 5), vec!["outer"]);
    assert_eq!(cache.path_for_line(&lines, 100), Vec::<String>::new());
}

#[test]
fn path_keeps_array_parent_key() {
    let lines: Vec<String> = vec![
        "{".into(),
        "  \"items\": [".into(),
        "    {".into(),
        "      \"name\": \"a\"".into(),
        "    },".into(),
        "    {".into(),
        "      \"name\": \"b\"".into(),
        "    }".into(),
        "  ]".into(),
        "}".into(),
    ];
    let mut cache = JsonBreadcrumbCache::new();
    assert_eq!(cache.path_for_line(&lines, 6), vec!["items", "name"]);
}

#[test]
fn long_paths_keep_their_tail() {
    let path: Vec<String> = ["alpha", "beta", "gamma", "delta"].iter().map(|s| s.to_string()).collect();
    assert_eq!(fit_path_tail(&path, 16, 1), vec!["...", "gamma", "delta"]);
    assert_eq!(truncate_key("abcdef", 4), "abc…");
    assert_eq!(truncate_key("abcdef", 1), "…");
    let rows = breadcrumb_lines(&path, 16, 2);
    assert!(rows.len() <= 2);
    for row in &rows {
        assert!(text_of(row).chars().count() <= 16);
    }
}

fn nested_lines() -> Vec<String> {
    ["{", "  \"outer\": {", "    \"inner\": {", "      \"value\": 1", "    }", "  }", "}"]
        .into_iter()
        .map(str::to_owned)
        .collect()
}

#[test]
fn breadcrumb_tracks_nested_keys() {
    let lines = nested_lines();
    let mut cache = JsonBreadcrumbCache::new();
    let rows = cache.render(&lines, 3, 80, 0, 12);
    assert_eq!(text_of(&rows[0]), "outer › inner › value");
}

#[test]
fn breadcrumb_keeps_array_parent_key() {
    let lines: Vec<String> = [
        "{",
        "  \"items\": [",
        "    {",
        "      \"name\": \"a\"",
        "    },",
        "    {",
        "      \"name\": \"b\"",
        "    }",
        "  ]",
        "}",
    ]
    .into_iter()
    .map(str::to_owned)
    .collect();
    let mut cache = JsonBreadcrumbCache::new();
    let rows = cache.render(&lines, 6, 80, 0, 12);
    assert_eq!(text_of(&rows[0]), "items › name");
}

#[test]
fn breadcrumb_offsets_to_content_column() {
    let lines = nested_lines();
    let mut cache = JsonBreadcrumbCache::new();
    let rows = cache.render(&lines, 3, 80, 5, 12);
    assert_eq!(text_of(&rows[0]), "     outer › inner › value");
}

#[test]
fn breadcrumb_wraps_to_limited_rows() {
    let path = vec!["alpha".to_owned(), "beta".to_owned(), "gamma".to_owned(), "delta".to_owned()];
    let rows = breadcrumb_lines(&path, 16, 2);
    assert_eq!(rows.len(), 2);
}

#[test]
fn xml_inside_a_string_value_is_coloured_as_tags() {
    let spans = highlight_content(r#"{"v": "<a>x</a>"}"#, ViewMode::Plain);
    let got: Vec<(String, SpanStyle)> = spans.iter().map(|s| (s.text.clone(), s.style)).collect();
    let want: Vec<(String, SpanStyle)> = vec![
        ("{", SpanStyle::Punctuation),
        ("\"v\"", SpanStyle::Key),
        (":", SpanStyle::Punctuation),
        (" ", SpanStyle::Default),
        ("\"", SpanStyle::Str),
        ("<", SpanStyle::Punctuation),
        ("a", SpanStyle::Depth(0)),
        (">", SpanStyle::Punctuation),
        ("x", SpanStyle::Str),
        ("<", SpanStyle::Punctuation),
        ("/", SpanStyle::Punctuation),
        ("a", SpanStyle::Depth(0)),
        (">", SpanStyle::Punctuation),
        ("\"", SpanStyle::Str),
        ("}", SpanStyle::Punctuation),
    ]
    .into_iter()
    .map(|(t, s)| (t.to_owned(), s))
    .collect();
    assert_eq!(got, want);
}

#[test]
fn a_window_of_a_json_line_keeps_the_colours_of_the_whole_line() {
    let line = r#"{"key": [1, false]}"#;
    let whole = highlight_content(line, ViewMode::Plain);
    let window = highlight_content_window(line, ViewMode::Plain, 3, 12);
    assert_eq!(text_of(&window), &line[3..12]);
    let styles_whole: Vec<SpanStyle> = whole
        .iter()
        .flat_map(|s| std::iter::repeat(s.style).take(s.text.chars().count()))
        .collect();
    let styles_window: Vec<SpanStyle> = window
        .iter()
        .flat_map(|s| std::iter::repeat(s.style).take(s.text.chars().count()))
        .collect();
    assert_eq!(styles_window, styles_whole[3..12].to_vec());
}
