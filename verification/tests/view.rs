use fmtview::view::{validate_options, ViewOptions};

#[test]
fn rejects_invalid_jsonl_indent_before_entering_the_terminal() {
    let options = ViewOptions {
        indent: 0,
        ..ViewOptions::default()
    };

    assert!(validate_options(&options).is_err());
}

#[test]
fn defaults_are_a_two_space_snapshot() {
    let options = ViewOptions::default();
    assert_eq!(options.indent, 2);
    assert!(!options.follow);
    assert!(options.notice.is_none());
    assert!(validate_options(&options).is_ok());
}

#[test]
fn indents_up_to_sixteen_are_accepted() {
    let mut options = ViewOptions::default();
    options.indent = 16;
    assert!(validate_options(&options).is_ok());
    options.indent = 17;
    let error = validate_options(&options).unwrap_err();
    assert_eq!(error.message, "view indent must be between 1 and 16");
}
