use scfmt::scfmt::{add_brackets, format_str, null_existing_brackets, remove_brackets, ScfmtErr};

#[test]
fn format_preserves_ending_empty_lines() {
    let formatted = format_str("", "rs").unwrap();
    assert_eq!(formatted, "");
    let formatted = format_str("//>\n//<", "rs").unwrap();
    assert_eq!(formatted, "//>\n//<");
    let formatted = format_str("//>\n//<\n", "rs").unwrap();
    assert_eq!(formatted, "//>\n//<\n");
    let formatted = format_str("//>\n//<\n\n", "rs").unwrap();
    assert_eq!(formatted, "//>\n//<\n\n");
    let formatted = format_str("//>\n//<\n\n\n", "rs").unwrap();
    assert_eq!(formatted, "//>\n//<\n\n\n");
    let formatted = format_str("//>\n//<\n\n\n ", "rs").unwrap();
    assert_eq!(formatted, "//>\n//<\n\n\n");
}

#[test]
fn remove_brackets_preserves_ending_empty_lines() {
    let formatted = remove_brackets("", "rs").unwrap();
    assert_eq!(formatted, "");
    let formatted = remove_brackets("//>\n    let a = 0;\n//<", "rs").unwrap();
    assert_eq!(formatted, "//\n    let a = 0;");
    let formatted = remove_brackets("//>\n    let a = 0;\n//<\n", "rs").unwrap();
    assert_eq!(formatted, "//\n    let a = 0;\n");
    let formatted = remove_brackets("//>\n    let a = 0;\n//<\n\n", "rs").unwrap();
    assert_eq!(formatted, "//\n    let a = 0;\n\n");
    let formatted = remove_brackets("//>\n    let a = 0;\n//<\n\n\n", "rs").unwrap();
    assert_eq!(formatted, "//\n    let a = 0;\n\n\n");
    let formatted = remove_brackets("//>\n    let a = 0;\n//<\n\n\n ", "rs").unwrap();
    assert_eq!(formatted, "//\n    let a = 0;\n\n\n");
}

#[test]
fn add_brackets_preserves_ending_empty_lines() {
    let formatted = add_brackets("", "rs").unwrap();
    assert_eq!(formatted, "");
    let formatted = add_brackets("//\n    let a = 0;", "rs").unwrap();
    assert_eq!(formatted, "//>\n    let a = 0;\n//<");
    let formatted = add_brackets("//\n    let a = 0;\n", "rs").unwrap();
    assert_eq!(formatted, "//>\n    let a = 0;\n//<\n");
    let formatted = add_brackets("//\n    let a = 0;\n\n", "rs").unwrap();
    assert_eq!(formatted, "//>\n    let a = 0;\n//<\n\n");
    let formatted = add_brackets("//\n    let a = 0;\n\n\n", "rs").unwrap();
    assert_eq!(formatted, "//>\n    let a = 0;\n//<\n\n\n");
    let formatted = add_brackets("//\n    let a = 0;\n\n\n ", "rs").unwrap();
    assert_eq!(formatted, "//>\n    let a = 0;\n//<\n\n\n");
}

#[test]
fn null_brackets_preserves_ending_empty_lines() {
    let formatted = null_existing_brackets("", "rs").unwrap();
    assert_eq!(formatted, "");
    let formatted = null_existing_brackets("//>\n//<", "rs").unwrap();
    assert_eq!(formatted, "//_>\n//_<");
    let formatted = null_existing_brackets("//>\n//<\n", "rs").unwrap();
    assert_eq!(formatted, "//_>\n//_<\n");
    let formatted = null_existing_brackets("//>\n//<\n\n", "rs").unwrap();
    assert_eq!(formatted, "//_>\n//_<\n\n");
    let formatted = null_existing_brackets("//>\n//<\n\n\n", "rs").unwrap();
    assert_eq!(formatted, "//_>\n//_<\n\n\n");
    let formatted = null_existing_brackets("//>\n//<\n\n\n ", "rs").unwrap();
    assert_eq!(formatted, "//_>\n//_<\n\n\n");
}

#[test]
fn preserve_closing_comment_content() {
    let formatted = format_str("//>\n//< test", "rs").unwrap();
    assert_eq!(formatted, "//>\n//<\n// test");
}

#[test]
fn preserve_closing_comment_content_and_spacing() {
    let formatted = format_str("//>\n// < test", "rs").unwrap();
    assert_eq!(formatted, "//>\n// <\n// test");
}

#[test]
fn nullify_brackets() {
    let formatted = null_existing_brackets("//>\n    //>\n//\n    //<\n//<", "rs").unwrap();
    assert_eq!(formatted, "//_>\n    //_>\n//\n    //_<\n//_<");
}

#[test]
fn incompatible_file_type() {
    let result = format_str("", "");
    assert_eq!(result, Err(ScfmtErr::IncompatibleFileType));

    let result = add_brackets("", "");
    assert_eq!(result, Err(ScfmtErr::IncompatibleFileType));

    let result = remove_brackets("", "");
    assert_eq!(result, Err(ScfmtErr::IncompatibleFileType));

    let result = null_existing_brackets("", "");
    assert_eq!(result, Err(ScfmtErr::IncompatibleFileType));
}
