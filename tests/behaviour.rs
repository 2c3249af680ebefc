use scfmt::scfmt::{add_brackets, format_str, null_existing_brackets, remove_brackets, ScfmtErr};

#[test]
fn format_indents_region_interior() {
    let to_format = "\n//>\n//this comment and the line below will be indented after formatting\nlet a = 0;\n//<";
    let formatted = "\n//>\n    //this comment and the line below will be indented after formatting\n    let a = 0;\n//<";
    assert_eq!(format_str(to_format, "rs").unwrap(), formatted);
}

#[test]
fn format_is_idempotent_on_example() {
    let once = format_str("//>\nx\n//<> next\ny\n//< done\n", "rs").unwrap();
    assert_eq!(once, "//>\n    x\n//<> next\n    y\n//<\n// done\n");
    let twice = format_str(&once, "rs").unwrap();
    assert_eq!(twice, once);
}

#[test]
fn format_sibling_repairs_each_segment() {
    let formatted = format_str("//>\nx\n//<>\ny\n//<", "rs").unwrap();
    assert_eq!(formatted, "//>\n    x\n//<>\n    y\n//<");
}

#[test]
fn format_uses_tabs_when_tabs_dominate() {
    let formatted = format_str("\t//>\nx\n\t//<", "rs").unwrap();
    assert_eq!(formatted, "\t//>\n\t\tx\n\t//<");
}

#[test]
fn format_uses_detected_width() {
    let formatted = format_str("//>\n  a\n//<\n//>\nb\n//<", "rs").unwrap();
    assert_eq!(formatted, "//>\n  a\n//<\n//>\n  b\n//<");
}

#[test]
fn format_reads_crlf_lines() {
    let formatted = format_str("//>\r\nx\r\n//<\r\n", "rs").unwrap();
    assert_eq!(formatted, "//>\n    x\n//<\n");
}

#[test]
fn format_blank_lines_become_empty() {
    let formatted = format_str("a\n   \nb", "rs").unwrap();
    assert_eq!(formatted, "a\n\nb");
}

#[test]
fn closer_without_opener_is_reported() {
    assert_eq!(format_str("a\n//<", "rs"), Err(ScfmtErr::CommentClosedNothing(2)));
    assert_eq!(format_str("//<>", "rs"), Err(ScfmtErr::CommentClosedNothing(1)));
}

#[test]
fn unclosed_opener_is_reported() {
    assert_eq!(format_str("//>\nx", "rs"), Err(ScfmtErr::CommentNeverClosed(1)));
    assert_eq!(format_str("a\n//>\n//>\n//<", "rs"), Err(ScfmtErr::CommentNeverClosed(2)));
    assert_eq!(format_str("//>\n//>\n", "rs"), Err(ScfmtErr::CommentNeverClosed(2)));
}

#[test]
fn errors_pass_through_remove_and_add() {
    assert_eq!(remove_brackets("//<", "rs"), Err(ScfmtErr::CommentClosedNothing(1)));
    assert_eq!(add_brackets("//>", "rs"), Err(ScfmtErr::CommentNeverClosed(1)));
}

#[test]
fn other_languages_use_their_starter() {
    assert_eq!(format_str("#>\nx\n#<", "sh").unwrap(), "#>\n    x\n#<");
    assert_eq!(format_str("-->\nx\n--<", "lua").unwrap(), "-->\n    x\n--<");
    assert_eq!(format_str("x", "zzz"), Err(ScfmtErr::IncompatibleFileType));
}

#[test]
fn add_brackets_merges_closer_into_sibling() {
    let added = add_brackets("//a\n    x\n//b\n    y", "rs").unwrap();
    assert_eq!(added, "//>a\n    x\n//<>b\n    y\n//<");
}

#[test]
fn add_brackets_ignores_comment_without_deeper_lines() {
    assert_eq!(add_brackets("//a\nx", "rs").unwrap(), "//a\nx");
    assert_eq!(add_brackets("x\n//a", "rs").unwrap(), "x\n//a");
}

#[test]
fn add_brackets_nests() {
    let added = add_brackets("//a\n    //b\n        x\ny", "rs").unwrap();
    assert_eq!(added, "//>a\n    //>b\n        x\n    //<\n//<\ny");
}

#[test]
fn remove_after_add_gives_bracketless_form() {
    let bracketless = remove_brackets("//>a\n    x\n//<>b\n    y\n//<", "rs").unwrap();
    assert_eq!(bracketless, "//a\n    x\n//b\n    y");
    let again = remove_brackets(&add_brackets(&bracketless, "rs").unwrap(), "rs").unwrap();
    assert_eq!(again, bracketless);
}

#[test]
fn nullify_keeps_indentation_and_spacing() {
    assert_eq!(null_existing_brackets("\t//>", "rs").unwrap(), "\t//_>");
    assert_eq!(null_existing_brackets("# > x", "sh").unwrap(), "# _> x");
    assert_eq!(null_existing_brackets("> quote\n// x", "rs").unwrap(), "> quote\n// x");
}

#[test]
fn unmatched_closer_deep_in_a_file() {
    let mut text = String::new();
    for i in 0..45 {
        text.push_str(&format!("let x{} = {};\n", i, i));
    }
    text.push_str("//< stray\nlet y = 1;\n");
    assert_eq!(format_str(&text, "rs"), Err(ScfmtErr::CommentClosedNothing(46)));
}

#[test]
fn sole_opener_never_closed() {
    let text = "//> region\nfn main() {}\n\nlet a = 0;\n";
    assert_eq!(format_str(text, "rs"), Err(ScfmtErr::CommentNeverClosed(1)));
}

#[test]
fn unknown_extension_fails_for_any_text() {
    let text = "//>\n    x\n//<\n";
    assert_eq!(format_str(text, "txt"), Err(ScfmtErr::IncompatibleFileType));
    assert_eq!(add_brackets(text, "txt"), Err(ScfmtErr::IncompatibleFileType));
    assert_eq!(remove_brackets(text, "txt"), Err(ScfmtErr::IncompatibleFileType));
    assert_eq!(null_existing_brackets(text, "txt"), Err(ScfmtErr::IncompatibleFileType));
}

#[test]
fn trailing_blank_lines_kept_by_format_and_nullify() {
    assert_eq!(format_str("//>\nx\n//<\n\n  \n", "rs").unwrap(), "//>\n    x\n//<\n\n\n");
    assert_eq!(null_existing_brackets("// >\n\n\t", "rs").unwrap(), "// _>\n\n");
}

#[test]
fn format_reads_back_its_own_carriage_return() {
    let once = format_str("a\r\r\nb", "rs").unwrap();
    assert_eq!(once, "a\r\nb");
    assert_eq!(format_str(&once, "rs").unwrap(), "a\nb");
}

#[test]
fn add_then_remove_reindents_shallow_region() {
    let bracketless = "//a\n  b\nc\n    d\n    e\n    f\n    g";
    let added = add_brackets(bracketless, "rs").unwrap();
    assert_eq!(added, "//>a\n  b\n//<\nc\n    d\n    e\n    f\n    g");
    let removed = remove_brackets(&added, "rs").unwrap();
    assert_eq!(removed, "//a\n    b\nc\n    d\n    e\n    f\n    g");
}

#[test]
fn remove_brackets_after_blank_interior() {
    assert_eq!(remove_brackets("//>\n\n//<", "rs").unwrap(), "//\n");
}

#[test]
fn whitespace_only_lines_take_no_step() {
    let formatted = format_str("//>\n a\n   b\n \n   c\n//<", "rs").unwrap();
    assert_eq!(formatted, "//>\n  a\n    b\n\n    c\n//<");
}

#[test]
fn remove_brackets_keeps_own_indentation() {
    let removed = remove_brackets("\t//>\n  a\n //<", "rs").unwrap();
    assert_eq!(removed, "\t//\n  a");
    let removed = remove_brackets("\t//>\n\t\ta\n\t//<>\n\t\tb\n\t//<", "rs").unwrap();
    assert_eq!(removed, "\t//\n\t\ta\n\t//\n\t\tb");
}
