use mdbook_katex::normalize::{normalize_tex_for_katex, strip_markdown_blockquote_prefix};

#[test]
fn strips_marker_of_single_line() {
    let r = strip_markdown_blockquote_prefix("> \\int_0^1 f(x)dx");
    assert!(r.is_rewritten());
    assert_eq!(r.as_str(), "\\int_0^1 f(x)dx");
}

#[test]
fn leaves_unquoted_fragment_untouched() {
    let r = strip_markdown_blockquote_prefix("a > b\n> c");
    assert!(!r.is_rewritten());
    assert_eq!(r.as_str(), "a > b\n> c");
}

#[test]
fn strips_every_line_of_quoted_fragment() {
    let r = strip_markdown_blockquote_prefix("\n  > a\n>b\n \t>\tc\nd\n>  e\n");
    assert_eq!(r.into_string(), "\na\nb\nc\nd\n e\n");
}

#[test]
fn blank_lines_before_the_quote_are_skipped() {
    let r = strip_markdown_blockquote_prefix(" \u{a0}\r\n\n> x");
    assert!(r.is_rewritten());
    assert_eq!(r.as_str(), " \u{a0}\r\n\nx");
}

#[test]
fn marker_alone_is_removed() {
    assert_eq!(strip_markdown_blockquote_prefix(">").as_str(), "");
    assert_eq!(strip_markdown_blockquote_prefix(">\n>").as_str(), "\n");
}

#[test]
fn empty_and_blank_fragments_are_untouched() {
    assert!(!strip_markdown_blockquote_prefix("").is_rewritten());
    assert!(!strip_markdown_blockquote_prefix("  \n\t\n").is_rewritten());
    assert_eq!(strip_markdown_blockquote_prefix("  \n\t\n").as_str(), "  \n\t\n");
}

#[test]
fn carriage_return_before_marker_is_no_indent() {
    let r = strip_markdown_blockquote_prefix("\r> x");
    assert!(!r.is_rewritten());
}

#[test]
fn replaces_backslash_command() {
    let r = normalize_tex_for_katex("A \\backslash B \\backslash\\backslash");
    assert!(r.is_rewritten());
    assert_eq!(r.as_str(), "A \\setminus B \\setminus\\setminus");
}

#[test]
fn leaves_other_commands_untouched() {
    let r = normalize_tex_for_katex("A \\setminus B \\backslas h");
    assert!(!r.is_rewritten());
    assert_eq!(r.as_str(), "A \\setminus B \\backslas h");
}

#[test]
fn keeps_characters_outside_ascii() {
    let r = normalize_tex_for_katex("α\\backslashβ");
    assert_eq!(r.as_str(), "α\\setminusβ");
}
