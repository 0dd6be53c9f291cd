use mdbook_katex::escape::{
    collapse_newlines_in, escape_attribute_value, escape_underscores_for_markdown,
};

#[test]
fn escapes_underscore_in_text() {
    let r = escape_underscores_for_markdown("<span>x_1</span>");
    assert!(r.is_rewritten());
    assert_eq!(r.as_str(), "<span>x&#95;1</span>");
}

#[test]
fn keeps_underscore_inside_tag() {
    let r = escape_underscores_for_markdown("<span data-foo=\"a_b\">y</span>");
    assert!(!r.is_rewritten());
    assert_eq!(r.as_str(), "<span data-foo=\"a_b\">y</span>");
}

#[test]
fn escapes_text_but_not_attribute() {
    let r = escape_underscores_for_markdown("_<a b_c=\"d_e\">f_g_</a>_");
    assert_eq!(r.as_str(), "&#95;<a b_c=\"d_e\">f&#95;g&#95;</a>&#95;");
}

#[test]
fn unclosed_tag_hides_the_rest() {
    let r = escape_underscores_for_markdown("a_b<c_d");
    assert_eq!(r.as_str(), "a&#95;b<c_d");
}

#[test]
fn text_without_underscore_is_untouched() {
    let r = escape_underscores_for_markdown("<b>é</b>");
    assert!(!r.is_rewritten());
    assert_eq!(r.into_string(), "<b>é</b>");
}

#[test]
fn newlines_become_spaces() {
    assert_eq!(collapse_newlines_in("a\nb\n\nc"), "a b  c");
    assert_eq!(collapse_newlines_in(""), "");
}

#[test]
fn attribute_value_escapes_quote_and_newline() {
    assert_eq!(escape_attribute_value("foo\"bar\n"), "foo\\\"bar&#10;");
    assert_eq!(escape_attribute_value("plain"), "plain");
}
