use mdbook_katex::chapter::{process_chapter, process_chapter_reporting};
use mdbook_katex::render::{
    outcome_of, prepare, render, render_fragment, render_outcome, Delimiter, EngineFailure,
    ExtraOpts, Severity,
};

fn extra(include_src: bool) -> ExtraOpts {
    ExtraOpts {
        include_src,
        block_delimiter: Delimiter { left: "$$".to_string(), right: "$$".to_string() },
        inline_delimiter: Delimiter { left: "\\(".to_string(), right: "\\)".to_string() },
    }
}

#[test]
fn prepared_fragment_has_no_marker_and_no_broken_command() {
    assert_eq!(prepare("> A \\backslash B\n> C"), "A \\setminus B\nC");
    assert_eq!(prepare("A \\setminus B"), "A \\setminus B");
}

#[test]
fn failure_keeps_the_fragment_as_written_between_inline_delimiters() {
    let outcome = Err(EngineFailure::Execution("ParseError".to_string()));
    let out = render_outcome("> a \\backslash b", &outcome, &extra(true), false);
    assert_eq!(out, "\\(> a \\backslash b\\)");
}

#[test]
fn failure_keeps_the_fragment_as_written_between_block_delimiters() {
    let outcome = Err(EngineFailure::Other("no engine".to_string()));
    let out = render_outcome("x_1\n", &outcome, &extra(false), true);
    assert_eq!(out, "$$x_1\n$$");
}

#[test]
fn markup_is_put_on_one_line_and_escaped() {
    let outcome = Ok("<span class=\"a_b\">x_1\n</span>\n".to_string());
    let out = render_outcome("x_1", &outcome, &extra(false), false);
    assert_eq!(out, "<span class=\"a_b\">x&#95;1 </span> ");
}

#[test]
fn source_is_kept_in_data_element() {
    let outcome = Ok("<b>r_s</b>".to_string());
    let out = render_outcome("foo\"bar\n", &outcome, &extra(true), true);
    assert_eq!(
        out,
        "<data class=\"katex-src\" value=\"foo\\\"bar&#10;\"><b>r&#95;s</b></data>"
    );
}

#[test]
fn kept_source_has_no_marker_but_its_own_commands() {
    let outcome = Ok("<i>h</i>".to_string());
    let out = render_outcome("> a \\backslash b", &outcome, &extra(true), false);
    assert_eq!(out, "<data class=\"katex-src\" value=\"a \\backslash b\"><i>h</i></data>");
}

#[test]
fn failure_severity() {
    assert_eq!(EngineFailure::Execution(String::new()).severity(), Severity::Warning);
    assert_eq!(EngineFailure::Other(String::new()).severity(), Severity::Error);
}

#[test]
fn engine_renders_a_fragment() {
    let out = render("x^2", katex::Opts::default(), extra(false), false);
    assert_ne!(out, "x^2");
    assert!(out.contains("class=\"katex\""));
    assert!(!out.contains('\n'));
}

#[test]
fn engine_failure_is_reported_and_fragment_kept() {
    let opts = katex::Opts::default();
    let (out, failure) = render_fragment("\\frac{", &opts, &extra(false), true);
    assert_eq!(out, "$$\\frac{$$");
    assert!(matches!(failure, Some(EngineFailure::Execution(_))));
}

#[test]
fn chapter_without_math_is_unchanged() {
    let opts = katex::Opts::default();
    let text = "# Title\n\nSome `$code$` and text_with_underscores.\n";
    assert_eq!(process_chapter(text, &opts, &opts, &extra(false)), text);
}

#[test]
fn chapter_with_failing_math_is_unchanged_and_reports() {
    let opts = katex::Opts::default();
    let text = "a \\(\\frac{\\) b $$\\left($$ c";
    let (out, failures) = process_chapter_reporting(text, &opts, &opts, &extra(false));
    assert_eq!(out, text);
    assert_eq!(failures.len(), 2);
}

#[test]
fn chapter_math_is_replaced_in_place() {
    let opts = katex::Opts::default();
    let out = process_chapter("before \\(x\\) after", &opts, &opts, &extra(true));
    assert!(out.starts_with("before <data class=\"katex-src\" value=\"x\">"));
    assert!(out.ends_with("</data> after"));
}

#[test]
fn engine_answer_is_read_by_its_kind() {
    match outcome_of(Ok("<b>x</b>".to_string())) {
        Ok(html) => assert_eq!(html, "<b>x</b>"),
        Err(_) => panic!("markup was lost"),
    }
    match outcome_of(Err(katex::Error::JsExecError("ParseError".to_string()))) {
        Err(EngineFailure::Execution(why)) => assert_eq!(why, "ParseError"),
        _ => panic!("expected a failure while running"),
    }
    match outcome_of(Err(katex::Error::JsInitError("no engine".to_string()))) {
        Err(EngineFailure::Other(why)) => assert_eq!(why, "no engine"),
        _ => panic!("expected a failure of the other kind"),
    }
    match outcome_of(Err(katex::Error::JsValueError("no string".to_string()))) {
        Err(EngineFailure::Other(why)) => assert_eq!(why, "no string"),
        _ => panic!("expected a failure of the other kind"),
    }
}
