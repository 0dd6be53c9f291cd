use mdbook_katex::render::{Delimiter, ExtraOpts};
use mdbook_katex::scan::{join, scan, Segment};

fn dollars() -> ExtraOpts {
    ExtraOpts {
        include_src: false,
        block_delimiter: Delimiter { left: "$$".to_string(), right: "$$".to_string() },
        inline_delimiter: Delimiter { left: "$".to_string(), right: "$".to_string() },
    }
}

fn brackets() -> ExtraOpts {
    ExtraOpts {
        include_src: false,
        block_delimiter: Delimiter { left: "\\[".to_string(), right: "\\]".to_string() },
        inline_delimiter: Delimiter { left: "\\(".to_string(), right: "\\)".to_string() },
    }
}

fn shape(segments: &[Segment]) -> Vec<(String, Option<bool>)> {
    segments
        .iter()
        .map(|s| match s {
            Segment::Plain(t) => (t.clone(), None),
            Segment::Math { tex, display } => (tex.clone(), Some(*display)),
        })
        .collect()
}

fn plain(t: &str) -> (String, Option<bool>) {
    (t.to_string(), None)
}

fn math(t: &str, display: bool) -> (String, Option<bool>) {
    (t.to_string(), Some(display))
}

#[test]
fn text_without_math_is_one_plain_segment() {
    let s = scan("no math here", &dollars());
    assert_eq!(shape(&s), vec![plain("no math here")]);
}

#[test]
fn empty_text_has_no_segment() {
    assert!(scan("", &dollars()).is_empty());
}

#[test]
fn inline_and_display_math_are_found() {
    let s = scan("a $x$ b $$y$$ c", &dollars());
    assert_eq!(
        shape(&s),
        vec![plain("a "), math("x", false), plain(" b "), math("y", true), plain(" c")]
    );
}

#[test]
fn display_delimiter_is_tried_first() {
    let s = scan("$$a$b$$", &dollars());
    assert_eq!(shape(&s), vec![math("a$b", true)]);
}

#[test]
fn adjacent_fragments_have_no_plain_between() {
    let s = scan("$a$$b$", &dollars());
    assert_eq!(shape(&s), vec![math("a", false), math("b", false)]);
}

#[test]
fn unterminated_math_is_plain_text() {
    let s = scan("price: $5 and more", &dollars());
    assert_eq!(shape(&s), vec![plain("price: $5 and more")]);
    let s = scan("a \\[ b", &brackets());
    assert_eq!(shape(&s), vec![plain("a \\[ b")]);
}

#[test]
fn inline_code_hides_delimiters() {
    let s = scan("`$x$` and $y$", &dollars());
    assert_eq!(shape(&s), vec![plain("`$x$` and "), math("y", false)]);
}

#[test]
fn fenced_code_hides_delimiters() {
    let text = "```\n$$a$$ ` $b$\n```\n$c$";
    let s = scan(text, &dollars());
    assert_eq!(shape(&s), vec![plain("```\n$$a$$ ` $b$\n```\n"), math("c", false)]);
}

#[test]
fn unclosed_backticks_are_plain_text() {
    let s = scan("``a $x$", &dollars());
    assert_eq!(shape(&s), vec![plain("``a "), math("x", false)]);
}

#[test]
fn fragments_span_lines_and_keep_other_characters() {
    let s = scan("é \\[ α\n> β \\] ω", &brackets());
    assert_eq!(shape(&s), vec![plain("é "), math(" α\n> β ", true), plain(" ω")]);
}

#[test]
fn pair_with_empty_side_never_opens() {
    let mut opts = dollars();
    opts.inline_delimiter.right = String::new();
    let s = scan("a $x$ b", &opts);
    assert_eq!(shape(&s), vec![plain("a $x$ b")]);
}

#[test]
fn joined_segments_are_the_text() {
    let texts = [
        "",
        "plain",
        "a $x$ b $$y$$ c",
        "$$a$b$$ $ `$` ``` $$ ``` $$q$$ $",
        "$$$ $$$$ $ $$ `",
        "> $$\n> x_1\n> $$\n",
    ];
    for text in texts {
        let segments = scan(text, &dollars());
        assert_eq!(join(&segments, &dollars()), text);
    }
    let text = "\\(a\\)\\[b\\] \\( \\] \\)";
    assert_eq!(join(&scan(text, &brackets()), &brackets()), text);
}
