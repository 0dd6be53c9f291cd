//! Rendering one math fragment: the fragment is prepared, handed to the
//! typesetting engine, and the engine's answer is made into what stands in the
//! chapter in the fragment's place.

use vstd::prelude::*;
use crate::normalize::{
    strip_blockquote,
    engine_safe,
    strip_markdown_blockquote_prefix,
    normalize_tex_for_katex,
};
use crate::escape::{
    on_one_line,
    lemma_collapsed_on_one_line,
    lemma_escape_keeps_one_line,
    lemma_attribute_on_one_line,
    collapse_newlines,
    escape_underscores,
    escape_attribute,
    collapse_newlines_in,
    escape_underscores_for_markdown,
    escape_attribute_value,
};

verus! {

/// The engine's options. Nothing of them is read here: they are handed on.
#[verifier::external_type_specification]
#[verifier::external_body]
pub struct ExOpts(katex::Opts);

/// The engine's error. It is only told apart by `failure_of`.
#[verifier::external_type_specification]
#[verifier::external_body]
pub struct ExEngineError(katex::Error);

/// The two strings between which a math fragment stands.
#[derive(Clone, Debug)]
pub struct Delimiter {
    /// What opens the fragment.
    pub left: String,
    /// What closes it.
    pub right: String,
}

/// What rendering needs to know besides the engine's own options.
#[derive(Clone, Debug)]
pub struct ExtraOpts {
    /// Whether the fragment's source is kept beside the rendered markup.
    pub include_src: bool,
    /// The delimiters of display math.
    pub block_delimiter: Delimiter,
    /// The delimiters of inline math.
    pub inline_delimiter: Delimiter,
}

/// How grave a failure of the engine is for whoever keeps the log.
#[derive(Clone, Copy, Debug, PartialEq, Eq, Structural)]
pub enum Severity {
    /// To be expected now and then, as with a fragment that is no valid TeX.
    Warning,
    /// Not to be expected.
    Error,
}

/// Why the engine gave no markup.
#[derive(Clone, Debug)]
pub enum EngineFailure {
    /// The engine ran and failed on the fragment. Holds its message.
    Execution(String),
    /// Anything else. Holds the details.
    Other(String),
}

impl EngineFailure {
    /// A failure while running is a warning, any other an error.
    pub open spec fn spec_severity(self) -> Severity {
        match self {
            EngineFailure::Execution(_) => Severity::Warning,
            EngineFailure::Other(_) => Severity::Error,
        }
    }

    /// How grave the failure is.
    pub fn severity(&self) -> (s: Severity)
        ensures
            s == self.spec_severity(),
    {
        match self {
            EngineFailure::Execution(_) => Severity::Warning,
            EngineFailure::Other(_) => Severity::Error,
        }
    }
}

impl ExtraOpts {
    /// The delimiters for display math or for inline math.
    pub open spec fn delimiter(self, display: bool) -> Delimiter {
        if display {
            self.block_delimiter
        } else {
            self.inline_delimiter
        }
    }
}

/// What is handed to the engine for a fragment: the fragment without its
/// blockquote markers, and then with the engine's broken command replaced.
pub open spec fn engine_input(item: Seq<char>) -> Seq<char> {
    engine_safe(strip_blockquote(item))
}

/// The engine's markup on one line and with its text underscores escaped.
pub open spec fn inline_safe(html: Seq<char>) -> Seq<char> {
    escape_underscores(collapse_newlines(html))
}

/// What opens the element that keeps the source, up to the attribute's value.
pub open spec fn source_open() -> Seq<char> {
    "<data class=\"katex-src\" value=\""@
}

/// What ends the attribute's value and the opening tag.
pub open spec fn source_mid() -> Seq<char> {
    "\">"@
}

/// What closes the element that keeps the source.
pub open spec fn source_close() -> Seq<char> {
    "</data>"@
}

/// What stands in the chapter for a fragment that the engine rendered as `html`.
pub open spec fn rendered_markup(item: Seq<char>, html: Seq<char>, include_src: bool) -> Seq<char> {
    if include_src {
        source_open() + escape_attribute(strip_blockquote(item)) + source_mid() + inline_safe(html)
            + source_close()
    } else {
        inline_safe(html)
    }
}

/// What stands in the chapter for a fragment that the engine failed on: the
/// fragment as it was, between its delimiters.
pub open spec fn unrendered(item: Seq<char>, extra_opts: ExtraOpts, display: bool) -> Seq<char> {
    extra_opts.delimiter(display).left@ + item + extra_opts.delimiter(display).right@
}

/// What stands in the chapter for a fragment, given the engine's answer.
pub open spec fn render_result(
    item: Seq<char>,
    outcome: Result<String, EngineFailure>,
    extra_opts: ExtraOpts,
    display: bool,
) -> Seq<char> {
    match outcome {
        Ok(html) => rendered_markup(item, html@, extra_opts.include_src),
        Err(_) => unrendered(item, extra_opts, display),
    }
}

/// Whether `out` is what some markup of the engine gives for the fragment.
pub open spec fn is_markup_of(out: Seq<char>, item: Seq<char>, include_src: bool) -> bool {
    exists|html: Seq<char>| out == rendered_markup(item, html, include_src)
}

/// Whether `out` is what some answer of the engine gives for the fragment.
pub open spec fn is_render_of(
    out: Seq<char>,
    item: Seq<char>,
    extra_opts: ExtraOpts,
    display: bool,
) -> bool {
    out == unrendered(item, extra_opts, display) || is_markup_of(
        out,
        item,
        extra_opts.include_src,
    )
}

/// Calls `katex::render_with_opts` on the text and the options. Nothing is
/// claimed of the answer: it is the engine's.
#[verifier::external_body]
fn engine_render(tex: &str, opts: &katex::Opts) -> (r: Result<String, katex::Error>) {
    katex::render_with_opts(tex, opts)
}

/// Tells the variants of `katex::Error` apart: `JsExecError` is a failure
/// while running, the others are of the other kind. The message is moved over.
#[verifier::external_body]
fn failure_of(e: katex::Error) -> (f: EngineFailure) {
    match e {
        katex::Error::JsExecError(why) => EngineFailure::Execution(why),
        katex::Error::JsInitError(why) => EngineFailure::Other(why),
        katex::Error::JsValueError(why) => EngineFailure::Other(why),
        other => EngineFailure::Other(format!("{other:?}")),
    }
}

/// The text that the engine is given for a fragment.
pub fn prepare(item: &str) -> (tex: String)
    ensures
        tex@ == engine_input(item@),
{
    let dequoted = strip_markdown_blockquote_prefix(item);
    let tex = normalize_tex_for_katex(dequoted.as_str()).into_string();
    tex
}

/// Makes the engine's answer into what stands in the chapter. Markup is put
/// on one line, its text underscores are escaped, and where the source is to
/// be kept it is wrapped in a `data` element that holds the fragment without
/// its blockquote markers. After a failure the fragment stands as it was,
/// between the delimiters of its kind.
pub fn render_outcome(
    item: &str,
    outcome: &Result<String, EngineFailure>,
    extra_opts: &ExtraOpts,
    display: bool,
) -> (out: String)
    ensures
        out@ == render_result(item@, *outcome, *extra_opts, display),
{
    let mut out = String::new();
    match outcome {
        Ok(html) => {
            let one_line = collapse_newlines_in(html.as_str());
            let escaped = escape_underscores_for_markdown(one_line.as_str());
            if extra_opts.include_src {
                let dequoted = strip_markdown_blockquote_prefix(item);
                let value = escape_attribute_value(dequoted.as_str());
                out.append("<data class=\"katex-src\" value=\"");
                out.append(value.as_str());
                out.append("\">");
                out.append(escaped.as_str());
                out.append("</data>");
                assert(out@ =~= rendered_markup(item@, html@, true));
            } else {
                out.append(escaped.as_str());
                assert(out@ =~= rendered_markup(item@, html@, false));
            }
        },
        Err(_) => {
            if display {
                out.append(extra_opts.block_delimiter.left.as_str());
                out.append(item);
                out.append(extra_opts.block_delimiter.right.as_str());
            } else {
                out.append(extra_opts.inline_delimiter.left.as_str());
                out.append(item);
                out.append(extra_opts.inline_delimiter.right.as_str());
            }
            assert(out@ =~= unrendered(item@, *extra_opts, display));
        },
    }
    out
}

/// Asks the engine for the markup of a prepared fragment.
fn typeset(tex: &str, opts: &katex::Opts) -> (outcome: Result<String, EngineFailure>) {
    let answer = engine_render(tex, opts);
    let outcome = outcome_of(answer);
    outcome
}

/// Renders a fragment with options that the caller keeps, and hands back the
/// engine's failure, if any, beside the text.
pub fn render_fragment(item: &str, opts: &katex::Opts, extra_opts: &ExtraOpts, display: bool) -> (r:
    (String, Option<EngineFailure>))
    ensures
        is_render_of(r.0@, item@, *extra_opts, display),
        r.1 is Some ==> r.0@ == unrendered(item@, *extra_opts, display),
        r.1 is None ==> is_markup_of(r.0@, item@, extra_opts.include_src),
{
    let tex = prepare(item);
    let outcome = typeset(tex.as_str(), opts);
    let out = render_outcome(item, &outcome, extra_opts, display);
    match outcome {
        Ok(html) => {
            assert(out@ == rendered_markup(item@, html@, extra_opts.include_src));
            (out, None)
        },
        Err(f) => (out, Some(f)),
    }
}

/// Renders the math fragment `item` into markup following `opts`. The markup
/// is wrapped in a `data` element if `extra_opts.include_src` is set. Where
/// the engine fails, the fragment comes back as it was, between its delimiters.
pub fn render(item: &str, opts: katex::Opts, extra_opts: ExtraOpts, display: bool) -> (out: String)
    ensures
        is_render_of(out@, item@, extra_opts, display),
{
    let r = render_fragment(item, &opts, &extra_opts, display);
    r.0
}

/// What stands in the chapter for a rendered fragment is on one line,
/// whatever the fragment and the engine's markup hold.
pub proof fn lemma_rendered_on_one_line(item: Seq<char>, html: Seq<char>, include_src: bool)
    ensures
        on_one_line(rendered_markup(item, html, include_src)),
{
    reveal_strlit("<data class=\"katex-src\" value=\"");
    reveal_strlit("\">");
    reveal_strlit("</data>");
    let one_line = collapse_newlines(html);
    let source = strip_blockquote(item);
    lemma_collapsed_on_one_line(html);
    lemma_escape_keeps_one_line(one_line, one_line.len() as int);
    lemma_attribute_on_one_line(source, source.len() as int);
}

/// After a failure of the engine the fragment stands as it was, not as it
/// was prepared, between the delimiters of its kind.
pub proof fn lemma_failure_keeps_fragment(
    item: Seq<char>,
    failure: EngineFailure,
    extra_opts: ExtraOpts,
)
    ensures
        render_result(item, Err(failure), extra_opts, false) == extra_opts.inline_delimiter.left@
            + item + extra_opts.inline_delimiter.right@,
        render_result(item, Err(failure), extra_opts, true) == extra_opts.block_delimiter.left@
            + item + extra_opts.block_delimiter.right@,
{
}

/// The engine's answer as the library reads it: markup stays the markup
/// that it is, and an error becomes the failure of its kind.
pub fn outcome_of(answer: Result<String, katex::Error>) -> (outcome: Result<String, EngineFailure>)
    ensures
        answer is Ok ==> outcome == Ok::<String, EngineFailure>(answer->Ok_0),
        answer is Err ==> outcome is Err,
{
    match answer {
        Ok(html) => Ok(html),
        Err(e) => Err(failure_of(e)),
    }
}

} // verus!
