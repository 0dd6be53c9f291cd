//! Making the engine's HTML, and a fragment's source, safe to stand inside
//! markdown: on one line, and with no underscore that markdown could read as
//! emphasis.

use vstd::prelude::*;
use crate::text::{MaybeRewritten, to_chars, push_range};

verus! {

/// `s` with a space in place of each line feed.
pub open spec fn collapse_newlines(s: Seq<char>) -> Seq<char> {
    Seq::new(
        s.len(),
        |i: int|
            if s[i] == '\n' {
                ' '
            } else {
                s[i]
            },
    )
}

/// Whether index `i` of `s` lies inside a tag: of the angle brackets before
/// it, the last one opens.
pub open spec fn in_tag_before(s: Seq<char>, i: int) -> bool
    decreases i,
{
    if i <= 0 || i > s.len() {
        false
    } else if s[i - 1] == '<' {
        true
    } else if s[i - 1] == '>' {
        false
    } else {
        in_tag_before(s, i - 1)
    }
}

/// Whether index `i` of `s` holds an underscore that has to be escaped: one
/// outside any tag.
pub open spec fn is_text_underscore(s: Seq<char>, i: int) -> bool {
    0 <= i < s.len() && s[i] == '_' && !in_tag_before(s, i)
}

/// The character reference that stands for an underscore.
pub open spec fn underscore_reference() -> Seq<char> {
    "&#95;"@
}

/// The first `n` characters of `s`, each underscore outside a tag replaced by
/// its character reference.
pub open spec fn escape_prefix(s: Seq<char>, n: int) -> Seq<char>
    decreases n,
{
    if n <= 0 || n > s.len() {
        Seq::empty()
    } else if is_text_underscore(s, n - 1) {
        escape_prefix(s, n - 1) + underscore_reference()
    } else {
        escape_prefix(s, n - 1).push(s[n - 1])
    }
}

/// `s` with each underscore outside a tag replaced by its character reference.
pub open spec fn escape_underscores(s: Seq<char>) -> Seq<char> {
    escape_prefix(s, s.len() as int)
}

/// The escaped quotation mark of an attribute value.
pub open spec fn quote_escape() -> Seq<char> {
    "\\\""@
}

/// The character reference that stands for a line feed.
pub open spec fn newline_reference() -> Seq<char> {
    "&#10;"@
}

/// The first `n` characters of `s` as they stand in an attribute value: a
/// backslash before each quotation mark, and each line feed as its character
/// reference.
pub open spec fn attribute_prefix(s: Seq<char>, n: int) -> Seq<char>
    decreases n,
{
    if n <= 0 || n > s.len() {
        Seq::empty()
    } else if s[n - 1] == '"' {
        attribute_prefix(s, n - 1) + quote_escape()
    } else if s[n - 1] == '\n' {
        attribute_prefix(s, n - 1) + newline_reference()
    } else {
        attribute_prefix(s, n - 1).push(s[n - 1])
    }
}

/// `s` as it stands in an attribute value.
pub open spec fn escape_attribute(s: Seq<char>) -> Seq<char> {
    attribute_prefix(s, s.len() as int)
}

/// Puts a space in place of each line feed.
pub fn collapse_newlines_in(html: &str) -> (r: String)
    ensures
        r@ == collapse_newlines(html@),
{
    let s = to_chars(html);
    let mut out = String::new();
    let mut i: usize = 0;
    while i < s.len()
        invariant
            i <= s.len(),
            out@ == collapse_newlines(s@).take(i as int),
        decreases s.len() - i,
    {
        let c = s[i];
        if c == '\n' {
            out.push(' ');
        } else {
            out.push(c);
        }
        i += 1;
        assert(out@ =~= collapse_newlines(s@).take(i as int));
    }
    assert(out@ =~= collapse_newlines(s@));
    out
}

/// Replaces each underscore that stands outside a tag by `&#95;`. Inside a
/// tag means behind a `<` with no `>` after it; nothing else of HTML is
/// read. A text without such an underscore is handed back untouched.
pub fn escape_underscores_for_markdown<'a>(rendered_html: &'a str) -> (r: MaybeRewritten<'a>)
    ensures
        r@ == escape_underscores(rendered_html@),
        r is Rewritten <==> has_text_underscore(rendered_html@),
{
    let s = to_chars(rendered_html);
    let mut in_tag = false;
    let mut cursor: usize = 0;
    let mut output: Option<String> = None;
    let mut i: usize = 0;
    while i < s.len()
        invariant
            cursor <= i <= s.len(),
            in_tag == in_tag_before(s@, i as int),
            output is None ==> cursor == 0,
            output is None ==> forall|j: int| 0 <= j < i ==> !is_text_underscore(s@, j),
            output is Some ==> exists|j: int| is_text_underscore(s@, j),
            output is Some ==> output->0@ + s@.subrange(cursor as int, i as int) == escape_prefix(
                s@,
                i as int,
            ),
            output is None ==> s@.subrange(0, i as int) == escape_prefix(s@, i as int),
        decreases s.len() - i,
    {
        let c = s[i];
        let ghost before = escape_prefix(s@, i as int);
        if c == '<' {
            in_tag = true;
        } else if c == '>' {
            in_tag = false;
        } else if c == '_' && !in_tag {
            assert(is_text_underscore(s@, i as int));
            let mut out = match output {
                Some(o) => o,
                None => String::new(),
            };
            push_range(&mut out, &s, cursor, i);
            assert(out@ =~= before);
            out.append("&#95;");
            cursor = i + 1;
            output = Some(out);
            assert(s@.subrange(cursor as int, i + 1) =~= Seq::empty());
            assert(output->0@ + s@.subrange(cursor as int, i + 1) =~= before
                + underscore_reference());
        }
        i += 1;
        proof {
            if cursor < i {
                assert(!is_text_underscore(s@, i - 1));
                assert(s@.subrange(cursor as int, i as int) =~= s@.subrange(
                    cursor as int,
                    i - 1,
                ).push(s@[i - 1]));
                if output is Some {
                    assert(output->0@ + s@.subrange(cursor as int, i as int) =~= (output->0@
                        + s@.subrange(cursor as int, i - 1)).push(s@[i - 1]));
                }
            }
        }
    }
    match output {
        Some(mut out) => {
            push_range(&mut out, &s, cursor, s.len());
            MaybeRewritten::Rewritten(out)
        },
        None => {
            assert(s@.subrange(0, s@.len() as int) =~= s@);
            MaybeRewritten::Unchanged(rendered_html)
        },
    }
}

/// Writes a fragment's source as the value of an attribute: `\"` for each
/// quotation mark and `&#10;` for each line feed.
pub fn escape_attribute_value(source: &str) -> (r: String)
    ensures
        r@ == escape_attribute(source@),
{
    let s = to_chars(source);
    let mut out = String::new();
    let mut i: usize = 0;
    while i < s.len()
        invariant
            i <= s.len(),
            out@ == attribute_prefix(s@, i as int),
        decreases s.len() - i,
    {
        let c = s[i];
        if c == '"' {
            out.append("\\\"");
        } else if c == '\n' {
            out.append("&#10;");
        } else {
            out.push(c);
        }
        i += 1;
    }
    out
}

/// Whether `s` holds no line feed.
pub open spec fn on_one_line(s: Seq<char>) -> bool {
    forall|i: int| 0 <= i < s.len() ==> s[i] != '\n'
}

/// Whether `s` holds an underscore outside any tag.
pub open spec fn has_text_underscore(s: Seq<char>) -> bool {
    exists|i: int| is_text_underscore(s, i)
}

/// After the line feeds are collapsed, none is left.
pub proof fn lemma_collapsed_on_one_line(s: Seq<char>)
    ensures
        on_one_line(collapse_newlines(s)),
{
}

/// Escaping underscores brings no line feed into a text that has none.
pub proof fn lemma_escape_keeps_one_line(s: Seq<char>, n: int)
    requires
        on_one_line(s),
        0 <= n <= s.len(),
    ensures
        on_one_line(escape_prefix(s, n)),
    decreases n,
{
    reveal_strlit("&#95;");
    if n > 0 {
        lemma_escape_keeps_one_line(s, n - 1);
    }
}

/// An attribute value holds no line feed.
pub proof fn lemma_attribute_on_one_line(s: Seq<char>, n: int)
    requires
        0 <= n <= s.len(),
    ensures
        on_one_line(attribute_prefix(s, n)),
    decreases n,
{
    reveal_strlit("\\\"");
    reveal_strlit("&#10;");
    if n > 0 {
        lemma_attribute_on_one_line(s, n - 1);
    }
}

/// What a tag's state is behind a text depends on that text alone.
pub proof fn lemma_in_tag_of_prefix(a: Seq<char>, b: Seq<char>, i: int)
    requires
        0 <= i <= a.len(),
    ensures
        in_tag_before(a + b, i) == in_tag_before(a, i),
    decreases i,
{
    if i > 0 {
        assert((a + b)[i - 1] == a[i - 1]);
        lemma_in_tag_of_prefix(a, b, i - 1);
    }
}

/// In the escaped text an underscore stands only inside a tag, and the
/// escaped text ends inside a tag exactly if the text did.
pub proof fn lemma_escaped_prefix_has_no_text_underscore(s: Seq<char>, n: int)
    requires
        0 <= n <= s.len(),
    ensures
        in_tag_before(escape_prefix(s, n), escape_prefix(s, n).len() as int) == in_tag_before(
            s,
            n,
        ),
        forall|j: int| !is_text_underscore(escape_prefix(s, n), j),
    decreases n,
{
    reveal_strlit("&#95;");
    if n > 0 {
        lemma_escaped_prefix_has_no_text_underscore(s, n - 1);
        let head = escape_prefix(s, n - 1);
        let tail = if is_text_underscore(s, n - 1) {
            underscore_reference()
        } else {
            seq![s[n - 1]]
        };
        let all = escape_prefix(s, n);
        assert(all =~= head + tail);
        assert forall|j: int| 0 <= j <= all.len() implies (j <= head.len() ==> in_tag_before(
            all,
            j,
        ) == in_tag_before(head, j)) && (j > head.len() ==> in_tag_before(all, j) == (if s[n - 1]
            == '<' {
            true
        } else if s[n - 1] == '>' {
            false
        } else {
            in_tag_before(s, n - 1)
        })) by {
            if j <= head.len() {
                lemma_in_tag_of_prefix(head, tail, j);
            } else {
                lemma_in_tag_of_prefix(head, tail, head.len() as int);
                lemma_in_tag_behind(all, head.len() as int, j);
            }
        }
        assert forall|j: int| !is_text_underscore(all, j) by {
            if 0 <= j < head.len() {
                assert(all[j] == head[j]);
                assert(!is_text_underscore(head, j));
            }
        }
    }
}

/// Behind a stretch without angle brackets, but for perhaps its first
/// character, the tag's state is what that first character left.
proof fn lemma_in_tag_behind(s: Seq<char>, from: int, j: int)
    requires
        0 <= from < j <= s.len(),
        forall|k: int| from < k < j ==> s[k] != '<' && s[k] != '>',
    ensures
        in_tag_before(s, j) == in_tag_before(s, from + 1),
    decreases j - from,
{
    if j > from + 1 {
        lemma_in_tag_behind(s, from, j - 1);
    }
}

/// In the escaped text no underscore stands outside a tag.
pub proof fn lemma_escaped_has_no_text_underscore(s: Seq<char>)
    ensures
        !has_text_underscore(escape_underscores(s)),
{
    lemma_escaped_prefix_has_no_text_underscore(s, s.len() as int);
}

} // verus!
