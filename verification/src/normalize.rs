//! Fixes made to a math fragment's source before it is typeset: removing the
//! blockquote markers that markdown put in front of its lines, and replacing
//! commands that the engine renders wrongly.

use vstd::prelude::*;
use crate::text::{MaybeRewritten, matches_at, occurs, to_chars, push_range, starts_with_at};

verus! {

/// A space or a tab: what may stand before and after a blockquote marker.
pub open spec fn is_indent(c: char) -> bool {
    c == ' ' || c == '\t'
}

/// White space, as Unicode defines it.
pub open spec fn is_blank_char(c: char) -> bool {
    let u = c as u32;
    (0x09 <= u <= 0x0d) || u == 0x20 || u == 0x85 || u == 0xa0 || u == 0x1680 || (0x2000 <= u
        <= 0x200a) || u == 0x2028 || u == 0x2029 || u == 0x202f || u == 0x205f || u == 0x3000
}

/// The end of the line that holds index `from`: the index of the next line
/// feed, or the length of `s`.
pub open spec fn line_end(s: Seq<char>, from: int) -> int
    decreases s.len() - from,
{
    if from < 0 || from >= s.len() {
        s.len() as int
    } else if s[from] == '\n' {
        from
    } else {
        line_end(s, from + 1)
    }
}

/// The first index in `from..to` that holds no space or tab, or `to`.
pub open spec fn skip_indent(s: Seq<char>, from: int, to: int) -> int
    decreases to - from,
{
    if from < 0 || from >= to || to > s.len() {
        to
    } else if is_indent(s[from]) {
        skip_indent(s, from + 1, to)
    } else {
        from
    }
}

/// The first index in `from..to` that holds no white space, or `to`.
pub open spec fn skip_blank(s: Seq<char>, from: int, to: int) -> int
    decreases to - from,
{
    if from < 0 || from >= to || to > s.len() {
        to
    } else if is_blank_char(s[from]) {
        skip_blank(s, from + 1, to)
    } else {
        from
    }
}

/// The line `s[from..to]` starts, after spaces and tabs, with a blockquote marker.
pub open spec fn line_is_quoted(s: Seq<char>, from: int, to: int) -> bool {
    let k = skip_indent(s, from, to);
    k < to && s[k] == '>'
}

/// Of the lines of `s` from index `from` on, the first that is not blank
/// exists and starts with a blockquote marker.
pub open spec fn first_line_quoted(s: Seq<char>, from: int) -> bool
    decreases s.len() - from,
{
    if from < 0 || from >= s.len() {
        false
    } else {
        let e = line_end(s, from);
        if skip_blank(s, from, e) < e {
            line_is_quoted(s, from, e)
        } else {
            from <= e < s.len() && first_line_quoted(s, e + 1)
        }
    }
}

/// Where the line `s[from..to]` starts once its blockquote marker is taken
/// off: behind the spaces and tabs, the marker and at most one more space or
/// tab; at `from` where the line has no marker.
pub open spec fn kept_from(s: Seq<char>, from: int, to: int) -> int {
    let k = skip_indent(s, from, to);
    if k < to && s[k] == '>' {
        if k + 1 < to && is_indent(s[k + 1]) {
            k + 2
        } else {
            k + 1
        }
    } else {
        from
    }
}

/// The lines of `s` from index `from` on, each without its blockquote marker
/// and with its line feed kept.
pub open spec fn strip_lines(s: Seq<char>, from: int) -> Seq<char>
    decreases s.len() - from,
{
    if from < 0 || from >= s.len() {
        Seq::empty()
    } else {
        let e = line_end(s, from);
        let kept = s.subrange(kept_from(s, from, e), e);
        if from <= e < s.len() {
            kept + seq!['\n'] + strip_lines(s, e + 1)
        } else {
            kept
        }
    }
}

/// The fragment without the blockquote markers of its lines, if its first
/// line that is not blank has one; the fragment itself if not.
pub open spec fn strip_blockquote(s: Seq<char>) -> Seq<char> {
    if first_line_quoted(s, 0) {
        strip_lines(s, 0)
    } else {
        s
    }
}

/// `s` from index `from` on, with `with` in place of each occurrence of
/// `pat`, the occurrences taken from left to right without overlap.
pub open spec fn replace_from(s: Seq<char>, pat: Seq<char>, with: Seq<char>, from: int) -> Seq<
    char,
>
    decreases s.len() - from,
{
    if from < 0 || from >= s.len() {
        Seq::empty()
    } else if pat.len() > 0 && matches_at(s, pat, from) {
        with + replace_from(s, pat, with, from + pat.len())
    } else {
        seq![s[from]] + replace_from(s, pat, with, from + 1)
    }
}

/// The command that the engine renders as broken markup.
pub open spec fn broken_command() -> Seq<char> {
    "\\backslash"@
}

/// The command that draws the same glyph and is rendered well.
pub open spec fn safe_command() -> Seq<char> {
    "\\setminus"@
}

/// The fragment as it is handed to the engine.
pub open spec fn engine_safe(s: Seq<char>) -> Seq<char> {
    replace_from(s, broken_command(), safe_command(), 0)
}

/// Whether `c` is white space.
pub fn blank_char(c: char) -> (b: bool)
    ensures
        b == is_blank_char(c),
{
    let u: u32 = c as u32;
    (0x09 <= u && u <= 0x0d) || u == 0x20 || u == 0x85 || u == 0xa0 || u == 0x1680 || (0x2000
        <= u && u <= 0x200a) || u == 0x2028 || u == 0x2029 || u == 0x202f || u == 0x205f || u
        == 0x3000
}

fn find_line_end(s: &Vec<char>, from: usize) -> (e: usize)
    requires
        from <= s.len(),
    ensures
        e as int == line_end(s@, from as int),
        from <= e <= s.len(),
        e < s.len() ==> s@[e as int] == '\n',
{
    let mut e: usize = from;
    while e < s.len() && s[e] != '\n'
        invariant
            from <= e <= s.len(),
            line_end(s@, e as int) == line_end(s@, from as int),
        decreases s.len() - e,
    {
        e += 1;
    }
    e
}

fn past_indent(s: &Vec<char>, from: usize, to: usize) -> (k: usize)
    requires
        from <= to <= s.len(),
    ensures
        k as int == skip_indent(s@, from as int, to as int),
        from <= k <= to,
{
    let mut k: usize = from;
    while k < to && (s[k] == ' ' || s[k] == '\t')
        invariant
            from <= k <= to <= s.len(),
            skip_indent(s@, k as int, to as int) == skip_indent(s@, from as int, to as int),
        decreases to - k,
    {
        k += 1;
    }
    k
}

fn past_blank(s: &Vec<char>, from: usize, to: usize) -> (k: usize)
    requires
        from <= to <= s.len(),
    ensures
        k as int == skip_blank(s@, from as int, to as int),
        from <= k <= to,
{
    let mut k: usize = from;
    while k < to && blank_char(s[k])
        invariant
            from <= k <= to <= s.len(),
            skip_blank(s@, k as int, to as int) == skip_blank(s@, from as int, to as int),
        decreases to - k,
    {
        k += 1;
    }
    k
}

fn kept_start(s: &Vec<char>, from: usize, to: usize) -> (k: usize)
    requires
        from <= to <= s.len(),
    ensures
        k as int == kept_from(s@, from as int, to as int),
        from <= k <= to,
{
    let k = past_indent(s, from, to);
    if k < to && s[k] == '>' {
        if k + 1 < to && (s[k + 1] == ' ' || s[k + 1] == '\t') {
            k + 2
        } else {
            k + 1
        }
    } else {
        from
    }
}

fn starts_quoted(s: &Vec<char>) -> (b: bool)
    ensures
        b == first_line_quoted(s@, 0),
{
    let mut pos: usize = 0;
    while pos < s.len()
        invariant
            pos <= s.len(),
            first_line_quoted(s@, pos as int) == first_line_quoted(s@, 0),
        decreases s.len() - pos,
    {
        let e = find_line_end(s, pos);
        if past_blank(s, pos, e) < e {
            let k = past_indent(s, pos, e);
            return k < e && s[k] == '>';
        }
        if e == s.len() {
            return false;
        }
        pos = e + 1;
    }
    false
}

/// Takes the blockquote markers off the lines of a fragment that stands in a
/// blockquote: one whose first line that is not blank starts, after spaces and
/// tabs, with `>`. Any other fragment is handed back untouched.
pub fn strip_markdown_blockquote_prefix<'a>(item: &'a str) -> (r: MaybeRewritten<'a>)
    ensures
        r@ == strip_blockquote(item@),
        r is Rewritten <==> first_line_quoted(item@, 0),
{
    let s = to_chars(item);
    if !starts_quoted(&s) {
        return MaybeRewritten::Unchanged(item);
    }
    let mut out = String::new();
    let mut pos: usize = 0;
    while pos < s.len()
        invariant
            pos <= s.len(),
            out@ + strip_lines(s@, pos as int) == strip_lines(s@, 0),
        decreases s.len() - pos,
    {
        let ghost before = out@;
        let e = find_line_end(&s, pos);
        let k = kept_start(&s, pos, e);
        push_range(&mut out, &s, k, e);
        if e < s.len() {
            out.push('\n');
            pos = e + 1;
            assert(out@ =~= before + (s@.subrange(k as int, e as int) + seq!['\n']));
            assert(out@ + strip_lines(s@, pos as int) =~= before + (s@.subrange(
                k as int,
                e as int,
            ) + seq!['\n'] + strip_lines(s@, pos as int)));
        } else {
            pos = e;
        }
    }
    assert(out@ =~= strip_lines(s@, 0));
    MaybeRewritten::Rewritten(out)
}

/// Without an occurrence of the pattern, replacing changes nothing.
pub proof fn lemma_replace_absent(s: Seq<char>, pat: Seq<char>, with: Seq<char>, from: int)
    requires
        0 <= from <= s.len(),
        forall|i: int| from <= i ==> !matches_at(s, pat, i),
    ensures
        replace_from(s, pat, with, from) == s.subrange(from, s.len() as int),
    decreases s.len() - from,
{
    if from < s.len() {
        lemma_replace_absent(s, pat, with, from + 1);
        assert(seq![s[from]] + s.subrange(from + 1, s.len() as int) =~= s.subrange(
            from,
            s.len() as int,
        ));
    } else {
        assert(s.subrange(from, s.len() as int) =~= Seq::empty());
    }
}

/// Replaces each `\backslash` of the fragment by `\setminus`, from left to
/// right. A fragment without one is handed back untouched.
pub fn normalize_tex_for_katex<'a>(tex: &'a str) -> (r: MaybeRewritten<'a>)
    ensures
        r@ == engine_safe(tex@),
        r is Rewritten <==> occurs(tex@, broken_command()),
{
    proof {
        reveal_strlit("\\backslash");
    }
    let s = to_chars(tex);
    let pat = to_chars("\\backslash");
    let with = to_chars("\\setminus");
    let mut out = String::new();
    let mut changed = false;
    let mut pos: usize = 0;
    while pos < s.len()
        invariant
            pos <= s.len(),
            out@ + replace_from(s@, pat@, with@, pos as int) == replace_from(s@, pat@, with@, 0),
            pat@.len() == 10,
            !changed ==> forall|i: int| 0 <= i < pos ==> !matches_at(s@, pat@, i),
            changed ==> occurs(s@, pat@),
        decreases s.len() - pos,
    {
        let ghost before = out@;
        if starts_with_at(&s, &pat, pos) {
            push_range(&mut out, &with, 0, with.len());
            assert(with@.subrange(0, with@.len() as int) =~= with@);
            changed = true;
            pos = pos + pat.len();
            assert(out@ + replace_from(s@, pat@, with@, pos as int) =~= before + (with@
                + replace_from(s@, pat@, with@, pos as int)));
        } else {
            out.push(s[pos]);
            pos = pos + 1;
            assert(out@ + replace_from(s@, pat@, with@, pos as int) =~= before + (seq![
                s@[pos - 1],
            ] + replace_from(s@, pat@, with@, pos as int)));
        }
    }
    assert(out@ =~= replace_from(s@, pat@, with@, 0));
    if changed {
        MaybeRewritten::Rewritten(out)
    } else {
        proof {
            lemma_replace_absent(s@, pat@, with@, 0);
            assert(s@.subrange(0, s@.len() as int) =~= s@);
        }
        MaybeRewritten::Unchanged(tex)
    }
}

/// A fragment that stands in no blockquote is left as it is.
pub proof fn lemma_unquoted_fragment_unchanged(s: Seq<char>)
    requires
        !first_line_quoted(s, 0),
    ensures
        strip_blockquote(s) == s,
{
}

/// A fragment without the broken command is left as it is.
pub proof fn lemma_safe_fragment_unchanged(s: Seq<char>)
    requires
        !occurs(s, broken_command()),
    ensures
        engine_safe(s) == s,
{
    lemma_replace_absent(s, broken_command(), safe_command(), 0);
    assert(s.subrange(0, s.len() as int) =~= s);
}

} // verus!
