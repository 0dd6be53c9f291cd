//! Finding the math fragments of a chapter: the text is cut into plain
//! pieces and fragments, code spans are passed over, and the pieces put
//! together again give the text.

use vstd::prelude::*;
use crate::text::{
    matches_at,
    find_from,
    lemma_find_from_found,
    to_chars,
    string_of_range,
    starts_with_at,
    find_at_or_after,
};
use crate::render::{Delimiter, ExtraOpts, unrendered};

verus! {

/// One piece of a chapter.
#[derive(Clone, Debug)]
pub enum Segment {
    /// Text that is no math, as it stands in the chapter.
    Plain(String),
    /// A math fragment, without its delimiters.
    Math {
        /// The fragment's source.
        tex: String,
        /// Whether it is display math.
        display: bool,
    },
}

/// What a segment holds, as a value of the model.
pub enum SegmentText {
    /// Text that is no math.
    Plain(Seq<char>),
    /// A math fragment and whether it is display math.
    Math(Seq<char>, bool),
}

impl View for Segment {
    type V = SegmentText;

    open spec fn view(&self) -> SegmentText {
        match self {
            Segment::Plain(t) => SegmentText::Plain(t@),
            Segment::Math { tex, display } => SegmentText::Math(tex@, *display),
        }
    }
}

/// The segments of a vector as values of the model.
pub open spec fn texts(segments: Seq<Segment>) -> Seq<SegmentText> {
    segments.map_values(|x: Segment| x@)
}

/// The end of the run of backticks that starts at `from`.
pub open spec fn backtick_run(s: Seq<char>, from: int) -> int
    decreases s.len() - from,
{
    if from < 0 || from >= s.len() || s[from] != '`' {
        from
    } else {
        backtick_run(s, from + 1)
    }
}

/// The start of the first run of exactly `n` backticks at or after `from`,
/// or -1. `from` is not inside a run.
pub open spec fn closing_run(s: Seq<char>, from: int, n: int) -> int
    decreases s.len() - from,
{
    if from < 0 || from >= s.len() {
        -1
    } else if s[from] == '`' {
        let e = backtick_run(s, from);
        if e - from == n {
            from
        } else if from < e <= s.len() {
            closing_run(s, e, n)
        } else {
            -1
        }
    } else {
        closing_run(s, from + 1, n)
    }
}

/// Where the code span that opens at `pos` ends: behind the closing run of
/// as many backticks as open it, or, without one, behind the opening run.
pub open spec fn code_end(s: Seq<char>, pos: int) -> int {
    let e = backtick_run(s, pos);
    let c = closing_run(s, e, e - pos);
    if c >= 0 {
        c + (e - pos)
    } else {
        e
    }
}

/// Whether the delimiter's left side stands at `pos`.
pub open spec fn opens_at(s: Seq<char>, d: Delimiter, pos: int) -> bool {
    d.left@.len() > 0 && d.right@.len() > 0 && matches_at(s, d.left@, pos)
}

/// Where the fragment that opens at `pos` ends: at the first occurrence of
/// the delimiter's right side behind the left one, or -1 without one.
pub open spec fn fragment_end(s: Seq<char>, d: Delimiter, pos: int) -> int {
    find_from(s, d.right@, pos + d.left@.len())
}

/// The one plain segment `s[from..to]`, or none where that is empty.
pub open spec fn plain_piece(s: Seq<char>, from: int, to: int) -> Seq<SegmentText> {
    if from < to {
        seq![SegmentText::Plain(s.subrange(from, to))]
    } else {
        Seq::empty()
    }
}

/// The segments of `s[plain_start..]`, where `plain_start..pos` is known to be
/// plain text and the scan goes on at `pos`. At each place a code span is
/// looked for first, then display math, then inline math; an opening
/// delimiter that is never closed is plain text. A code span ends behind
/// where it opens: the test for that only shows that the scan comes to an end.
pub open spec fn scan_from(s: Seq<char>, extra_opts: ExtraOpts, plain_start: int, pos: int) -> Seq<
    SegmentText,
>
    decreases s.len() - pos, 1int,
{
    let block = extra_opts.block_delimiter;
    let inline = extra_opts.inline_delimiter;
    if pos < 0 || pos >= s.len() {
        plain_piece(s, plain_start, s.len() as int)
    } else if s[pos] == '`' {
        let next = code_end(s, pos);
        if pos < next <= s.len() {
            scan_from(s, extra_opts, plain_start, next)
        } else {
            plain_piece(s, plain_start, s.len() as int)
        }
    } else if opens_at(s, block, pos) {
        fragment_from(s, extra_opts, plain_start, pos, true)
    } else if opens_at(s, inline, pos) {
        fragment_from(s, extra_opts, plain_start, pos, false)
    } else {
        scan_from(s, extra_opts, plain_start, pos + 1)
    }
}

/// The segments of `s[plain_start..]`, where a delimiter of the given kind
/// opens at `pos`: the fragment up to the first right delimiter and what
/// follows it, or, without a right delimiter, the left one as plain text.
pub open spec fn fragment_from(
    s: Seq<char>,
    extra_opts: ExtraOpts,
    plain_start: int,
    pos: int,
    display: bool,
) -> Seq<SegmentText>
    decreases s.len() - pos, 0int,
{
    let d = extra_opts.delimiter(display);
    let start = pos + d.left@.len();
    let end = fragment_end(s, d, pos);
    let next = end + d.right@.len();
    if !(0 <= pos < start <= s.len()) {
        plain_piece(s, plain_start, s.len() as int)
    } else if start <= end && next <= s.len() {
        plain_piece(s, plain_start, pos) + seq![SegmentText::Math(s.subrange(start, end), display)]
            + scan_from(s, extra_opts, next, next)
    } else {
        scan_from(s, extra_opts, plain_start, start)
    }
}

/// The segments of a chapter.
pub open spec fn segments_of(s: Seq<char>, extra_opts: ExtraOpts) -> Seq<SegmentText> {
    scan_from(s, extra_opts, 0, 0)
}

/// What a segment was in the chapter: plain text itself, a fragment between
/// the delimiters of its kind.
pub open spec fn source_of(segment: SegmentText, extra_opts: ExtraOpts) -> Seq<char> {
    match segment {
        SegmentText::Plain(t) => t,
        SegmentText::Math(t, display) => unrendered(t, extra_opts, display),
    }
}

/// The segments' sources, one after the other.
pub open spec fn join_sources(segments: Seq<SegmentText>, extra_opts: ExtraOpts) -> Seq<char>
    decreases segments.len(),
{
    if segments.len() == 0 {
        Seq::empty()
    } else {
        join_sources(segments.drop_last(), extra_opts) + source_of(segments.last(), extra_opts)
    }
}

fn run_end(s: &Vec<char>, from: usize) -> (e: usize)
    requires
        from <= s.len(),
    ensures
        e as int == backtick_run(s@, from as int),
        from <= e <= s.len(),
        from < s.len() && s@[from as int] == '`' ==> from < e,
{
    let mut e: usize = from;
    while e < s.len() && s[e] == '`'
        invariant
            from <= e <= s.len(),
            backtick_run(s@, e as int) == backtick_run(s@, from as int),
            from < s.len() && s@[from as int] == '`' && e == from ==> s@[e as int] == '`',
        decreases s.len() - e,
    {
        e += 1;
    }
    e
}

fn find_closing(s: &Vec<char>, from: usize, n: usize) -> (r: Option<usize>)
    requires
        from <= s.len(),
    ensures
        match r {
            Some(c) => c as int == closing_run(s@, from as int, n as int) && from <= c && c + n
                <= s.len(),
            None => closing_run(s@, from as int, n as int) == -1,
        },
{
    let mut j: usize = from;
    while j < s.len()
        invariant
            from <= j <= s.len(),
            closing_run(s@, j as int, n as int) == closing_run(s@, from as int, n as int),
        decreases s.len() - j,
    {
        if s[j] == '`' {
            let e = run_end(s, j);
            if e - j == n {
                return Some(j);
            }
            j = e;
        } else {
            j += 1;
        }
    }
    None
}

fn push_plain(segments: &mut Vec<Segment>, s: &Vec<char>, from: usize, to: usize)
    requires
        from <= to <= s.len(),
    ensures
        texts(final(segments)@) == texts(old(segments)@) + plain_piece(s@, from as int, to as int),
{
    if from < to {
        let t = string_of_range(s, from, to);
        segments.push(Segment::Plain(t));
        assert(texts(segments@) =~= texts(old(segments)@) + plain_piece(
            s@,
            from as int,
            to as int,
        ));
    } else {
        assert(texts(segments@) =~= texts(old(segments)@) + plain_piece(
            s@,
            from as int,
            to as int,
        ));
    }
}

/// Takes the fragment whose delimiter opens at `pos`, if it is closed, and
/// says where the plain text and the scan go on.
fn take_fragment(
    segments: &mut Vec<Segment>,
    s: &Vec<char>,
    extra_opts: &ExtraOpts,
    left: &Vec<char>,
    right: &Vec<char>,
    plain_start: usize,
    pos: usize,
    display: bool,
) -> (r: (usize, usize))
    requires
        plain_start <= pos < s.len(),
        left@ == extra_opts.delimiter(display).left@,
        right@ == extra_opts.delimiter(display).right@,
        opens_at(s@, extra_opts.delimiter(display), pos as int),
    ensures
        r.0 <= r.1 <= s.len(),
        pos < r.1,
        texts(final(segments)@) + scan_from(s@, *extra_opts, r.0 as int, r.1 as int) == texts(
            old(segments)@,
        ) + fragment_from(s@, *extra_opts, plain_start as int, pos as int, display),
{
    let start: usize = pos + left.len();
    match find_at_or_after(s, right, start) {
        Some(end) => {
            proof {
                lemma_find_from_found(s@, right@, start as int);
            }
            let next: usize = end + right.len();
            push_plain(segments, s, plain_start, pos);
            let tex = string_of_range(s, start, end);
            let ghost mid = segments@;
            segments.push(Segment::Math { tex, display });
            proof {
                let m = SegmentText::Math(s@.subrange(start as int, end as int), display);
                assert(texts(segments@) =~= texts(mid).push(m));
                assert(texts(segments@) + scan_from(s@, *extra_opts, next as int, next as int)
                    =~= texts(old(segments)@) + (plain_piece(s@, plain_start as int, pos as int)
                    + seq![m] + scan_from(s@, *extra_opts, next as int, next as int)));
            }
            (next, next)
        },
        None => (plain_start, start),
    }
}

/// Cuts a chapter into plain text and math fragments, from left to right. A
/// code span, from a run of backticks to the next run of the same length, is
/// plain text. Elsewhere the left delimiter of display math is looked for
/// before that of inline math, and a fragment reaches to the first right
/// delimiter behind it. An opening delimiter that is never closed is plain
/// text, and so is one of a pair with an empty side.
pub fn scan(text: &str, extra_opts: &ExtraOpts) -> (segments: Vec<Segment>)
    ensures
        texts(segments@) == segments_of(text@, *extra_opts),
        join_sources(texts(segments@), *extra_opts) == text@,
{
    proof {
        lemma_segments_give_text(text@, *extra_opts);
    }
    let s = to_chars(text);
    let bl = to_chars(extra_opts.block_delimiter.left.as_str());
    let br = to_chars(extra_opts.block_delimiter.right.as_str());
    let il = to_chars(extra_opts.inline_delimiter.left.as_str());
    let ir = to_chars(extra_opts.inline_delimiter.right.as_str());
    let mut segments: Vec<Segment> = Vec::new();
    let mut plain_start: usize = 0;
    let mut pos: usize = 0;
    assert(texts(segments@) + scan_from(s@, *extra_opts, 0, 0) =~= segments_of(s@, *extra_opts));
    while pos < s.len()
        invariant
            plain_start <= pos <= s.len(),
            bl@ == extra_opts.block_delimiter.left@,
            br@ == extra_opts.block_delimiter.right@,
            il@ == extra_opts.inline_delimiter.left@,
            ir@ == extra_opts.inline_delimiter.right@,
            texts(segments@) + scan_from(s@, *extra_opts, plain_start as int, pos as int)
                == segments_of(s@, *extra_opts),
        decreases s.len() - pos,
    {
        if s[pos] == '`' {
            let e = run_end(&s, pos);
            let n: usize = e - pos;
            match find_closing(&s, e, n) {
                Some(c) => {
                    pos = c + n;
                },
                None => {
                    pos = e;
                },
            }
        } else if bl.len() > 0 && br.len() > 0 && starts_with_at(&s, &bl, pos) {
            let r = take_fragment(&mut segments, &s, extra_opts, &bl, &br, plain_start, pos, true);
            plain_start = r.0;
            pos = r.1;
        } else if il.len() > 0 && ir.len() > 0 && starts_with_at(&s, &il, pos) {
            let r = take_fragment(&mut segments, &s, extra_opts, &il, &ir, plain_start, pos, false);
            plain_start = r.0;
            pos = r.1;
        } else {
            pos += 1;
        }
    }
    push_plain(&mut segments, &s, plain_start, pos);
    segments
}

/// Puts segments together again as they stood in the chapter: plain text as
/// it is, each fragment between the delimiters of its kind.
pub fn join(segments: &Vec<Segment>, extra_opts: &ExtraOpts) -> (out: String)
    ensures
        out@ == join_sources(texts(segments@), *extra_opts),
{
    let mut out = String::new();
    let mut i: usize = 0;
    while i < segments.len()
        invariant
            i <= segments.len(),
            out@ == join_sources(texts(segments@).take(i as int), *extra_opts),
        decreases segments.len() - i,
    {
        let ghost before = out@;
        match &segments[i] {
            Segment::Plain(t) => {
                out.append(t.as_str());
            },
            Segment::Math { tex, display } => {
                if *display {
                    out.append(extra_opts.block_delimiter.left.as_str());
                    out.append(tex.as_str());
                    out.append(extra_opts.block_delimiter.right.as_str());
                } else {
                    out.append(extra_opts.inline_delimiter.left.as_str());
                    out.append(tex.as_str());
                    out.append(extra_opts.inline_delimiter.right.as_str());
                }
            },
        }
        i += 1;
        proof {
            let all = texts(segments@);
            assert(all.take(i as int).drop_last() =~= all.take(i - 1));
            assert(all.take(i as int).last() == segments@[i - 1]@);
            assert(out@ =~= before + source_of(segments@[i - 1]@, *extra_opts));
        }
    }
    assert(texts(segments@).take(segments.len() as int) =~= texts(segments@));
    out
}

/// The sources of two runs of segments, joined, are the sources of the one
/// run that they make.
pub proof fn lemma_join_concat(a: Seq<SegmentText>, b: Seq<SegmentText>, extra_opts: ExtraOpts)
    ensures
        join_sources(a + b, extra_opts) == join_sources(a, extra_opts) + join_sources(
            b,
            extra_opts,
        ),
    decreases b.len(),
{
    if b.len() == 0 {
        assert(a + b =~= a);
        assert(join_sources(a, extra_opts) + join_sources(b, extra_opts) =~= join_sources(
            a,
            extra_opts,
        ));
    } else {
        lemma_join_concat(a, b.drop_last(), extra_opts);
        assert((a + b).drop_last() =~= a + b.drop_last());
        assert((a + b).last() == b.last());
        assert(join_sources(a + b, extra_opts) =~= join_sources(a, extra_opts) + (join_sources(
            b.drop_last(),
            extra_opts,
        ) + source_of(b.last(), extra_opts)));
    }
}

proof fn lemma_single_source(segment: SegmentText, extra_opts: ExtraOpts)
    ensures
        join_sources(seq![segment], extra_opts) == source_of(segment, extra_opts),
{
    let one = seq![segment];
    assert(one.drop_last() =~= Seq::<SegmentText>::empty());
    assert(join_sources(one.drop_last(), extra_opts) =~= Seq::<char>::empty());
    assert(join_sources(one, extra_opts) =~= source_of(segment, extra_opts));
}

proof fn lemma_plain_piece_source(s: Seq<char>, from: int, to: int, extra_opts: ExtraOpts)
    requires
        0 <= from <= to <= s.len(),
    ensures
        join_sources(plain_piece(s, from, to), extra_opts) == s.subrange(from, to),
{
    if from < to {
        lemma_single_source(SegmentText::Plain(s.subrange(from, to)), extra_opts);
    } else {
        assert(s.subrange(from, to) =~= Seq::<char>::empty());
    }
}

/// The segments that the scan gives from a place on, put together again, are
/// the text from where its plain text began.
pub proof fn lemma_scan_sources(s: Seq<char>, extra_opts: ExtraOpts, plain_start: int, pos: int)
    requires
        0 <= plain_start <= pos <= s.len(),
    ensures
        join_sources(scan_from(s, extra_opts, plain_start, pos), extra_opts) == s.subrange(
            plain_start,
            s.len() as int,
        ),
    decreases s.len() - pos, 1int,
{
    let block = extra_opts.block_delimiter;
    let inline = extra_opts.inline_delimiter;
    if pos >= s.len() {
        lemma_plain_piece_source(s, plain_start, s.len() as int, extra_opts);
    } else if s[pos] == '`' {
        let next = code_end(s, pos);
        if pos < next <= s.len() {
            lemma_scan_sources(s, extra_opts, plain_start, next);
        } else {
            lemma_plain_piece_source(s, plain_start, s.len() as int, extra_opts);
        }
    } else if opens_at(s, block, pos) {
        lemma_fragment_sources(s, extra_opts, plain_start, pos, true);
    } else if opens_at(s, inline, pos) {
        lemma_fragment_sources(s, extra_opts, plain_start, pos, false);
    } else {
        lemma_scan_sources(s, extra_opts, plain_start, pos + 1);
    }
}

proof fn lemma_fragment_sources(
    s: Seq<char>,
    extra_opts: ExtraOpts,
    plain_start: int,
    pos: int,
    display: bool,
)
    requires
        0 <= plain_start <= pos < s.len(),
        opens_at(s, extra_opts.delimiter(display), pos),
    ensures
        join_sources(fragment_from(s, extra_opts, plain_start, pos, display), extra_opts)
            == s.subrange(plain_start, s.len() as int),
    decreases s.len() - pos, 0int,
{
    let d = extra_opts.delimiter(display);
    let start = pos + d.left@.len();
    let end = fragment_end(s, d, pos);
    let next = end + d.right@.len();
    if start <= end && next <= s.len() {
        lemma_find_from_found(s, d.right@, start);
        lemma_scan_sources(s, extra_opts, next, next);
        lemma_plain_piece_source(s, plain_start, pos, extra_opts);
        let m = SegmentText::Math(s.subrange(start, end), display);
        let head = plain_piece(s, plain_start, pos);
        let tail = scan_from(s, extra_opts, next, next);
        lemma_single_source(m, extra_opts);
        lemma_join_concat(head, seq![m], extra_opts);
        lemma_join_concat(head + seq![m], tail, extra_opts);
        assert(source_of(m, extra_opts) =~= s.subrange(pos, start) + s.subrange(start, end)
            + s.subrange(end, next));
        assert(s.subrange(plain_start, pos) + source_of(m, extra_opts) + s.subrange(
            next,
            s.len() as int,
        ) =~= s.subrange(plain_start, s.len() as int));
    } else {
        lemma_scan_sources(s, extra_opts, plain_start, start);
    }
}

/// Round trip: the segments of a chapter, each fragment put back between its
/// delimiters, give the chapter again.
pub proof fn lemma_segments_give_text(s: Seq<char>, extra_opts: ExtraOpts)
    ensures
        join_sources(segments_of(s, extra_opts), extra_opts) == s,
{
    lemma_scan_sources(s, extra_opts, 0, 0);
    assert(s.subrange(0, s.len() as int) =~= s);
}

} // verus!
