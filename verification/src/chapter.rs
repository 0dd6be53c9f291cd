//! Rendering a whole chapter: its fragments are found and rendered one by
//! one, and the results stand where the fragments stood.

use vstd::prelude::*;
use crate::render::{ExtraOpts, EngineFailure, unrendered, is_markup_of, render_fragment};
use crate::scan::{
    Segment,
    SegmentText,
    texts,
    segments_of,
    source_of,
    join_sources,
    scan,
    lemma_segments_give_text,
};

verus! {

/// Whether `piece` may stand in the chapter for the segment, where `failed`
/// says that the engine failed on it: a plain segment's own text; for a
/// fragment that failed the fragment as it was, between its delimiters; for
/// another what some markup of the engine gives.
pub open spec fn is_piece(
    piece: Seq<char>,
    segment: SegmentText,
    failed: bool,
    extra_opts: ExtraOpts,
) -> bool {
    match segment {
        SegmentText::Plain(t) => !failed && piece == t,
        SegmentText::Math(t, display) => if failed {
            piece == unrendered(t, extra_opts, display)
        } else {
            is_markup_of(piece, t, extra_opts.include_src)
        },
    }
}

/// Whether there is one piece for each segment, and each may stand for its segment.
pub open spec fn pieces_fit(
    pieces: Seq<Seq<char>>,
    failed: Seq<bool>,
    segments: Seq<SegmentText>,
    extra_opts: ExtraOpts,
) -> bool {
    pieces.len() == segments.len() && failed.len() == segments.len() && forall|i: int|
        0 <= i < segments.len() ==> is_piece(#[trigger] pieces[i], segments[i], failed[i], extra_opts)
}

/// The pieces, one after the other.
pub open spec fn concat(pieces: Seq<Seq<char>>) -> Seq<char>
    decreases pieces.len(),
{
    if pieces.len() == 0 {
        Seq::empty()
    } else {
        concat(pieces.drop_last()) + pieces.last()
    }
}

/// How many of the segments failed.
pub open spec fn count_failed(failed: Seq<bool>) -> nat
    decreases failed.len(),
{
    if failed.len() == 0 {
        0
    } else if failed.last() {
        count_failed(failed.drop_last()) + 1
    } else {
        count_failed(failed.drop_last())
    }
}

/// Whether `out` is the chapter `text` with each of its fragments rendered,
/// but for `failures` of them that the engine failed on and that stand as
/// they were.
pub open spec fn is_rendered_chapter(
    out: Seq<char>,
    failures: nat,
    text: Seq<char>,
    extra_opts: ExtraOpts,
) -> bool {
    exists|pieces: Seq<Seq<char>>, failed: Seq<bool>|
        pieces_fit(pieces, failed, segments_of(text, extra_opts), extra_opts) && out == concat(
            pieces,
        ) && count_failed(failed) == failures
}

/// Renders each math fragment of a chapter and puts the result in its place;
/// the text between the fragments stays as it is. Inline math is rendered
/// with `inline_opts`, display math with `display_opts`. A fragment that the
/// engine fails on stays as it was, and the failure is handed back, in the
/// order of the fragments.
pub fn process_chapter_reporting(
    raw_content: &str,
    inline_opts: &katex::Opts,
    display_opts: &katex::Opts,
    extra_opts: &ExtraOpts,
) -> (r: (String, Vec<EngineFailure>))
    ensures
        is_rendered_chapter(r.0@, r.1@.len(), raw_content@, *extra_opts),
{
    let segments = scan(raw_content, extra_opts);
    let mut out = String::new();
    let mut failures: Vec<EngineFailure> = Vec::new();
    let ghost mut pieces: Seq<Seq<char>> = Seq::empty();
    let ghost mut failed: Seq<bool> = Seq::empty();
    let mut i: usize = 0;
    while i < segments.len()
        invariant
            i <= segments.len(),
            pieces_fit(pieces, failed, texts(segments@).take(i as int), *extra_opts),
            out@ == concat(pieces),
            count_failed(failed) == failures@.len(),
        decreases segments.len() - i,
    {
        let ghost earlier = pieces;
        let ghost earlier_failed = failed;
        let ghost mut piece: Seq<char> = Seq::empty();
        let ghost mut piece_failed: bool = false;
        match &segments[i] {
            Segment::Plain(t) => {
                out.append(t.as_str());
                proof {
                    piece = t@;
                }
            },
            Segment::Math { tex, display } => {
                let opts = if *display {
                    display_opts
                } else {
                    inline_opts
                };
                let r = render_fragment(tex.as_str(), opts, extra_opts, *display);
                out.append(r.0.as_str());
                proof {
                    piece = r.0@;
                }
                match r.1 {
                    Some(f) => {
                        failures.push(f);
                        proof {
                            piece_failed = true;
                        }
                    },
                    None => {},
                }
            },
        }
        proof {
            pieces = earlier.push(piece);
            failed = earlier_failed.push(piece_failed);
            assert(pieces.drop_last() =~= earlier);
            assert(failed.drop_last() =~= earlier_failed);
            assert(is_piece(piece, segments@[i as int]@, piece_failed, *extra_opts));
            assert(texts(segments@).take(i + 1)[i as int] == segments@[i as int]@);
        }
        i += 1;
    }
    assert(texts(segments@).take(segments.len() as int) =~= texts(segments@));
    (out, failures)
}

/// Renders each math fragment of a chapter and puts the result in its place.
/// Nothing is lost: what cannot be rendered stays as it was.
pub fn process_chapter(
    raw_content: &str,
    inline_opts: &katex::Opts,
    display_opts: &katex::Opts,
    extra_opts: &ExtraOpts,
) -> (out: String)
    ensures
        exists|failures: nat| is_rendered_chapter(out@, failures, raw_content@, *extra_opts),
{
    let r = process_chapter_reporting(raw_content, inline_opts, display_opts, extra_opts);
    r.0
}

/// Pieces that are their segments' sources make the segments' joined sources.
pub proof fn lemma_concat_of_sources(
    pieces: Seq<Seq<char>>,
    segments: Seq<SegmentText>,
    extra_opts: ExtraOpts,
)
    requires
        pieces.len() == segments.len(),
        forall|i: int| 0 <= i < segments.len() ==> pieces[i] == source_of(segments[i], extra_opts),
    ensures
        concat(pieces) == join_sources(segments, extra_opts),
    decreases pieces.len(),
{
    if pieces.len() > 0 {
        lemma_concat_of_sources(pieces.drop_last(), segments.drop_last(), extra_opts);
    }
}

/// Round trip: where every fragment of a chapter is left as it was, between
/// its delimiters, and every plain piece as it is, the chapter that is put
/// together is the chapter that was read.
pub proof fn lemma_unrendered_chapter_is_input(
    pieces: Seq<Seq<char>>,
    text: Seq<char>,
    extra_opts: ExtraOpts,
)
    requires
        pieces.len() == segments_of(text, extra_opts).len(),
        forall|i: int|
            0 <= i < pieces.len() ==> pieces[i] == source_of(
                segments_of(text, extra_opts)[i],
                extra_opts,
            ),
    ensures
        concat(pieces) == text,
{
    lemma_concat_of_sources(pieces, segments_of(text, extra_opts), extra_opts);
    lemma_segments_give_text(text, extra_opts);
}

/// Where the engine failed on every fragment of a chapter, the chapter that
/// is put together is the chapter that was read.
pub proof fn lemma_all_failed_chapter_is_input(
    pieces: Seq<Seq<char>>,
    failed: Seq<bool>,
    text: Seq<char>,
    extra_opts: ExtraOpts,
)
    requires
        pieces_fit(pieces, failed, segments_of(text, extra_opts), extra_opts),
        forall|i: int|
            0 <= i < failed.len() && segments_of(text, extra_opts)[i] is Math ==> failed[i],
    ensures
        concat(pieces) == text,
{
    let segments = segments_of(text, extra_opts);
    assert forall|i: int| 0 <= i < pieces.len() implies pieces[i] == source_of(
        segments[i],
        extra_opts,
    ) by {
        assert(is_piece(pieces[i], segments[i], failed[i], extra_opts));
    }
    lemma_unrendered_chapter_is_input(pieces, text, extra_opts);
}

} // verus!
