//! Plain operations on sequences of characters that the other modules share.

use vstd::prelude::*;

verus! {

/// `String::push` appends one character to the string.
pub assume_specification[ String::push ](s: &mut String, ch: char)
    ensures
        final(s)@ == old(s)@.push(ch),
;

/// A text that is either the caller's own, untouched, or a new one.
pub enum MaybeRewritten<'a> {
    /// Nothing had to change: the input itself.
    Unchanged(&'a str),
    /// Something changed: the new text.
    Rewritten(String),
}

impl<'a> View for MaybeRewritten<'a> {
    type V = Seq<char>;

    open spec fn view(&self) -> Seq<char> {
        match self {
            MaybeRewritten::Unchanged(s) => s@,
            MaybeRewritten::Rewritten(s) => s@,
        }
    }
}

impl<'a> MaybeRewritten<'a> {
    /// The text, whichever of the two it is.
    pub fn as_str(&self) -> (s: &str)
        ensures
            s@ == self@,
    {
        match self {
            MaybeRewritten::Unchanged(s) => s,
            MaybeRewritten::Rewritten(s) => s.as_str(),
        }
    }

    /// The text as an owned string.
    pub fn into_string(self) -> (s: String)
        ensures
            s@ == self@,
    {
        match self {
            MaybeRewritten::Unchanged(s) => s.to_owned(),
            MaybeRewritten::Rewritten(s) => s,
        }
    }

    /// Whether the text is a new one.
    pub fn is_rewritten(&self) -> (b: bool)
        ensures
            b == (self is Rewritten),
    {
        match self {
            MaybeRewritten::Unchanged(_) => false,
            MaybeRewritten::Rewritten(_) => true,
        }
    }
}

/// `pat` stands in `s` at index `i`.
pub open spec fn matches_at(s: Seq<char>, pat: Seq<char>, i: int) -> bool {
    0 <= i && i + pat.len() <= s.len() && s.subrange(i, i + pat.len()) == pat
}

/// `pat` stands somewhere in `s`.
pub open spec fn occurs(s: Seq<char>, pat: Seq<char>) -> bool {
    exists|i: int| matches_at(s, pat, i)
}

/// The least index at or after `from` at which `pat` stands in `s`, or -1.
pub open spec fn find_from(s: Seq<char>, pat: Seq<char>, from: int) -> int
    decreases s.len() - from + 1,
{
    if from < 0 || from + pat.len() > s.len() {
        -1
    } else if matches_at(s, pat, from) {
        from
    } else {
        find_from(s, pat, from + 1)
    }
}

/// The characters of `s`, in order.
pub fn to_chars(s: &str) -> (v: Vec<char>)
    ensures
        v@ == s@,
{
    let mut v: Vec<char> = Vec::new();
    for c in iter: s.chars()
        invariant
            iter.seq() == s@,
            v@ == s@.take(iter.index() as int),
    {
        v.push(c);
    }
    v
}

/// Appends the characters `v[from..to]` to `out`.
pub fn push_range(out: &mut String, v: &Vec<char>, from: usize, to: usize)
    requires
        from <= to <= v.len(),
    ensures
        final(out)@ == old(out)@ + v@.subrange(from as int, to as int),
{
    let ghost before = out@;
    let mut i: usize = from;
    while i < to
        invariant
            from <= i <= to <= v.len(),
            out@ == before + v@.subrange(from as int, i as int),
        decreases to - i,
    {
        out.push(v[i]);
        i += 1;
        assert(out@ =~= before + v@.subrange(from as int, i as int));
    }
}

/// The string made of the characters `v[from..to]`.
pub fn string_of_range(v: &Vec<char>, from: usize, to: usize) -> (s: String)
    requires
        from <= to <= v.len(),
    ensures
        s@ == v@.subrange(from as int, to as int),
{
    let mut s = String::new();
    push_range(&mut s, v, from, to);
    assert(s@ =~= v@.subrange(from as int, to as int));
    s
}

/// Whether `pat` stands in `s` at index `i`.
pub fn starts_with_at(s: &Vec<char>, pat: &Vec<char>, i: usize) -> (b: bool)
    ensures
        b == matches_at(s@, pat@, i as int),
{
    if pat.len() > s.len() || i > s.len() - pat.len() {
        return false;
    }
    let mut k: usize = 0;
    while k < pat.len()
        invariant
            i + pat.len() <= s.len(),
            k <= pat.len(),
            forall|j: int| 0 <= j < k ==> s@[i + j] == pat@[j],
        decreases pat.len() - k,
    {
        if s[i + k] != pat[k] {
            proof {
                let sub = s@.subrange(i as int, i + pat.len());
                assert(sub[k as int] == s@[i + k]);
            }
            return false;
        }
        k += 1;
    }
    assert(s@.subrange(i as int, i + pat.len()) =~= pat@);
    true
}

/// The least index at or after `from` at which `pat` stands in `s`.
pub fn find_at_or_after(s: &Vec<char>, pat: &Vec<char>, from: usize) -> (r: Option<usize>)
    ensures
        match r {
            Some(j) => j as int == find_from(s@, pat@, from as int),
            None => find_from(s@, pat@, from as int) == -1,
        },
{
    if pat.len() > s.len() {
        return None;
    }
    let last: usize = s.len() - pat.len();
    let mut j: usize = from;
    while j <= last
        invariant
            last + pat.len() == s.len(),
            from <= j,
            find_from(s@, pat@, j as int) == find_from(s@, pat@, from as int),
        decreases last + 1 - j,
    {
        if starts_with_at(s, pat, j) {
            return Some(j);
        }
        if j == last {
            assert(find_from(s@, pat@, j + 1) == -1);
            return None;
        }
        j += 1;
    }
    None
}

/// Where `find_from` finds something, it is a place at or after `from` at
/// which the pattern stands.
pub proof fn lemma_find_from_found(s: Seq<char>, pat: Seq<char>, from: int)
    requires
        find_from(s, pat, from) != -1,
    ensures
        from <= find_from(s, pat, from),
        matches_at(s, pat, find_from(s, pat, from)),
    decreases s.len() - from + 1,
{
    if from < 0 || from + pat.len() > s.len() {
    } else if matches_at(s, pat, from) {
    } else {
        lemma_find_from_found(s, pat, from + 1);
    }
}

} // verus!
