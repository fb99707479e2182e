//! Characters and strings: the bridge between `str` / `String` and the
//! character sequences that the conversions are stated over.

use vstd::prelude::*;

verus! {

/// What `char::is_whitespace` of std returns for `c`: whether `c` carries
/// the Unicode `White_Space` property. Contracts speak of white space by
/// this name, and nothing is claimed about which characters carry it.
pub uninterp spec fn is_white_space(c: char) -> bool;

/// Whether every character of `s` is white space.
pub open spec fn all_white_space(s: Seq<char>) -> bool {
    forall|i: int| 0 <= i < s.len() ==> is_white_space(#[trigger] s[i])
}

/// `char::is_whitespace` of std: what it returns depends on the character
/// alone, and [`is_white_space`] is the name of it.
pub assume_specification[ char::is_whitespace ](c: char) -> (b: bool)
    ensures
        b == is_white_space(c),
;

/// `String::push` of std: afterwards the string holds what it held before,
/// with `c` at its end.
pub assume_specification[ String::push ](s: &mut String, c: char)
    ensures
        final(s)@ == old(s)@.push(c),
;

/// The characters of `s`, in order.
pub fn chars_of(s: &str) -> (v: Vec<char>)
    ensures
        v@ == s@,
{
    let mut v: Vec<char> = Vec::new();
    for c in it: s.chars()
        invariant
            it.seq() == s@,
            v@ == it.seq().take(it.index()),
    {
        v.push(c);
    }
    v
}

/// The string that holds the characters of `v`, in order.
pub fn string_of(v: &Vec<char>) -> (s: String)
    ensures
        s@ == v@,
{
    let mut s = String::new();
    let mut i: usize = 0;
    while i < v.len()
        invariant
            i <= v.len(),
            s@ == v@.take(i as int),
        decreases v.len() - i,
    {
        s.push(v[i]);
        i = i + 1;
    }
    s
}

/// Appends the characters of `more` to `out`.
pub fn append_chars(out: &mut Vec<char>, more: &Vec<char>)
    ensures
        final(out)@ == old(out)@ + more@,
{
    let mut i: usize = 0;
    while i < more.len()
        invariant
            i <= more.len(),
            out@ == old(out)@ + more@.take(i as int),
        decreases more.len() - i,
    {
        out.push(more[i]);
        i = i + 1;
    }
}

/// What a segment holds.
#[derive(Clone, Copy, Debug, PartialEq, Eq, Structural)]
pub enum SegmentKind {
    /// Characters of which none is white space.
    Word,
    /// White space only.
    Whitespace,
}

/// The kind of a run of white space (`space`), or of a word (`!space`).
pub open spec fn kind_of(space: bool) -> SegmentKind {
    if space {
        SegmentKind::Whitespace
    } else {
        SegmentKind::Word
    }
}

/// A maximal run of characters that are all white space, or all not, as
/// contracts see it.
pub struct SegmentView {
    /// Whether the run is a word or white space.
    pub kind: SegmentKind,
    /// The characters of the run.
    pub text: Seq<char>,
}

/// A maximal run of characters that are all white space, or all not,
/// tagged with its kind.
#[derive(Debug)]
pub struct Segment {
    /// Whether the run is a word or white space.
    pub kind: SegmentKind,
    /// The characters of the run.
    pub text: Vec<char>,
}

impl View for Segment {
    type V = SegmentView;

    open spec fn view(&self) -> SegmentView {
        SegmentView { kind: self.kind, text: self.text@ }
    }
}

/// The views of the segments of `segs`, in order.
pub open spec fn segments_view(segs: Seq<Segment>) -> Seq<SegmentView> {
    Seq::new(segs.len(), |i: int| segs[i]@)
}

/// How many characters at the start of `s` are white space (`space`), or
/// are not (`!space`), before the first of the other sort.
pub open spec fn run_len(s: Seq<char>, space: bool) -> nat
    decreases s.len(),
{
    if s.len() > 0 && is_white_space(s[0]) == space {
        1 + run_len(s.skip(1), space)
    } else {
        0
    }
}

/// The segments of `s`, in order: each is the longest run of one sort that
/// starts where the one before ended.
pub open spec fn segments(s: Seq<char>) -> Seq<SegmentView>
    decreases s.len(),
    via segments_decreases
{
    if s.len() == 0 {
        Seq::empty()
    } else {
        let space = is_white_space(s[0]);
        let n = run_len(s, space) as int;
        seq![SegmentView { kind: kind_of(space), text: s.take(n) }] + segments(s.skip(n))
    }
}

#[via_fn]
proof fn segments_decreases(s: Seq<char>) {
    if s.len() > 0 {
        lemma_run_len_bounds(s, is_white_space(s[0]));
    }
}

/// The texts of `segs`, one after the other.
pub open spec fn joined(segs: Seq<SegmentView>) -> Seq<char>
    decreases segs.len(),
{
    if segs.len() == 0 {
        Seq::empty()
    } else {
        segs[0].text + joined(segs.skip(1))
    }
}

/// A run lies within the text, and holds a character where the text starts
/// with one of its sort.
pub proof fn lemma_run_len_bounds(s: Seq<char>, space: bool)
    ensures
        run_len(s, space) <= s.len(),
        s.len() > 0 && is_white_space(s[0]) == space ==> run_len(s, space) >= 1,
    decreases s.len(),
{
    if s.len() > 0 && is_white_space(s[0]) == space {
        lemma_run_len_bounds(s.skip(1), space);
    }
}

/// Every character of a run is of the run's sort, and the character after
/// it, if there is one, is not.
pub proof fn lemma_run_len_is_maximal(s: Seq<char>, space: bool)
    ensures
        forall|i: int| 0 <= i < run_len(s, space) ==> is_white_space(#[trigger] s[i]) == space,
        run_len(s, space) < s.len() ==> is_white_space(s[run_len(s, space) as int]) != space,
    decreases s.len(),
{
    if s.len() > 0 && is_white_space(s[0]) == space {
        let rest = s.skip(1);
        lemma_run_len_is_maximal(rest, space);
        lemma_run_len_bounds(rest, space);
        assert forall|i: int| 0 <= i < run_len(s, space) implies is_white_space(#[trigger] s[i])
            == space by {
            if i > 0 {
                assert(s[i] == rest[i - 1]);
            }
        }
        if run_len(s, space) < s.len() {
            assert(s[run_len(s, space) as int] == rest[run_len(rest, space) as int]);
        }
    }
}

/// Where the run that starts at `pos` ends.
pub(crate) fn run_end(text: &Vec<char>, pos: usize, space: bool) -> (end: usize)
    requires
        pos <= text.len(),
    ensures
        end == pos + run_len(text@.skip(pos as int), space),
        pos <= end <= text.len(),
{
    let mut end: usize = pos;
    while end < text.len() && text[end].is_whitespace() == space
        invariant
            pos <= end <= text.len(),
            run_len(text@.skip(pos as int), space) == (end - pos) + run_len(
                text@.skip(end as int),
                space,
            ),
        decreases text.len() - end,
    {
        assert(text@.skip(end as int).skip(1) =~= text@.skip(end + 1));
        end = end + 1;
    }
    end
}

/// The characters `text[start..end]`.
pub(crate) fn copy_range(text: &Vec<char>, start: usize, end: usize) -> (v: Vec<char>)
    requires
        start <= end <= text.len(),
    ensures
        v@ == text@.subrange(start as int, end as int),
{
    let mut v: Vec<char> = Vec::new();
    let mut i: usize = start;
    while i < end
        invariant
            start <= i <= end <= text.len(),
            v@ == text@.subrange(start as int, i as int),
        decreases end - i,
    {
        v.push(text[i]);
        i = i + 1;
    }
    v
}

/// Whether `segs` are runs as a cut leaves them: none is empty, each holds
/// characters of its own sort only, and no two of one sort stand side by side.
pub open spec fn are_runs(segs: Seq<SegmentView>) -> bool {
    &&& forall|g: int| 0 <= g < segs.len() ==> (#[trigger] segs[g]).text.len() > 0
    &&& forall|g: int, i: int|
        0 <= g < segs.len() && 0 <= i < segs[g].text.len() ==> is_white_space(
            #[trigger] segs[g].text[i],
        ) == (segs[g].kind == SegmentKind::Whitespace)
    &&& forall|g: int|
        0 <= g && g + 1 < segs.len() ==> (#[trigger] segs[g]).kind != segs[g + 1].kind
}

/// Put one after the other, the segments of a text give the text back.
pub proof fn lemma_segments_join(s: Seq<char>)
    ensures
        joined(segments(s)) == s,
    decreases s.len(),
{
    if s.len() > 0 {
        let space = is_white_space(s[0]);
        let n = run_len(s, space) as int;
        lemma_run_len_bounds(s, space);
        let head = SegmentView { kind: kind_of(space), text: s.take(n) };
        let tail = segments(s.skip(n));
        lemma_segments_join(s.skip(n));
        assert((seq![head] + tail).skip(1) =~= tail);
        assert((seq![head] + tail)[0] == head);
        assert(s.take(n) + s.skip(n) =~= s);
    }
}

/// The segment at position `g` is a run: it holds a character, all its
/// characters are of its kind, and the segment after it is of the other kind.
pub proof fn lemma_segment_is_run(s: Seq<char>, g: int)
    requires
        0 <= g < segments(s).len(),
    ensures
        segments(s)[g].text.len() > 0,
        forall|i: int|
            0 <= i < segments(s)[g].text.len() ==> is_white_space(
                #[trigger] segments(s)[g].text[i],
            ) == (segments(s)[g].kind == SegmentKind::Whitespace),
        g + 1 < segments(s).len() ==> segments(s)[g].kind != segments(s)[g + 1].kind,
        segments(s)[0].kind == kind_of(is_white_space(s[0])),
    decreases s.len(),
{
    let space = is_white_space(s[0]);
    let n = run_len(s, space) as int;
    lemma_run_len_bounds(s, space);
    lemma_run_len_is_maximal(s, space);
    let head = SegmentView { kind: kind_of(space), text: s.take(n) };
    let rest = s.skip(n);
    let tail = segments(rest);
    let segs = seq![head] + tail;
    assert(segments(s) == segs);
    assert(segs[0] == head);
    if g == 0 {
        assert forall|i: int| 0 <= i < head.text.len() implies is_white_space(
            #[trigger] head.text[i],
        ) == (head.kind == SegmentKind::Whitespace) by {
            assert(head.text[i] == s[i]);
        }
        if tail.len() > 0 {
            assert(segs[1] == tail[0]);
            lemma_segment_is_run(rest, 0);
            assert(rest[0] == s[n]);
        }
    } else {
        assert(segs[g] == tail[g - 1]);
        lemma_segment_is_run(rest, g - 1);
        if g + 1 < segs.len() {
            assert(segs[g + 1] == tail[g]);
        }
    }
}

/// The segments of a text are its runs: words and white space take turns,
/// and each run is as long as it can be.
pub proof fn lemma_segments_are_runs(s: Seq<char>)
    ensures
        are_runs(segments(s)),
{
    let segs = segments(s);
    assert forall|g: int| 0 <= g < segs.len() implies (#[trigger] segs[g]).text.len() > 0 by {
        lemma_segment_is_run(s, g);
    }
    assert forall|g: int, i: int|
        0 <= g < segs.len() && 0 <= i < segs[g].text.len() implies is_white_space(
        #[trigger] segs[g].text[i],
    ) == (segs[g].kind == SegmentKind::Whitespace) by {
        lemma_segment_is_run(s, g);
    }
    assert forall|g: int| 0 <= g && g + 1 < segs.len() implies (#[trigger] segs[g]).kind != segs[g
        + 1].kind by {
        lemma_segment_is_run(s, g);
    }
}

/// Cuts `text` into its words and its runs of white space, in order. Put
/// one after the other, the segments give `text` back.
pub fn split_preserving_whitespace(text: &Vec<char>) -> (segs: Vec<Segment>)
    ensures
        segments_view(segs@) == segments(text@),
        joined(segments_view(segs@)) == text@,
        are_runs(segments_view(segs@)),
{
    proof {
        lemma_segments_join(text@);
        lemma_segments_are_runs(text@);
    }
    let mut segs: Vec<Segment> = Vec::new();
    let mut pos: usize = 0;
    assert(text@.skip(0) =~= text@);
    while pos < text.len()
        invariant
            pos <= text.len(),
            segments_view(segs@) + segments(text@.skip(pos as int)) == segments(text@),
        decreases text.len() - pos,
    {
        let ghost rest = text@.skip(pos as int);
        let ghost before = segments_view(segs@);
        let space = text[pos].is_whitespace();
        let end = run_end(text, pos, space);
        proof {
            lemma_run_len_bounds(rest, space);
        }
        let piece = copy_range(text, pos, end);
        let kind = if space {
            SegmentKind::Whitespace
        } else {
            SegmentKind::Word
        };
        segs.push(Segment { kind, text: piece });
        assert(rest.take(end - pos) =~= text@.subrange(pos as int, end as int));
        assert(rest.skip(end - pos) =~= text@.skip(end as int));
        assert(segments_view(segs@) =~= before.push(
            SegmentView { kind: kind_of(space), text: piece@ },
        ));
        assert(segments_view(segs@) + segments(rest.skip(end - pos)) =~= before + segments(rest));
        pos = end;
    }
    assert(segments_view(segs@) + segments(text@.skip(pos as int)) =~= segments_view(segs@));
    segs
}

} // verus!
