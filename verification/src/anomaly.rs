//! What the conversion to script notes on the way: letters that no symbol
//! stands for, and vowel signs that have no consonant to attach to. Neither
//! stops the conversion.

use crate::script::{
    chunk_len, denoted, lemma_chunk_len_bounds, resolve, spell, word_start, WordState,
};
use crate::symbol::{SymbolClass, SymbolView};
use crate::text::{
    is_white_space, kind_of, lemma_run_len_bounds, run_len, segments, SegmentKind, SegmentView,
};
use vstd::prelude::*;

verus! {

/// What was found amiss in the Roman text.
#[derive(Clone, Copy, Debug, PartialEq, Eq, Structural)]
pub enum AnomalyKind {
    /// A letter that is no Roman form: it was passed through as it is.
    Unmapped,
    /// A dependent vowel sign that follows no bare consonant: its script
    /// form was written all the same.
    StraySign,
}

/// One anomaly as contracts see it.
pub struct AnomalyView {
    /// What is amiss.
    pub kind: AnomalyKind,
    /// The Roman letters that it is about.
    pub text: Seq<char>,
}

/// One anomaly: its kind, and the Roman letters that it is about.
#[derive(Debug)]
pub struct Anomaly {
    /// What is amiss.
    pub kind: AnomalyKind,
    /// The Roman letters that it is about: the letter that passed through,
    /// or the Roman form of the stray sign.
    pub text: Vec<char>,
}

impl View for Anomaly {
    type V = AnomalyView;

    open spec fn view(&self) -> AnomalyView {
        AnomalyView { kind: self.kind, text: self.text@ }
    }
}

/// The views of `notes`, in order.
pub open spec fn anomalies_view(notes: Seq<Anomaly>) -> Seq<AnomalyView> {
    Seq::new(notes.len(), |i: int| notes[i]@)
}

/// What is noted when `sym` is written in the state `st`: a dependent
/// vowel sign is stray unless a bare consonant stands before it.
pub open spec fn emit_anomalies(st: WordState, sym: SymbolView) -> Seq<AnomalyView> {
    if sym.class == SymbolClass::DependentVowel && !st.bare {
        seq![AnomalyView { kind: AnomalyKind::StraySign, text: sym.roman }]
    } else {
        Seq::empty()
    }
}

/// What is noted when the letter `c` is read on its own.
pub open spec fn spell_anomalies(table: Seq<SymbolView>, st: WordState, c: char) -> Seq<
    AnomalyView,
> {
    match denoted(table, seq![c], st.out.len() == 0) {
        Some(i) => emit_anomalies(st, table[i]),
        None => seq![AnomalyView { kind: AnomalyKind::Unmapped, text: seq![c] }],
    }
}

/// What is noted when a chunk is read letter by letter.
pub open spec fn spell_out_anomalies(
    table: Seq<SymbolView>,
    st: WordState,
    chunk: Seq<char>,
) -> Seq<AnomalyView>
    decreases chunk.len(),
{
    if chunk.len() == 0 {
        Seq::empty()
    } else {
        spell_anomalies(table, st, chunk[0]) + spell_out_anomalies(
            table,
            spell(table, st, chunk[0]),
            chunk.skip(1),
        )
    }
}

/// What is noted when one chunk is read.
pub open spec fn resolve_anomalies(table: Seq<SymbolView>, st: WordState, chunk: Seq<char>) -> Seq<
    AnomalyView,
> {
    match denoted(table, chunk, st.out.len() == 0) {
        Some(i) => emit_anomalies(st, table[i]),
        None => spell_out_anomalies(table, st, chunk),
    }
}

/// What is noted when the letters `w` of a word are read from the state `st`.
pub open spec fn reconstruct_anomalies(table: Seq<SymbolView>, w: Seq<char>, st: WordState) -> Seq<
    AnomalyView,
>
    decreases w.len(),
    via reconstruct_anomalies_decreases
{
    if w.len() == 0 {
        Seq::empty()
    } else {
        let n = chunk_len(table, w);
        resolve_anomalies(table, st, w.take(n)) + reconstruct_anomalies(
            table,
            w.skip(n),
            resolve(table, st, w.take(n)),
        )
    }
}

#[via_fn]
proof fn reconstruct_anomalies_decreases(table: Seq<SymbolView>, w: Seq<char>, st: WordState) {
    if w.len() > 0 {
        lemma_chunk_len_bounds(table, w);
    }
}

/// What is noted for one word.
pub open spec fn word_anomalies(table: Seq<SymbolView>, w: Seq<char>) -> Seq<AnomalyView> {
    reconstruct_anomalies(table, w, word_start())
}

/// What is noted for the Roman text `s`: the anomalies of its words, in order.
pub open spec fn script_anomalies(table: Seq<SymbolView>, s: Seq<char>) -> Seq<AnomalyView>
    decreases s.len(),
    via script_anomalies_decreases
{
    if s.len() == 0 {
        Seq::empty()
    } else if is_white_space(s[0]) {
        script_anomalies(table, s.skip(1))
    } else {
        let n = run_len(s, false) as int;
        word_anomalies(table, s.take(n)) + script_anomalies(table, s.skip(n))
    }
}

#[via_fn]
proof fn script_anomalies_decreases(table: Seq<SymbolView>, s: Seq<char>) {
    lemma_run_len_bounds(s, false);
}

/// What is noted for a text cut into segments.
pub open spec fn segments_anomalies(table: Seq<SymbolView>, segs: Seq<SegmentView>) -> Seq<
    AnomalyView,
>
    decreases segs.len(),
{
    if segs.len() == 0 {
        Seq::empty()
    } else if segs[0].kind == SegmentKind::Whitespace {
        segments_anomalies(table, segs.skip(1))
    } else {
        word_anomalies(table, segs[0].text) + segments_anomalies(table, segs.skip(1))
    }
}

/// A run of white space at the start of the text has nothing amiss.
pub proof fn lemma_anomalies_skip_space_run(table: Seq<SymbolView>, s: Seq<char>)
    ensures
        script_anomalies(table, s) == script_anomalies(table, s.skip(run_len(s, true) as int)),
    decreases s.len(),
{
    if s.len() > 0 && is_white_space(s[0]) {
        let rest = s.skip(1);
        let n = run_len(rest, true) as int;
        lemma_anomalies_skip_space_run(table, rest);
        lemma_run_len_bounds(rest, true);
        assert(s.skip(n + 1) =~= rest.skip(n));
    } else {
        assert(s.skip(0) =~= s);
    }
}

/// The anomalies of a text are those of its words, segment by segment.
pub proof fn lemma_anomalies_by_segments(table: Seq<SymbolView>, s: Seq<char>)
    ensures
        script_anomalies(table, s) == segments_anomalies(table, segments(s)),
    decreases s.len(),
{
    if s.len() > 0 {
        let space = is_white_space(s[0]);
        let n = run_len(s, space) as int;
        lemma_run_len_bounds(s, space);
        let head = SegmentView { kind: kind_of(space), text: s.take(n) };
        let tail = segments(s.skip(n));
        lemma_anomalies_by_segments(table, s.skip(n));
        assert((seq![head] + tail).skip(1) =~= tail);
        assert((seq![head] + tail)[0] == head);
        if space {
            lemma_anomalies_skip_space_run(table, s);
        }
    }
}

} // verus!
