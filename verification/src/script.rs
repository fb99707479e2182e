//! Roman to script: word by word, the Roman text is cut into chunks, each
//! chunk is read as one symbol or spelled out letter by letter, and the
//! vowel-killer is put between consonants that follow one another.

use crate::anomaly::{
    anomalies_view, emit_anomalies, lemma_anomalies_by_segments, reconstruct_anomalies,
    resolve_anomalies, script_anomalies, segments_anomalies, spell_anomalies,
    spell_out_anomalies, word_anomalies, Anomaly, AnomalyKind,
};
use crate::registry::VOWEL_KILLER;
use crate::symbol::{
    find_roman, is_vowel_form, roman_index, table_view, vowel_form_at, Symbol, SymbolClass,
    SymbolView,
};
use crate::text::{
    append_chars, copy_range, is_white_space, kind_of, lemma_run_len_bounds, run_len, segments,
    segments_view, split_preserving_whitespace, SegmentKind, SegmentView,
};
use vstd::prelude::*;

verus! {

/// Where the reconstruction of one word stands, as contracts see it.
pub struct WordState {
    /// The script text written for the word so far.
    pub out: Seq<char>,
    /// Whether the last thing written is a consonant that still carries its
    /// inherent vowel.
    pub bare: bool,
}

/// Where the reconstruction of one word stands: the script text written
/// so far, whether a bare consonant is the last thing written, and what
/// was found amiss so far.
#[derive(Debug)]
pub struct Progress {
    /// The script text written for the word so far.
    pub out: Vec<char>,
    /// Whether the last thing written is a consonant that still carries its
    /// inherent vowel.
    pub bare: bool,
    /// What was found amiss so far, in the order of the text.
    pub notes: Vec<Anomaly>,
}

impl View for Progress {
    type V = WordState;

    open spec fn view(&self) -> WordState {
        WordState { out: self.out@, bare: self.bare }
    }
}

/// The state at the start of every word: nothing written, no consonant pending.
pub open spec fn word_start() -> WordState {
    WordState { out: Seq::empty(), bare: false }
}

/// The symbol that the Roman form `form` denotes where it stands. Where
/// nothing has been written for the word yet, an independent vowel with
/// that form is taken first; elsewhere a dependent vowel sign with that form
/// is. Failing that, it is the first registered symbol with that form.
pub open spec fn denoted(table: Seq<SymbolView>, form: Seq<char>, at_start: bool) -> Option<int> {
    let preferred = if at_start {
        SymbolClass::IndependentVowel
    } else {
        SymbolClass::DependentVowel
    };
    match roman_index(table, form, Some(preferred)) {
        Some(i) => Some(i),
        None => roman_index(table, form, None),
    }
}

/// Writing one symbol. A consonant that follows a bare consonant is
/// preceded by the vowel-killer, and is bare itself. Anything else is
/// written as it is and leaves no consonant bare.
pub open spec fn emit(st: WordState, sym: SymbolView) -> WordState {
    if sym.class == SymbolClass::Consonant {
        if st.bare {
            WordState { out: st.out.push(VOWEL_KILLER) + sym.script, bare: true }
        } else {
            WordState { out: st.out + sym.script, bare: true }
        }
    } else {
        WordState { out: st.out + sym.script, bare: false }
    }
}

/// Writing a character that no symbol stands for: it passes through unchanged.
pub open spec fn pass_through(st: WordState, c: char) -> WordState {
    WordState { out: st.out.push(c), bare: false }
}

/// Reading one letter on its own.
pub open spec fn spell(table: Seq<SymbolView>, st: WordState, c: char) -> WordState {
    match denoted(table, seq![c], st.out.len() == 0) {
        Some(i) => emit(st, table[i]),
        None => pass_through(st, c),
    }
}

/// Reading a chunk letter by letter, from left to right.
pub open spec fn spell_out(table: Seq<SymbolView>, st: WordState, chunk: Seq<char>) -> WordState
    decreases chunk.len(),
{
    if chunk.len() == 0 {
        st
    } else {
        spell_out(table, spell(table, st, chunk[0]), chunk.skip(1))
    }
}

/// Reading one chunk: as a single symbol where the whole chunk is a Roman
/// form, letter by letter otherwise.
pub open spec fn resolve(table: Seq<SymbolView>, st: WordState, chunk: Seq<char>) -> WordState {
    match denoted(table, chunk, st.out.len() == 0) {
        Some(i) => emit(st, table[i]),
        None => spell_out(table, st, chunk),
    }
}

/// How many letters a chunk made of the first `len` letters of `w` still
/// grows by. It stops growing at the end of the word, once it is itself the
/// Roman form of a vowel, a vowel sign or a modifier, and before a letter
/// that is such a form on its own.
pub open spec fn chunk_growth(table: Seq<SymbolView>, w: Seq<char>, len: int) -> nat
    decreases w.len() - len,
{
    if 0 <= len < w.len() && !is_vowel_form(table, w.take(len)) && !is_vowel_form(
        table,
        seq![w[len]],
    ) {
        1 + chunk_growth(table, w, len + 1)
    } else {
        0
    }
}

/// The length of the first chunk of `w`.
pub open spec fn chunk_len(table: Seq<SymbolView>, w: Seq<char>) -> int {
    1 + chunk_growth(table, w, 1) as int
}

/// Reading the letters `w` of a word, chunk by chunk, from the state `st`.
pub open spec fn reconstruct(table: Seq<SymbolView>, w: Seq<char>, st: WordState) -> WordState
    decreases w.len(),
    via reconstruct_decreases
{
    if w.len() == 0 {
        st
    } else {
        let n = chunk_len(table, w);
        reconstruct(table, w.skip(n), resolve(table, st, w.take(n)))
    }
}

#[via_fn]
proof fn reconstruct_decreases(table: Seq<SymbolView>, w: Seq<char>, st: WordState) {
    if w.len() > 0 {
        lemma_chunk_len_bounds(table, w);
    }
}

/// The script text for one word.
pub open spec fn word_script(table: Seq<SymbolView>, w: Seq<char>) -> Seq<char> {
    reconstruct(table, w, word_start()).out
}

/// The script text for the Roman text `s`: a white-space character stands
/// for itself, and every word between is reconstructed on its own.
pub open spec fn script_spec(table: Seq<SymbolView>, s: Seq<char>) -> Seq<char>
    decreases s.len(),
    via script_spec_decreases
{
    if s.len() == 0 {
        Seq::empty()
    } else if is_white_space(s[0]) {
        seq![s[0]] + script_spec(table, s.skip(1))
    } else {
        let n = run_len(s, false) as int;
        word_script(table, s.take(n)) + script_spec(table, s.skip(n))
    }
}

#[via_fn]
proof fn script_spec_decreases(table: Seq<SymbolView>, s: Seq<char>) {
    lemma_run_len_bounds(s, false);
}

/// A chunk never grows past the end of the word.
pub proof fn lemma_chunk_growth_bounds(table: Seq<SymbolView>, w: Seq<char>, len: int)
    requires
        0 <= len <= w.len(),
    ensures
        len + chunk_growth(table, w, len) <= w.len(),
    decreases w.len() - len,
{
    if len < w.len() && !is_vowel_form(table, w.take(len)) && !is_vowel_form(table, seq![w[len]]) {
        lemma_chunk_growth_bounds(table, w, len + 1);
    }
}

/// A chunk holds at least one letter and lies within the word.
pub proof fn lemma_chunk_len_bounds(table: Seq<SymbolView>, w: Seq<char>)
    requires
        w.len() > 0,
    ensures
        1 <= chunk_len(table, w) <= w.len(),
{
    lemma_chunk_growth_bounds(table, w, 1);
}

/// Looks up the symbol that `text[start..end]` denotes where it stands.
pub(crate) fn denote(
    table: &Vec<Symbol>,
    text: &Vec<char>,
    start: usize,
    end: usize,
    at_start: bool,
) -> (r: Option<usize>)
    requires
        start <= end <= text.len(),
    ensures
        match r {
            Some(i) => denoted(
                table_view(table@),
                text@.subrange(start as int, end as int),
                at_start,
            ) == Some(i as int) && i < table.len(),
            None => denoted(table_view(table@), text@.subrange(start as int, end as int), at_start)
                is None,
        },
{
    let preferred = if at_start {
        SymbolClass::IndependentVowel
    } else {
        SymbolClass::DependentVowel
    };
    match find_roman(table, text, start, end, Some(preferred)) {
        Some(i) => Some(i),
        None => find_roman(table, text, start, end, None),
    }
}

/// Writes one symbol, and notes it where it is a vowel sign that follows
/// no bare consonant.
pub fn emit_symbol(state: &mut Progress, sym: &Symbol)
    ensures
        final(state)@ == emit(old(state)@, sym@),
        anomalies_view(final(state).notes@) == anomalies_view(old(state).notes@) + emit_anomalies(
            old(state)@,
            sym@,
        ),
{
    let ghost before = anomalies_view(state.notes@);
    if sym.class == SymbolClass::Consonant {
        if state.bare {
            state.out.push(VOWEL_KILLER);
        }
        append_chars(&mut state.out, &sym.script);
        state.bare = true;
        assert(anomalies_view(state.notes@) =~= before + Seq::empty());
    } else {
        if sym.class == SymbolClass::DependentVowel && !state.bare {
            let text = copy_range(&sym.roman, 0, sym.roman.len());
            assert(text@ =~= sym.roman@);
            state.notes.push(Anomaly { kind: AnomalyKind::StraySign, text });
            assert(anomalies_view(state.notes@) =~= before + emit_anomalies(old(state)@, sym@));
        } else {
            assert(anomalies_view(state.notes@) =~= before + Seq::empty());
        }
        append_chars(&mut state.out, &sym.script);
        state.bare = false;
    }
}

/// Reads the letters `word[start..end]` one by one.
pub(crate) fn spell_out_chunk(
    table: &Vec<Symbol>,
    word: &Vec<char>,
    start: usize,
    end: usize,
    state: &mut Progress,
)
    requires
        start <= end <= word.len(),
    ensures
        final(state)@ == spell_out(
            table_view(table@),
            old(state)@,
            word@.subrange(start as int, end as int),
        ),
        anomalies_view(final(state).notes@) == anomalies_view(old(state).notes@)
            + spell_out_anomalies(
            table_view(table@),
            old(state)@,
            word@.subrange(start as int, end as int),
        ),
{
    let ghost tv = table_view(table@);
    let ghost chunk = word@.subrange(start as int, end as int);
    let ghost noted = anomalies_view(state.notes@);
    let mut k: usize = start;
    assert(chunk.skip(0) =~= chunk);
    while k < end
        invariant
            start <= k <= end <= word.len(),
            tv == table_view(table@),
            chunk == word@.subrange(start as int, end as int),
            noted == anomalies_view(old(state).notes@),
            spell_out(tv, state@, chunk.skip(k - start)) == spell_out(tv, old(state)@, chunk),
            anomalies_view(state.notes@) + spell_out_anomalies(tv, state@, chunk.skip(k - start))
                == noted + spell_out_anomalies(tv, old(state)@, chunk),
        decreases end - k,
    {
        let ghost rest = chunk.skip(k - start);
        let ghost so_far = anomalies_view(state.notes@);
        let ghost here = state@;
        assert(rest[0] == word@[k as int]);
        assert(seq![rest[0]] =~= word@.subrange(k as int, k + 1));
        assert(rest.skip(1) =~= chunk.skip(k + 1 - start));
        let at_start = state.out.len() == 0;
        match denote(table, word, k, k + 1, at_start) {
            Some(i) => {
                emit_symbol(state, &table[i]);
            },
            None => {
                let mut text: Vec<char> = Vec::new();
                text.push(word[k]);
                state.notes.push(Anomaly { kind: AnomalyKind::Unmapped, text });
                state.out.push(word[k]);
                state.bare = false;
                assert(anomalies_view(state.notes@) =~= so_far + spell_anomalies(
                    tv,
                    here,
                    rest[0],
                ));
            },
        }
        assert(anomalies_view(state.notes@) + spell_out_anomalies(tv, state@, rest.skip(1))
            =~= so_far + spell_out_anomalies(tv, here, rest));
        k = k + 1;
    }
    assert(anomalies_view(state.notes@) + spell_out_anomalies(tv, state@, chunk.skip(k - start))
        =~= anomalies_view(state.notes@));
}

/// Reads the chunk `word[start..end]`.
pub(crate) fn resolve_chunk(
    table: &Vec<Symbol>,
    word: &Vec<char>,
    start: usize,
    end: usize,
    state: &mut Progress,
)
    requires
        start <= end <= word.len(),
    ensures
        final(state)@ == resolve(
            table_view(table@),
            old(state)@,
            word@.subrange(start as int, end as int),
        ),
        anomalies_view(final(state).notes@) == anomalies_view(old(state).notes@)
            + resolve_anomalies(
            table_view(table@),
            old(state)@,
            word@.subrange(start as int, end as int),
        ),
{
    let at_start = state.out.len() == 0;
    match denote(table, word, start, end, at_start) {
        Some(i) => {
            emit_symbol(state, &table[i]);
        },
        None => {
            spell_out_chunk(table, word, start, end, state);
        },
    }
}

/// Where the chunk that starts at `pos` ends.
pub(crate) fn chunk_end(table: &Vec<Symbol>, word: &Vec<char>, pos: usize) -> (end: usize)
    requires
        pos < word.len(),
    ensures
        end == pos + chunk_len(table_view(table@), word@.skip(pos as int)),
        pos < end <= word.len(),
{
    let ghost tv = table_view(table@);
    let ghost rest = word@.skip(pos as int);
    let mut end: usize = pos + 1;
    while end < word.len() && !vowel_form_at(table, word, pos, end) && !vowel_form_at(
        table,
        word,
        end,
        end + 1,
    )
        invariant
            pos < end <= word.len(),
            tv == table_view(table@),
            rest == word@.skip(pos as int),
            chunk_len(tv, rest) == (end - pos) + chunk_growth(tv, rest, end - pos),
            end < word.len() ==> rest.take(end - pos) == word@.subrange(pos as int, end as int)
                && seq![rest[end - pos]] == word@.subrange(end as int, end + 1),
        decreases word.len() - end,
    {
        end = end + 1;
        proof {
            if end < word.len() {
                assert(rest.take(end - pos) =~= word@.subrange(pos as int, end as int));
                assert(seq![rest[end - pos]] =~= word@.subrange(end as int, end + 1));
            }
        }
    }
    end
}

/// Reads one word: its script text, and what was found amiss in it.
pub fn read_word(table: &Vec<Symbol>, word: &Vec<char>) -> (state: Progress)
    ensures
        state@ == reconstruct(table_view(table@), word@, word_start()),
        anomalies_view(state.notes@) == word_anomalies(table_view(table@), word@),
{
    let ghost tv = table_view(table@);
    let mut state = Progress { out: Vec::new(), bare: false, notes: Vec::new() };
    let mut pos: usize = 0;
    assert(word@.skip(0) =~= word@);
    assert(anomalies_view(state.notes@) =~= Seq::empty());
    while pos < word.len()
        invariant
            pos <= word.len(),
            tv == table_view(table@),
            reconstruct(tv, word@.skip(pos as int), state@) == reconstruct(
                tv,
                word@,
                word_start(),
            ),
            anomalies_view(state.notes@) + reconstruct_anomalies(
                tv,
                word@.skip(pos as int),
                state@,
            ) == word_anomalies(tv, word@),
        decreases word.len() - pos,
    {
        let ghost rest = word@.skip(pos as int);
        let ghost so_far = anomalies_view(state.notes@);
        let ghost here = state@;
        let end = chunk_end(table, word, pos);
        resolve_chunk(table, word, pos, end, &mut state);
        assert(rest.take(end - pos) =~= word@.subrange(pos as int, end as int));
        assert(rest.skip(end - pos) =~= word@.skip(end as int));
        assert(anomalies_view(state.notes@) + reconstruct_anomalies(
            tv,
            rest.skip(end - pos),
            state@,
        ) =~= so_far + reconstruct_anomalies(tv, rest, here));
        pos = end;
    }
    assert(anomalies_view(state.notes@) + reconstruct_anomalies(
        tv,
        word@.skip(pos as int),
        state@,
    ) =~= anomalies_view(state.notes@));
    state
}

/// Reconstructs the script text of one word.
pub fn reconstruct_word(table: &Vec<Symbol>, word: &Vec<char>) -> (out: Vec<char>)
    ensures
        out@ == word_script(table_view(table@), word@),
{
    read_word(table, word).out
}

/// The script text for a text cut into segments: a run of white space
/// stands for itself, a word for its reconstruction.
pub open spec fn segments_script(table: Seq<SymbolView>, segs: Seq<SegmentView>) -> Seq<char>
    decreases segs.len(),
{
    if segs.len() == 0 {
        Seq::empty()
    } else {
        let first = if segs[0].kind == SegmentKind::Whitespace {
            segs[0].text
        } else {
            word_script(table, segs[0].text)
        };
        first + segments_script(table, segs.skip(1))
    }
}

/// A run of white space at the start of the text is copied as it stands.
pub proof fn lemma_script_copies_space_run(table: Seq<SymbolView>, s: Seq<char>)
    ensures
        script_spec(table, s) == s.take(run_len(s, true) as int) + script_spec(
            table,
            s.skip(run_len(s, true) as int),
        ),
    decreases s.len(),
{
    if s.len() > 0 && is_white_space(s[0]) {
        let rest = s.skip(1);
        let n = run_len(rest, true) as int;
        lemma_script_copies_space_run(table, rest);
        lemma_run_len_bounds(rest, true);
        assert(s.take(n + 1) =~= seq![s[0]] + rest.take(n));
        assert(s.skip(n + 1) =~= rest.skip(n));
        assert(seq![s[0]] + (rest.take(n) + script_spec(table, rest.skip(n))) =~= s.take(n + 1)
            + script_spec(table, s.skip(n + 1)));
    } else {
        assert(s.take(0) + script_spec(table, s.skip(0)) =~= script_spec(table, s.skip(0)));
        assert(s.skip(0) =~= s);
    }
}

/// The script text is made segment by segment: every run of white space
/// stands in it unchanged, between the reconstructions of the words
/// around it.
pub proof fn lemma_script_by_segments(table: Seq<SymbolView>, s: Seq<char>)
    ensures
        script_spec(table, s) == segments_script(table, segments(s)),
    decreases s.len(),
{
    if s.len() > 0 {
        let space = is_white_space(s[0]);
        let n = run_len(s, space) as int;
        lemma_run_len_bounds(s, space);
        let head = SegmentView { kind: kind_of(space), text: s.take(n) };
        let tail = segments(s.skip(n));
        lemma_script_by_segments(table, s.skip(n));
        assert((seq![head] + tail).skip(1) =~= tail);
        assert((seq![head] + tail)[0] == head);
        if space {
            lemma_script_copies_space_run(table, s);
        }
    }
}

/// Adds the anomalies `more` to `notes`.
fn append_anomalies(notes: &mut Vec<Anomaly>, more: Vec<Anomaly>)
    ensures
        anomalies_view(final(notes)@) == anomalies_view(old(notes)@) + anomalies_view(more@),
{
    let mut more = more;
    let ghost added = more@;
    notes.append(&mut more);
    assert(anomalies_view(notes@) =~= anomalies_view(old(notes)@) + anomalies_view(added));
}

/// Converts Roman text to script text, and lists what was found amiss in
/// it, in the order of the text.
pub fn read_text(table: &Vec<Symbol>, text: &Vec<char>) -> (r: (Vec<char>, Vec<Anomaly>))
    ensures
        r.0@ == script_spec(table_view(table@), text@),
        anomalies_view(r.1@) == script_anomalies(table_view(table@), text@),
{
    let ghost tv = table_view(table@);
    let segs = split_preserving_whitespace(text);
    let ghost sv = segments_view(segs@);
    let mut out: Vec<char> = Vec::new();
    let mut notes: Vec<Anomaly> = Vec::new();
    let mut k: usize = 0;
    assert(sv.skip(0) =~= sv);
    assert(anomalies_view(notes@) =~= Seq::empty());
    while k < segs.len()
        invariant
            k <= segs.len(),
            tv == table_view(table@),
            sv == segments_view(segs@),
            out@ + segments_script(tv, sv.skip(k as int)) == segments_script(tv, sv),
            anomalies_view(notes@) + segments_anomalies(tv, sv.skip(k as int))
                == segments_anomalies(tv, sv),
        decreases segs.len() - k,
    {
        let ghost rest = sv.skip(k as int);
        let ghost before = out@;
        let ghost noted = anomalies_view(notes@);
        assert(rest[0] == segs@[k as int]@);
        assert(rest.skip(1) =~= sv.skip(k + 1));
        if segs[k].kind == SegmentKind::Whitespace {
            append_chars(&mut out, &segs[k].text);
        } else {
            let word = read_word(table, &segs[k].text);
            append_chars(&mut out, &word.out);
            append_anomalies(&mut notes, word.notes);
        }
        assert(out@ + segments_script(tv, rest.skip(1)) =~= before + segments_script(tv, rest));
        assert(anomalies_view(notes@) + segments_anomalies(tv, rest.skip(1)) =~= noted
            + segments_anomalies(tv, rest));
        k = k + 1;
    }
    proof {
        assert(out@ + segments_script(tv, sv.skip(k as int)) =~= out@);
        assert(anomalies_view(notes@) + segments_anomalies(tv, sv.skip(k as int))
            =~= anomalies_view(notes@));
        lemma_script_by_segments(tv, text@);
        lemma_anomalies_by_segments(tv, text@);
    }
    (out, notes)
}

/// Converts Roman text to script text.
pub fn reconstruct_text(table: &Vec<Symbol>, text: &Vec<char>) -> (out: Vec<char>)
    ensures
        out@ == script_spec(table_view(table@), text@),
{
    read_text(table, text).0
}

} // verus!
