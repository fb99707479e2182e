//! No vowel-killer is put at the end of a word.

use crate::laws::basics::lemma_denoted_is_no_killer;
use crate::registry::{registry, VOWEL_KILLER};
use crate::script::{
    chunk_len, lemma_chunk_len_bounds, reconstruct, resolve, script_spec, spell, spell_out,
    word_script, word_start, WordState,
};
use crate::text::{is_white_space, lemma_run_len_bounds, run_len};
use vstd::prelude::*;

verus! {

/// Whether what is written holds something and ends in the vowel-killer
/// only where the last letter read, `c`, is the vowel-killer itself.
pub open spec fn ends_well(st: WordState, c: char) -> bool {
    st.out.len() > 0 && (st.out.last() == VOWEL_KILLER ==> c == VOWEL_KILLER)
}

/// After one letter read on its own the output ends well.
pub proof fn lemma_spell_ends_well(st: WordState, c: char)
    ensures
        ends_well(spell(registry(), st, c), c),
{
    lemma_denoted_is_no_killer(seq![c], st.out.len() == 0);
}

/// After a chunk read letter by letter the output ends well.
pub proof fn lemma_spell_out_ends_well(st: WordState, chunk: Seq<char>)
    requires
        chunk.len() > 0,
    ensures
        ends_well(spell_out(registry(), st, chunk), chunk.last()),
    decreases chunk.len(),
{
    let next = spell(registry(), st, chunk[0]);
    let rest = chunk.skip(1);
    if rest.len() > 0 {
        lemma_spell_out_ends_well(next, rest);
        assert(rest.last() == chunk.last());
    } else {
        lemma_spell_ends_well(st, chunk[0]);
        assert(spell_out(registry(), next, rest) == next);
    }
}

/// After a chunk the output ends well.
pub proof fn lemma_resolve_ends_well(st: WordState, chunk: Seq<char>)
    requires
        chunk.len() > 0,
    ensures
        ends_well(resolve(registry(), st, chunk), chunk.last()),
{
    lemma_denoted_is_no_killer(chunk, st.out.len() == 0);
    lemma_spell_out_ends_well(st, chunk);
}

/// After a word the output ends well.
pub proof fn lemma_reconstruct_ends_well(w: Seq<char>, st: WordState)
    requires
        w.len() > 0,
    ensures
        ends_well(reconstruct(registry(), w, st), w.last()),
    decreases w.len(),
{
    let n = chunk_len(registry(), w);
    lemma_chunk_len_bounds(registry(), w);
    let next = resolve(registry(), st, w.take(n));
    let rest = w.skip(n);
    if rest.len() > 0 {
        lemma_reconstruct_ends_well(rest, next);
        assert(rest.last() == w.last());
    } else {
        lemma_resolve_ends_well(st, w.take(n));
        assert(w.take(n) =~= w);
        assert(reconstruct(registry(), rest, next) == next);
    }
}

/// No vowel-killer is put at the end of a word: the script text of a word
/// ends in the vowel-killer only where the word itself ends in that
/// character, which then passed through. A consonant at the end of a word
/// keeps its inherent vowel.
pub proof fn lemma_no_trailing_killer(w: Seq<char>)
    requires
        w.len() > 0,
    ensures
        word_script(registry(), w).len() > 0,
        word_script(registry(), w).last() == VOWEL_KILLER ==> w.last() == VOWEL_KILLER,
{
    lemma_reconstruct_ends_well(w, word_start());
}

/// The script text of a text that holds a character holds one too, and
/// ends in the vowel-killer only where the text itself ends in that
/// character: the conversion puts none at the end.
pub proof fn lemma_script_no_trailing_killer(s: Seq<char>)
    requires
        s.len() > 0,
    ensures
        script_spec(registry(), s).len() > 0,
        script_spec(registry(), s).last() == VOWEL_KILLER ==> s.last() == VOWEL_KILLER,
    decreases s.len(),
{
    let out = script_spec(registry(), s);
    if is_white_space(s[0]) {
        let rest = s.skip(1);
        let tail = script_spec(registry(), rest);
        assert(out == seq![s[0]] + tail);
        if rest.len() > 0 {
            lemma_script_no_trailing_killer(rest);
            assert(rest.last() == s.last());
            assert(out.last() == tail.last());
        } else {
            assert(tail =~= Seq::empty());
            assert(out =~= seq![s[0]]);
        }
    } else {
        let n = run_len(s, false) as int;
        lemma_run_len_bounds(s, false);
        let w = s.take(n);
        let rest = s.skip(n);
        let head = word_script(registry(), w);
        let tail = script_spec(registry(), rest);
        assert(out == head + tail);
        lemma_no_trailing_killer(w);
        if rest.len() > 0 {
            lemma_script_no_trailing_killer(rest);
            assert(rest.last() == s.last());
            assert(out.last() == tail.last());
        } else {
            assert(w =~= s);
            assert(tail =~= Seq::empty());
            assert(out =~= head);
        }
    }
}

} // verus!
