//! Facts about the Roman-to-script conversion that the laws rest on: what
//! a Roman form denotes, that reading only ever adds to what is written,
//! and what it means for one text to stand in another.

use crate::registry::{
    killer_index, lemma_only_killer_is_silent, lemma_script_forms_single, registry, VOWEL_KILLER,
};
use crate::script::{
    chunk_len, denoted, lemma_chunk_len_bounds, reconstruct, resolve, segments_script, spell,
    spell_out, word_script, WordState,
};
use crate::symbol::{lemma_roman_index, roman_index, SymbolClass, SymbolView};
use crate::text::{SegmentKind, SegmentView};
use vstd::prelude::*;

verus! {

/// The symbol that a Roman form denotes has that Roman form, and a form
/// denotes nothing exactly when no symbol has it.
pub proof fn lemma_denoted_is_form(table: Seq<SymbolView>, form: Seq<char>, at_start: bool)
    ensures
        match denoted(table, form, at_start) {
            Some(i) => 0 <= i < table.len() && table[i].roman == form,
            None => roman_index(table, form, None) is None && forall|j: int|
                0 <= j < table.len() ==> (#[trigger] table[j]).roman != form,
        },
        roman_index(table, form, None) is None ==> denoted(table, form, at_start) is None,
{
    lemma_roman_index(table, form, None);
    lemma_roman_index(table, form, Some(SymbolClass::IndependentVowel));
    lemma_roman_index(table, form, Some(SymbolClass::DependentVowel));
}

/// A Roman form that holds a letter never denotes the vowel-killer, so
/// the glyph written for it is another one.
pub proof fn lemma_denoted_is_no_killer(form: Seq<char>, at_start: bool)
    requires
        form.len() > 0,
    ensures
        denoted(registry(), form, at_start) matches Some(i) ==> 0 <= i < registry().len() && i
            != killer_index() && registry()[i].roman == form && registry()[i].script.len() == 1
            && registry()[i].script[0] != VOWEL_KILLER,
{
    lemma_denoted_is_form(registry(), form, at_start);
    lemma_only_killer_is_silent();
    lemma_script_forms_single();
    match denoted(registry(), form, at_start) {
        Some(i) => {
            if registry()[i].script[0] == VOWEL_KILLER {
                assert(registry()[i].script =~= seq![VOWEL_KILLER]);
            }
        },
        None => {},
    }
}

/// Reading letter by letter only ever adds to what is written.
pub proof fn lemma_spell_out_extends(table: Seq<SymbolView>, st: WordState, chunk: Seq<char>)
    ensures
        st.out.is_prefix_of(spell_out(table, st, chunk).out),
    decreases chunk.len(),
{
    if chunk.len() > 0 {
        let next = spell(table, st, chunk[0]);
        assert(st.out.is_prefix_of(next.out));
        lemma_spell_out_extends(table, next, chunk.skip(1));
    }
}

/// Reading a chunk only ever adds to what is written.
pub proof fn lemma_resolve_extends(table: Seq<SymbolView>, st: WordState, chunk: Seq<char>)
    ensures
        st.out.is_prefix_of(resolve(table, st, chunk).out),
{
    lemma_spell_out_extends(table, st, chunk);
}

/// Reading a word only ever adds to what is written.
pub proof fn lemma_reconstruct_extends(table: Seq<SymbolView>, w: Seq<char>, st: WordState)
    ensures
        st.out.is_prefix_of(reconstruct(table, w, st).out),
    decreases w.len(),
{
    if w.len() > 0 {
        let n = chunk_len(table, w);
        lemma_chunk_len_bounds(table, w);
        let next = resolve(table, st, w.take(n));
        lemma_resolve_extends(table, st, w.take(n));
        lemma_reconstruct_extends(table, w.skip(n), next);
    }
}

/// Whether `needle` stands somewhere in `hay`, without a gap.
pub open spec fn occurs_in(hay: Seq<char>, needle: Seq<char>) -> bool {
    exists|p: int|
        0 <= p && p + needle.len() <= hay.len() && #[trigger] hay.subrange(p, p + needle.len())
            == needle
}

/// What stands in a text stands in every text that begins with it.
pub proof fn lemma_occurs_in_longer(hay: Seq<char>, longer: Seq<char>, needle: Seq<char>)
    requires
        occurs_in(hay, needle),
        hay.is_prefix_of(longer),
    ensures
        occurs_in(longer, needle),
{
    let p = choose|p: int|
        0 <= p && p + needle.len() <= hay.len() && #[trigger] hay.subrange(p, p + needle.len())
            == needle;
    assert(longer.subrange(p, p + needle.len()) =~= hay.subrange(p, p + needle.len()));
}

/// What stands in a piece of a text stands in the text.
pub proof fn lemma_occurs_in_middle(
    before: Seq<char>,
    piece: Seq<char>,
    after: Seq<char>,
    needle: Seq<char>,
)
    requires
        occurs_in(piece, needle),
    ensures
        occurs_in(before + piece + after, needle),
{
    let p = choose|p: int|
        0 <= p && p + needle.len() <= piece.len() && #[trigger] piece.subrange(
            p,
            p + needle.len(),
        ) == needle;
    let whole = before + piece + after;
    let q = before.len() + p;
    assert(whole.subrange(q, q + needle.len()) =~= piece.subrange(p, p + needle.len()));
}

/// The script text of every word of a text stands in the script text of
/// the text.
pub proof fn lemma_segments_script_holds_word(
    table: Seq<SymbolView>,
    segs: Seq<SegmentView>,
    g: int,
)
    requires
        0 <= g < segs.len(),
        segs[g].kind == SegmentKind::Word,
    ensures
        occurs_in(segments_script(table, segs), word_script(table, segs[g].text)),
    decreases segs.len(),
{
    let word = word_script(table, segs[g].text);
    let rest = segments_script(table, segs.skip(1));
    assert(occurs_in(word, word)) by {
        assert(word.subrange(0, 0 + word.len() as int) =~= word);
    }
    if g == 0 {
        lemma_occurs_in_middle(Seq::empty(), word, rest, word);
        assert(Seq::<char>::empty() + word + rest =~= word + rest);
    } else {
        assert(segs.skip(1)[g - 1] == segs[g]);
        lemma_segments_script_holds_word(table, segs.skip(1), g - 1);
        let first = if segs[0].kind == SegmentKind::Whitespace {
            segs[0].text
        } else {
            word_script(table, segs[0].text)
        };
        lemma_occurs_in_middle(first, rest, Seq::empty(), word);
        assert(first + rest + Seq::<char>::empty() =~= first + rest);
    }
}

} // verus!
