//! Consonant letters that follow one another are written with the
//! vowel-killer between them.

use crate::laws::basics::{
    lemma_denoted_is_form, lemma_occurs_in_longer, lemma_occurs_in_middle,
    lemma_reconstruct_extends, lemma_segments_script_holds_word, lemma_spell_out_extends,
    occurs_in,
};
use crate::registry::{
    lemma_consonant_forms_apart, lemma_script_forms_single, lemma_sign_forms_end_in_no_consonant,
    registry, VOWEL_KILLER,
};
use crate::script::{
    chunk_growth, chunk_len, denoted, lemma_chunk_len_bounds, lemma_script_by_segments,
    reconstruct, resolve, script_spec, spell, spell_out, word_script, word_start, WordState,
};
use crate::symbol::{is_vowel_form, lemma_roman_index, roman_index, SymbolClass, SymbolView};
use crate::text::{segments, SegmentKind};
use vstd::prelude::*;

verus! {

/// Whether the letter `c` is, on its own, the Roman form of a consonant.
pub open spec fn is_consonant_letter(c: char) -> bool {
    exists|i: int|
        0 <= i < registry().len() && (#[trigger] registry()[i]).roman == seq![c]
            && registry()[i].class == SymbolClass::Consonant
}

/// The glyph that the consonant letter `c` is written with.
pub open spec fn consonant_glyph(c: char) -> Seq<char> {
    match roman_index(registry(), seq![c], None) {
        Some(i) => registry()[i].script,
        None => Seq::empty(),
    }
}

/// A consonant letter denotes a consonant wherever it stands, and forces
/// no chunk to end.
pub proof fn lemma_consonant_letter(c: char, at_start: bool)
    requires
        is_consonant_letter(c),
    ensures
        denoted(registry(), seq![c], at_start) == roman_index(registry(), seq![c], None),
        roman_index(registry(), seq![c], None) matches Some(i) && 0 <= i < registry().len()
            && registry()[i].class == SymbolClass::Consonant && registry()[i].script
            == consonant_glyph(c),
        !is_vowel_form(registry(), seq![c]),
{
    let form = seq![c];
    lemma_consonant_forms_apart();
    lemma_roman_index(registry(), form, None);
    lemma_roman_index(registry(), form, Some(SymbolClass::IndependentVowel));
    lemma_roman_index(registry(), form, Some(SymbolClass::DependentVowel));
    let k = choose|k: int|
        0 <= k < registry().len() && (#[trigger] registry()[k]).roman == form && registry()[k].class
            == SymbolClass::Consonant;
    assert(registry()[k].roman == form);
    assert forall|j: int| 0 <= j < registry().len() && registry()[j].class
        != SymbolClass::Consonant implies (#[trigger] registry()[j]).roman != form by {
        assert(registry()[k].roman != registry()[j].roman);
    }
}

/// Two consonant letters that are read one after the other are written
/// with the vowel-killer between their glyphs.
pub proof fn lemma_spell_out_puts_killer(st: WordState, chunk: Seq<char>, j: int)
    requires
        0 <= j,
        j + 1 < chunk.len(),
        is_consonant_letter(chunk[j]),
        is_consonant_letter(chunk[j + 1]),
    ensures
        occurs_in(
            spell_out(registry(), st, chunk).out,
            consonant_glyph(chunk[j]).push(VOWEL_KILLER) + consonant_glyph(chunk[j + 1]),
        ),
    decreases j,
{
    let rest = chunk.skip(1);
    let one = spell(registry(), st, chunk[0]);
    if j == 0 {
        let a = chunk[0];
        let b = chunk[1];
        let needle = consonant_glyph(a).push(VOWEL_KILLER) + consonant_glyph(b);
        lemma_consonant_letter(a, st.out.len() == 0);
        lemma_consonant_letter(b, false);
        lemma_script_forms_single();
        assert(rest[0] == b);
        let two = spell(registry(), one, b);
        assert(one.bare && one.out.len() > 0);
        let p = one.out.len() - 1;
        assert(two.out.subrange(p, p + needle.len()) =~= needle);
        assert(occurs_in(two.out, needle));
        lemma_spell_out_extends(registry(), two, rest.skip(1));
        lemma_occurs_in_longer(two.out, spell_out(registry(), two, rest.skip(1)).out, needle);
        assert(spell_out(registry(), one, rest) == spell_out(registry(), two, rest.skip(1)));
        assert(spell_out(registry(), st, chunk) == spell_out(registry(), one, rest));
    } else {
        assert(rest[j - 1] == chunk[j]);
        assert(rest[j] == chunk[j + 1]);
        lemma_spell_out_puts_killer(one, rest, j - 1);
        assert(spell_out(registry(), st, chunk) == spell_out(registry(), one, rest));
    }
}

/// The chunk of the word `w` that holds the letter at position `k`.
pub open spec fn chunk_at(table: Seq<SymbolView>, w: Seq<char>, k: int) -> Seq<char>
    decreases w.len(),
    via chunk_at_decreases
{
    if w.len() == 0 || k < 0 {
        Seq::empty()
    } else {
        let n = chunk_len(table, w);
        if k < n {
            w.take(n)
        } else {
            chunk_at(table, w.skip(n), k - n)
        }
    }
}

#[via_fn]
proof fn chunk_at_decreases(table: Seq<SymbolView>, w: Seq<char>, k: int) {
    if w.len() > 0 {
        lemma_chunk_len_bounds(table, w);
    }
}

/// Where a chunk stops before the end of the word, it is the Roman form of
/// a vowel, a vowel sign or a modifier, or the next letter is one on its own.
pub proof fn lemma_chunk_stops(table: Seq<SymbolView>, w: Seq<char>, len: int)
    requires
        1 <= len <= w.len(),
    ensures
        ({
            let end = len + chunk_growth(table, w, len);
            end == w.len() || is_vowel_form(table, w.take(end)) || is_vowel_form(
                table,
                seq![w[end]],
            )
        }),
    decreases w.len() - len,
{
    if len < w.len() && !is_vowel_form(table, w.take(len)) && !is_vowel_form(table, seq![w[len]]) {
        lemma_chunk_stops(table, w, len + 1);
    }
}

/// No chunk ends between two consonant letters.
pub proof fn lemma_consonants_share_chunk(w: Seq<char>, k: int)
    requires
        0 <= k,
        k + 1 < w.len(),
        is_consonant_letter(w[k]),
        is_consonant_letter(w[k + 1]),
    ensures
        chunk_len(registry(), w) != k + 1,
{
    let n = chunk_len(registry(), w);
    if n == k + 1 {
        lemma_chunk_stops(registry(), w, 1);
        lemma_consonant_letter(w[k + 1], false);
        let buffer = w.take(n);
        assert(is_vowel_form(registry(), buffer));
        let i = choose|i: int|
            0 <= i < registry().len() && (#[trigger] registry()[i]).roman == buffer
                && registry()[i].class != SymbolClass::Consonant;
        let j = choose|j: int|
            0 <= j < registry().len() && (#[trigger] registry()[j]).roman == seq![w[k]]
                && registry()[j].class == SymbolClass::Consonant;
        lemma_sign_forms_end_in_no_consonant();
        assert(registry()[i].roman.last() == w[k]);
        assert(registry()[j].roman[0] == w[k]);
        assert(registry()[i].roman.last() != registry()[j].roman[0]);
    }
}

/// Two consonant letters that follow one another in a word are written
/// with the vowel-killer between their glyphs, whatever was written for the
/// word before, unless the two make up a chunk that is itself a Roman form.
pub proof fn lemma_reconstruct_puts_killer(w: Seq<char>, st: WordState, k: int)
    requires
        0 <= k,
        k + 1 < w.len(),
        is_consonant_letter(w[k]),
        is_consonant_letter(w[k + 1]),
        roman_index(registry(), chunk_at(registry(), w, k), None) is None,
    ensures
        occurs_in(
            reconstruct(registry(), w, st).out,
            consonant_glyph(w[k]).push(VOWEL_KILLER) + consonant_glyph(w[k + 1]),
        ),
    decreases w.len(),
{
    let needle = consonant_glyph(w[k]).push(VOWEL_KILLER) + consonant_glyph(w[k + 1]);
    let n = chunk_len(registry(), w);
    lemma_chunk_len_bounds(registry(), w);
    lemma_consonants_share_chunk(w, k);
    let chunk = w.take(n);
    let rest = w.skip(n);
    let next = resolve(registry(), st, chunk);
    if k < n {
        assert(chunk_at(registry(), w, k) == chunk);
        lemma_denoted_is_form(registry(), chunk, st.out.len() == 0);
        assert(next == spell_out(registry(), st, chunk));
        assert(chunk[k] == w[k] && chunk[k + 1] == w[k + 1]);
        lemma_spell_out_puts_killer(st, chunk, k);
        lemma_reconstruct_extends(registry(), rest, next);
        lemma_occurs_in_longer(next.out, reconstruct(registry(), rest, next).out, needle);
    } else {
        assert(rest[k - n] == w[k] && rest[k - n + 1] == w[k + 1]);
        lemma_reconstruct_puts_killer(rest, next, k - n);
    }
}

/// Two consonant letters that follow one another in a word are written
/// with the vowel-killer between their glyphs, unless the two make up a
/// chunk that is itself a Roman form: then they are read as the one symbol
/// with that form.
pub proof fn lemma_killer_between_consonants(w: Seq<char>, k: int)
    requires
        0 <= k,
        k + 1 < w.len(),
        is_consonant_letter(w[k]),
        is_consonant_letter(w[k + 1]),
        roman_index(registry(), chunk_at(registry(), w, k), None) is None,
    ensures
        occurs_in(
            word_script(registry(), w),
            consonant_glyph(w[k]).push(VOWEL_KILLER) + consonant_glyph(w[k + 1]),
        ),
{
    lemma_reconstruct_puts_killer(w, word_start(), k);
}

/// Two consonant letters that follow one another in a word of a text are
/// written with the vowel-killer between their glyphs in the script text of
/// the text, unless the two make up a chunk that is itself a Roman form.
pub proof fn lemma_script_killer_between_consonants(s: Seq<char>, g: int, k: int)
    requires
        0 <= g < segments(s).len(),
        segments(s)[g].kind == SegmentKind::Word,
        0 <= k,
        k + 1 < segments(s)[g].text.len(),
        is_consonant_letter(segments(s)[g].text[k]),
        is_consonant_letter(segments(s)[g].text[k + 1]),
        roman_index(registry(), chunk_at(registry(), segments(s)[g].text, k), None) is None,
    ensures
        occurs_in(
            script_spec(registry(), s),
            consonant_glyph(segments(s)[g].text[k]).push(VOWEL_KILLER) + consonant_glyph(
                segments(s)[g].text[k + 1],
            ),
        ),
{
    let w = segments(s)[g].text;
    let needle = consonant_glyph(w[k]).push(VOWEL_KILLER) + consonant_glyph(w[k + 1]);
    let word = word_script(registry(), w);
    let whole = script_spec(registry(), s);
    lemma_killer_between_consonants(w, k);
    lemma_script_by_segments(registry(), s);
    lemma_segments_script_holds_word(registry(), segments(s), g);
    let p = choose|p: int|
        0 <= p && p + word.len() <= whole.len() && #[trigger] whole.subrange(p, p + word.len())
            == word;
    lemma_occurs_in_middle(whole.take(p), word, whole.skip(p + word.len()), needle);
    assert(whole.take(p) + word + whole.skip(p + word.len()) =~= whole);
}

} // verus!
