//! A text spelled in Roman forms can be read back from its script text.

use crate::laws::basics::lemma_denoted_is_form;
use crate::laws::forward::{lemma_romanize_by_letter, lemma_romanize_concat};
use crate::registry::{
    glyph, killer_index, lemma_only_killer_is_silent, lemma_script_forms_distinct,
    lemma_script_forms_single, registry, VOWEL_KILLER,
};
use crate::roman::{romanize_spec, token_roman};
use crate::script::{
    chunk_len, denoted, emit, lemma_chunk_len_bounds, reconstruct, resolve, script_spec, spell,
    spell_out, word_script, word_start, WordState,
};
use crate::symbol::{lemma_script_index, roman_index, SymbolClass};
use crate::text::{is_white_space, lemma_run_len_bounds, lemma_run_len_is_maximal, run_len};
use vstd::prelude::*;

verus! {

/// The Roman forms of the glyphs of `s`, one after the other: what the
/// conversion to Roman writes for script text without white space.
pub open spec fn glyphs_roman(s: Seq<char>) -> Seq<char>
    decreases s.len(),
{
    if s.len() == 0 {
        Seq::empty()
    } else {
        token_roman(registry(), seq![s[0]]) + glyphs_roman(s.skip(1))
    }
}

/// For a script text without white space, the conversion to Roman writes
/// the Roman forms of its glyphs one after the other.
pub proof fn lemma_romanize_glyphs(s: Seq<char>)
    requires
        forall|i: int| 0 <= i < s.len() ==> !is_white_space(#[trigger] s[i]),
    ensures
        romanize_spec(registry(), s) == glyphs_roman(s),
    decreases s.len(),
{
    if s.len() > 0 {
        let rest = s.skip(1);
        lemma_romanize_by_letter(s);
        assert(!is_white_space(s[0]));
        assert forall|i: int| 0 <= i < rest.len() implies !is_white_space(#[trigger] rest[i]) by {
            assert(rest[i] == s[i + 1]);
        }
        lemma_romanize_glyphs(rest);
    }
}

/// The Roman forms of the glyphs of two texts put together.
pub proof fn lemma_glyphs_roman_concat(a: Seq<char>, b: Seq<char>)
    ensures
        glyphs_roman(a + b) == glyphs_roman(a) + glyphs_roman(b),
    decreases a.len(),
{
    if a.len() == 0 {
        assert(a + b =~= b);
        assert(glyphs_roman(a) + glyphs_roman(b) =~= glyphs_roman(b));
    } else {
        assert((a + b).skip(1) =~= a.skip(1) + b);
        lemma_glyphs_roman_concat(a.skip(1), b);
        assert(token_roman(registry(), seq![a[0]]) + (glyphs_roman(a.skip(1)) + glyphs_roman(b))
            =~= (token_roman(registry(), seq![a[0]]) + glyphs_roman(a.skip(1))) + glyphs_roman(b));
    }
}

/// The glyph of a registered symbol reads back as the Roman form of that symbol.
pub proof fn lemma_glyph_reads_back(i: int)
    requires
        0 <= i < registry().len(),
    ensures
        glyphs_roman(registry()[i].script) == registry()[i].roman,
{
    let script = registry()[i].script;
    lemma_script_forms_single();
    lemma_script_forms_distinct();
    lemma_script_index(registry(), script);
    assert(seq![script[0]] =~= script);
    assert(glyphs_roman(script.skip(1)) =~= Seq::empty());
    assert(token_roman(registry(), script) + Seq::empty() =~= token_roman(registry(), script));
}

/// Writing a registered symbol adds its Roman form to what reads back:
/// the vowel-killer that may come with it reads back as nothing.
pub proof fn lemma_emit_reads_back(st: WordState, i: int)
    requires
        0 <= i < registry().len(),
    ensures
        glyphs_roman(emit(st, registry()[i]).out) == glyphs_roman(st.out) + registry()[i].roman,
{
    let sym = registry()[i];
    lemma_glyph_reads_back(i);
    if sym.class == SymbolClass::Consonant && st.bare {
        lemma_only_killer_is_silent();
        lemma_glyph_reads_back(killer_index());
        let killer = seq![VOWEL_KILLER];
        assert(st.out.push(VOWEL_KILLER) + sym.script =~= (st.out + killer) + sym.script);
        lemma_glyphs_roman_concat(st.out + killer, sym.script);
        lemma_glyphs_roman_concat(st.out, killer);
        assert(glyphs_roman(killer) =~= Seq::empty());
        assert(glyphs_roman(st.out) + Seq::empty() =~= glyphs_roman(st.out));
    } else {
        lemma_glyphs_roman_concat(st.out, sym.script);
    }
}

/// Whether every letter of `w` is a Roman form of the registry on its own.
pub open spec fn spelled_in_roman_forms(w: Seq<char>) -> bool {
    forall|i: int|
        0 <= i < w.len() ==> roman_index(registry(), seq![#[trigger] w[i]], None) is Some
}

/// Letters that are Roman forms, read one by one, read back as themselves.
pub proof fn lemma_spell_out_reads_back(st: WordState, chunk: Seq<char>)
    requires
        spelled_in_roman_forms(chunk),
    ensures
        glyphs_roman(spell_out(registry(), st, chunk).out) == glyphs_roman(st.out) + chunk,
    decreases chunk.len(),
{
    if chunk.len() > 0 {
        let c = chunk[0];
        let rest = chunk.skip(1);
        let next = spell(registry(), st, c);
        lemma_denoted_is_form(registry(), seq![c], st.out.len() == 0);
        match denoted(registry(), seq![c], st.out.len() == 0) {
            Some(i) => {
                lemma_emit_reads_back(st, i);
            },
            None => {
                assert(roman_index(registry(), seq![chunk[0]], None) is Some);
            },
        }
        assert forall|i: int| 0 <= i < rest.len() implies roman_index(
            registry(),
            seq![#[trigger] rest[i]],
            None,
        ) is Some by {
            assert(rest[i] == chunk[i + 1]);
        }
        lemma_spell_out_reads_back(next, rest);
        assert((glyphs_roman(st.out) + seq![c]) + rest =~= glyphs_roman(st.out) + chunk);
    } else {
        assert(glyphs_roman(st.out) + chunk =~= glyphs_roman(st.out));
    }
}

/// A word of letters that are Roman forms reads back as itself, from any
/// state of the word on.
pub proof fn lemma_reconstruct_reads_back(w: Seq<char>, st: WordState)
    requires
        spelled_in_roman_forms(w),
    ensures
        glyphs_roman(reconstruct(registry(), w, st).out) == glyphs_roman(st.out) + w,
    decreases w.len(),
{
    if w.len() > 0 {
        let n = chunk_len(registry(), w);
        lemma_chunk_len_bounds(registry(), w);
        let chunk = w.take(n);
        let rest = w.skip(n);
        let next = resolve(registry(), st, chunk);
        assert forall|i: int| 0 <= i < chunk.len() implies roman_index(
            registry(),
            seq![#[trigger] chunk[i]],
            None,
        ) is Some by {
            assert(chunk[i] == w[i]);
        }
        assert forall|i: int| 0 <= i < rest.len() implies roman_index(
            registry(),
            seq![#[trigger] rest[i]],
            None,
        ) is Some by {
            assert(rest[i] == w[i + n]);
        }
        lemma_denoted_is_form(registry(), chunk, st.out.len() == 0);
        match denoted(registry(), chunk, st.out.len() == 0) {
            Some(i) => {
                lemma_emit_reads_back(st, i);
            },
            None => {
                lemma_spell_out_reads_back(st, chunk);
            },
        }
        lemma_reconstruct_reads_back(rest, next);
        assert((glyphs_roman(st.out) + chunk) + rest =~= glyphs_roman(st.out) + w);
    } else {
        assert(glyphs_roman(st.out) + w =~= glyphs_roman(st.out));
    }
}

/// A word in which every letter is a Roman form on its own comes back
/// from its script text: the Roman forms of the glyphs written for it, one
/// after the other, are the word.
pub proof fn lemma_word_reads_back(w: Seq<char>)
    requires
        spelled_in_roman_forms(w),
    ensures
        glyphs_roman(word_script(registry(), w)) == w,
{
    lemma_reconstruct_reads_back(w, word_start());
    assert(glyphs_roman(word_start().out) + w =~= w);
}

/// Whether `c` is the glyph of a symbol of the registry.
pub open spec fn is_glyph(c: char) -> bool {
    exists|i: int| 0 <= i < registry().len() && #[trigger] glyph(i) == c
}

/// Whether `out` holds glyphs of the registry only.
pub open spec fn all_glyphs(out: Seq<char>) -> bool {
    forall|j: int| 0 <= j < out.len() ==> is_glyph(#[trigger] out[j])
}

/// Whether no glyph of the registry is white space. What white space is,
/// `char::is_whitespace` decides: `NepaliTransliterator::glyphs_are_no_white_space`
/// finds out by asking it.
pub open spec fn no_glyph_is_white_space() -> bool {
    forall|i: int| 0 <= i < registry().len() ==> !is_white_space(#[trigger] glyph(i))
}

/// Writing a registered symbol to glyphs leaves glyphs.
pub proof fn lemma_emit_keeps_glyphs(st: WordState, i: int)
    requires
        all_glyphs(st.out),
        0 <= i < registry().len(),
    ensures
        all_glyphs(emit(st, registry()[i]).out),
{
    let sym = registry()[i];
    let after = emit(st, sym).out;
    lemma_script_forms_single();
    lemma_only_killer_is_silent();
    assert(sym.script =~= seq![glyph(i)]);
    assert(glyph(killer_index()) == VOWEL_KILLER) by {
        assert(registry()[killer_index()].script[0] == seq![VOWEL_KILLER][0]);
    }
    assert(is_glyph(glyph(i)));
    assert(is_glyph(VOWEL_KILLER));
    assert forall|j: int| 0 <= j < after.len() implies is_glyph(#[trigger] after[j]) by {
        if j < st.out.len() {
            assert(after[j] == st.out[j]);
        }
    }
}

/// Letters that are Roman forms, read one by one, are written in glyphs.
pub proof fn lemma_spell_out_keeps_glyphs(st: WordState, chunk: Seq<char>)
    requires
        all_glyphs(st.out),
        spelled_in_roman_forms(chunk),
    ensures
        all_glyphs(spell_out(registry(), st, chunk).out),
    decreases chunk.len(),
{
    if chunk.len() > 0 {
        let c = chunk[0];
        let rest = chunk.skip(1);
        lemma_denoted_is_form(registry(), seq![c], st.out.len() == 0);
        match denoted(registry(), seq![c], st.out.len() == 0) {
            Some(i) => {
                lemma_emit_keeps_glyphs(st, i);
            },
            None => {
                assert(roman_index(registry(), seq![chunk[0]], None) is Some);
            },
        }
        assert forall|i: int| 0 <= i < rest.len() implies roman_index(
            registry(),
            seq![#[trigger] rest[i]],
            None,
        ) is Some by {
            assert(rest[i] == chunk[i + 1]);
        }
        lemma_spell_out_keeps_glyphs(spell(registry(), st, c), rest);
    }
}

/// A word of letters that are Roman forms is written in glyphs.
pub proof fn lemma_reconstruct_keeps_glyphs(w: Seq<char>, st: WordState)
    requires
        all_glyphs(st.out),
        spelled_in_roman_forms(w),
    ensures
        all_glyphs(reconstruct(registry(), w, st).out),
    decreases w.len(),
{
    if w.len() > 0 {
        let n = chunk_len(registry(), w);
        lemma_chunk_len_bounds(registry(), w);
        let chunk = w.take(n);
        let rest = w.skip(n);
        assert forall|i: int| 0 <= i < chunk.len() implies roman_index(
            registry(),
            seq![#[trigger] chunk[i]],
            None,
        ) is Some by {
            assert(chunk[i] == w[i]);
        }
        assert forall|i: int| 0 <= i < rest.len() implies roman_index(
            registry(),
            seq![#[trigger] rest[i]],
            None,
        ) is Some by {
            assert(rest[i] == w[i + n]);
        }
        lemma_denoted_is_form(registry(), chunk, st.out.len() == 0);
        match denoted(registry(), chunk, st.out.len() == 0) {
            Some(i) => {
                lemma_emit_keeps_glyphs(st, i);
            },
            None => {
                lemma_spell_out_keeps_glyphs(st, chunk);
            },
        }
        lemma_reconstruct_keeps_glyphs(rest, resolve(registry(), st, chunk));
    }
}

/// A word in which every letter is a Roman form on its own comes back
/// from its script text by the conversion to Roman, provided that no
/// glyph of the registry is white space.
pub proof fn lemma_word_round_trip(w: Seq<char>)
    requires
        spelled_in_roman_forms(w),
        no_glyph_is_white_space(),
    ensures
        romanize_spec(registry(), word_script(registry(), w)) == w,
{
    let script = word_script(registry(), w);
    lemma_reconstruct_keeps_glyphs(w, word_start());
    assert forall|j: int| 0 <= j < script.len() implies !is_white_space(#[trigger] script[j]) by {
        assert(is_glyph(script[j]));
    }
    lemma_romanize_glyphs(script);
    lemma_word_reads_back(w);
}

/// Whether every letter of `s`, white space aside, is a Roman form of the
/// registry on its own.
pub open spec fn words_spelled_in_roman_forms(s: Seq<char>) -> bool {
    forall|i: int|
        0 <= i < s.len() && !is_white_space(#[trigger] s[i]) ==> roman_index(
            registry(),
            seq![s[i]],
            None,
        ) is Some
}

/// A Roman text in which every letter is a Roman form on its own comes
/// back from its script text, provided that no glyph of the registry is
/// white space. Converting what came back gives the same script text again.
pub proof fn lemma_round_trip(s: Seq<char>)
    requires
        words_spelled_in_roman_forms(s),
        no_glyph_is_white_space(),
    ensures
        romanize_spec(registry(), script_spec(registry(), s)) == s,
        script_spec(registry(), romanize_spec(registry(), script_spec(registry(), s)))
            == script_spec(registry(), s),
    decreases s.len(),
{
    if s.len() > 0 {
        if is_white_space(s[0]) {
            let rest = s.skip(1);
            assert forall|i: int| 0 <= i < rest.len() && !is_white_space(
                #[trigger] rest[i],
            ) implies roman_index(registry(), seq![rest[i]], None) is Some by {
                assert(rest[i] == s[i + 1]);
            }
            lemma_round_trip(rest);
            lemma_romanize_concat(seq![s[0]], script_spec(registry(), rest));
            lemma_romanize_by_letter(seq![s[0]]);
            assert(seq![s[0]].skip(1) =~= Seq::<char>::empty());
            assert(romanize_spec(registry(), seq![s[0]]) =~= seq![s[0]]);
            assert(seq![s[0]] + rest =~= s);
        } else {
            let n = run_len(s, false) as int;
            lemma_run_len_bounds(s, false);
            lemma_run_len_is_maximal(s, false);
            let w = s.take(n);
            let rest = s.skip(n);
            assert forall|i: int| 0 <= i < w.len() implies roman_index(
                registry(),
                seq![#[trigger] w[i]],
                None,
            ) is Some by {
                assert(w[i] == s[i]);
            }
            assert forall|i: int| 0 <= i < rest.len() && !is_white_space(
                #[trigger] rest[i],
            ) implies roman_index(registry(), seq![rest[i]], None) is Some by {
                assert(rest[i] == s[i + n]);
            }
            lemma_word_round_trip(w);
            lemma_round_trip(rest);
            lemma_romanize_concat(word_script(registry(), w), script_spec(registry(), rest));
            assert(w + rest =~= s);
        }
    } else {
        assert(s =~= Seq::<char>::empty());
    }
}

} // verus!
