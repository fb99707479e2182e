//! Every vowel-killer that the conversion to script writes stands between
//! two consonants.

use crate::laws::basics::lemma_denoted_is_no_killer;
use crate::registry::{registry, VOWEL_KILLER};
use crate::script::{
    chunk_len, denoted, emit, lemma_chunk_len_bounds, pass_through, reconstruct, resolve,
    script_spec, spell, spell_out, word_script, word_start, WordState,
};
use crate::symbol::SymbolClass;
use crate::text::{is_white_space, lemma_run_len_bounds, run_len};
use vstd::prelude::*;

verus! {

/// Whether `c` is the glyph of a consonant of the registry.
pub open spec fn is_consonant_glyph(c: char) -> bool {
    exists|i: int|
        0 <= i < registry().len() && (#[trigger] registry()[i]).script == seq![c]
            && registry()[i].class == SymbolClass::Consonant
}

/// Whether every vowel-killer in `out` stands between the glyphs of two
/// consonants: none at the start, none at the end, no two in a row.
pub open spec fn killers_between_consonants(out: Seq<char>) -> bool {
    forall|j: int|
        0 <= j < out.len() && #[trigger] out[j] == VOWEL_KILLER ==> 0 < j && j + 1 < out.len()
            && is_consonant_glyph(out[j - 1]) && is_consonant_glyph(out[j + 1])
}

/// Whether the state of a word is sound: the vowel-killers written so far
/// stand between consonants, and a bare consonant is the last thing written.
pub open spec fn sound(st: WordState) -> bool {
    &&& killers_between_consonants(st.out)
    &&& st.bare ==> st.out.len() > 0 && is_consonant_glyph(st.out.last())
}

/// Writing a symbol that a Roman form denotes keeps the state sound.
pub proof fn lemma_emit_keeps_sound(st: WordState, i: int)
    requires
        sound(st),
        0 <= i < registry().len(),
        registry()[i].script.len() == 1,
        registry()[i].script[0] != VOWEL_KILLER,
    ensures
        sound(emit(st, registry()[i])),
{
    let sym = registry()[i];
    let g = sym.script[0];
    let after = emit(st, sym);
    assert(sym.script =~= seq![g]);
    if sym.class == SymbolClass::Consonant {
        assert(is_consonant_glyph(g));
    }
    if sym.class == SymbolClass::Consonant && st.bare {
        let n = st.out.len() as int;
        assert(after.out =~= st.out + seq![VOWEL_KILLER, g]);
        assert forall|j: int|
            0 <= j < after.out.len() && #[trigger] after.out[j] == VOWEL_KILLER implies 0 < j && j
            + 1 < after.out.len() && is_consonant_glyph(after.out[j - 1]) && is_consonant_glyph(
            after.out[j + 1],
        ) by {
            if j < n {
                assert(st.out[j] == VOWEL_KILLER);
                assert(after.out[j - 1] == st.out[j - 1]);
                assert(after.out[j + 1] == st.out[j + 1]);
            } else {
                assert(j == n);
                assert(after.out[j - 1] == st.out.last());
                assert(after.out[j + 1] == g);
            }
        }
        assert(after.out.last() == g);
    } else {
        let n = st.out.len() as int;
        assert(after.out =~= st.out + seq![g]);
        assert forall|j: int|
            0 <= j < after.out.len() && #[trigger] after.out[j] == VOWEL_KILLER implies 0 < j && j
            + 1 < after.out.len() && is_consonant_glyph(after.out[j - 1]) && is_consonant_glyph(
            after.out[j + 1],
        ) by {
            assert(j < n);
            assert(st.out[j] == VOWEL_KILLER);
            assert(after.out[j - 1] == st.out[j - 1]);
            assert(after.out[j + 1] == st.out[j + 1]);
        }
        assert(after.out.last() == g);
    }
}

/// A character other than the vowel-killer that passes through keeps the
/// state sound.
pub proof fn lemma_pass_keeps_sound(st: WordState, c: char)
    requires
        sound(st),
        c != VOWEL_KILLER,
    ensures
        sound(pass_through(st, c)),
{
    let after = pass_through(st, c);
    let n = st.out.len() as int;
    assert forall|j: int|
        0 <= j < after.out.len() && #[trigger] after.out[j] == VOWEL_KILLER implies 0 < j && j + 1
        < after.out.len() && is_consonant_glyph(after.out[j - 1]) && is_consonant_glyph(
        after.out[j + 1],
    ) by {
        assert(j < n);
        assert(st.out[j] == VOWEL_KILLER);
        assert(after.out[j - 1] == st.out[j - 1]);
        assert(after.out[j + 1] == st.out[j + 1]);
    }
}

/// Reading letters other than the vowel-killer one by one keeps the state sound.
pub proof fn lemma_spell_out_keeps_sound(st: WordState, chunk: Seq<char>)
    requires
        sound(st),
        !chunk.contains(VOWEL_KILLER),
    ensures
        sound(spell_out(registry(), st, chunk)),
    decreases chunk.len(),
{
    if chunk.len() > 0 {
        let c = chunk[0];
        assert(chunk.contains(c));
        lemma_denoted_is_no_killer(seq![c], st.out.len() == 0);
        match denoted(registry(), seq![c], st.out.len() == 0) {
            Some(i) => {
                lemma_emit_keeps_sound(st, i);
            },
            None => {
                lemma_pass_keeps_sound(st, c);
            },
        }
        let rest = chunk.skip(1);
        assert forall|x: char| rest.contains(x) implies chunk.contains(x) by {
            let i = choose|i: int| 0 <= i < rest.len() && rest[i] == x;
            assert(chunk[i + 1] == x);
        }
        lemma_spell_out_keeps_sound(spell(registry(), st, c), rest);
    }
}

/// Reading a chunk without the vowel-killer keeps the state sound.
pub proof fn lemma_resolve_keeps_sound(st: WordState, chunk: Seq<char>)
    requires
        sound(st),
        chunk.len() > 0,
        !chunk.contains(VOWEL_KILLER),
    ensures
        sound(resolve(registry(), st, chunk)),
{
    lemma_denoted_is_no_killer(chunk, st.out.len() == 0);
    match denoted(registry(), chunk, st.out.len() == 0) {
        Some(i) => {
            lemma_emit_keeps_sound(st, i);
        },
        None => {
            lemma_spell_out_keeps_sound(st, chunk);
        },
    }
}

/// Reading a word without the vowel-killer keeps the state sound.
pub proof fn lemma_reconstruct_keeps_sound(w: Seq<char>, st: WordState)
    requires
        sound(st),
        !w.contains(VOWEL_KILLER),
    ensures
        sound(reconstruct(registry(), w, st)),
    decreases w.len(),
{
    if w.len() > 0 {
        let n = chunk_len(registry(), w);
        lemma_chunk_len_bounds(registry(), w);
        let chunk = w.take(n);
        let rest = w.skip(n);
        assert forall|x: char| chunk.contains(x) implies w.contains(x) by {
            let i = choose|i: int| 0 <= i < chunk.len() && chunk[i] == x;
            assert(w[i] == x);
        }
        assert forall|x: char| rest.contains(x) implies w.contains(x) by {
            let i = choose|i: int| 0 <= i < rest.len() && rest[i] == x;
            assert(w[i + n] == x);
        }
        lemma_resolve_keeps_sound(st, chunk);
        lemma_reconstruct_keeps_sound(rest, resolve(registry(), st, chunk));
    }
}

/// In the script text of a word that does not itself hold the
/// vowel-killer, every vowel-killer stands between the glyphs of two
/// consonants: never at the start of the word, never at its end, never
/// next to another one.
pub proof fn lemma_killers_stand_between_consonants(w: Seq<char>)
    requires
        !w.contains(VOWEL_KILLER),
    ensures
        killers_between_consonants(word_script(registry(), w)),
{
    lemma_reconstruct_keeps_sound(w, word_start());
}

/// Two texts in each of which the vowel-killers stand between consonants
/// make such a text when put together.
pub proof fn lemma_killers_between_concat(a: Seq<char>, b: Seq<char>)
    requires
        killers_between_consonants(a),
        killers_between_consonants(b),
    ensures
        killers_between_consonants(a + b),
{
    let ab = a + b;
    assert forall|j: int| 0 <= j < ab.len() && #[trigger] ab[j] == VOWEL_KILLER implies 0 < j && j
        + 1 < ab.len() && is_consonant_glyph(ab[j - 1]) && is_consonant_glyph(ab[j + 1]) by {
        if j < a.len() {
            assert(a[j] == VOWEL_KILLER);
            assert(ab[j - 1] == a[j - 1]);
            assert(ab[j + 1] == a[j + 1]);
        } else {
            let k = j - a.len();
            assert(b[k] == VOWEL_KILLER);
            assert(ab[j - 1] == b[k - 1]);
            assert(ab[j + 1] == b[k + 1]);
        }
    }
}

/// In the script text of a text that does not itself hold the
/// vowel-killer, every vowel-killer stands between the glyphs of two
/// consonants.
pub proof fn lemma_script_killers_stand_between_consonants(s: Seq<char>)
    requires
        !s.contains(VOWEL_KILLER),
    ensures
        killers_between_consonants(script_spec(registry(), s)),
    decreases s.len(),
{
    if s.len() > 0 {
        assert(s.contains(s[0]));
        if is_white_space(s[0]) {
            let rest = s.skip(1);
            assert forall|x: char| rest.contains(x) implies s.contains(x) by {
                let i = choose|i: int| 0 <= i < rest.len() && rest[i] == x;
                assert(s[i + 1] == x);
            }
            lemma_script_killers_stand_between_consonants(rest);
            assert(killers_between_consonants(seq![s[0]]));
            lemma_killers_between_concat(seq![s[0]], script_spec(registry(), rest));
        } else {
            let n = run_len(s, false) as int;
            lemma_run_len_bounds(s, false);
            let w = s.take(n);
            let rest = s.skip(n);
            assert forall|x: char| w.contains(x) implies s.contains(x) by {
                let i = choose|i: int| 0 <= i < w.len() && w[i] == x;
                assert(s[i] == x);
            }
            assert forall|x: char| rest.contains(x) implies s.contains(x) by {
                let i = choose|i: int| 0 <= i < rest.len() && rest[i] == x;
                assert(s[i + n] == x);
            }
            lemma_killers_stand_between_consonants(w);
            lemma_script_killers_stand_between_consonants(rest);
            lemma_killers_between_concat(
                word_script(registry(), w),
                script_spec(registry(), rest),
            );
        }
    }
}

} // verus!
