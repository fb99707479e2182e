//! Letters that the registry does not know pass through the conversion
//! to script.

use crate::laws::basics::lemma_denoted_is_form;
use crate::registry::{lemma_roman_forms_short, lemma_two_letter_forms, registry};
use crate::script::{
    chunk_len, lemma_chunk_len_bounds, pass_through, reconstruct, resolve, script_spec, spell,
    spell_out, word_start, WordState,
};
use crate::symbol::{lemma_roman_index, roman_index};
use crate::text::{is_white_space, lemma_run_len_bounds, lemma_run_len_is_maximal, run_len};
use vstd::prelude::*;

verus! {

/// Whether no letter of `s`, white space aside, is a Roman form of the
/// registry on its own.
pub open spec fn unknown_to_roman_table(s: Seq<char>) -> bool {
    forall|i: int|
        0 <= i < s.len() && !is_white_space(#[trigger] s[i]) ==> roman_index(
            registry(),
            seq![s[i]],
            None,
        ) is None
}

/// Letters of which none is a Roman form on its own do not make up a Roman
/// form together either.
pub proof fn lemma_unknown_letters_make_no_form(chunk: Seq<char>)
    requires
        chunk.len() > 0,
        forall|i: int|
            0 <= i < chunk.len() ==> roman_index(registry(), seq![#[trigger] chunk[i]], None)
                is None,
    ensures
        roman_index(registry(), chunk, None) is None,
{
    lemma_roman_index(registry(), chunk, None);
    match roman_index(registry(), chunk, None) {
        Some(i) => {
            lemma_roman_forms_short();
            lemma_two_letter_forms();
            let form = registry()[i].roman;
            assert(form == chunk);
            lemma_roman_index(registry(), seq![chunk[0]], None);
            if form.len() == 1 {
                assert(form =~= seq![chunk[0]]);
            } else {
                assert(form.len() == 2);
                lemma_roman_index(registry(), seq![chunk[1]], None);
                if form[1] == 'a' {
                    assert(registry()[0].roman == seq![chunk[1]]);
                } else if form[0] == 'a' {
                    assert(registry()[0].roman == seq![chunk[0]]);
                } else {
                    assert(registry()[i - 1].roman == seq![chunk[0]]);
                }
            }
        },
        None => {},
    }
}

/// Letters of which none is a Roman form pass through one by one.
pub proof fn lemma_spell_out_unknown(st: WordState, chunk: Seq<char>)
    requires
        chunk.len() > 0,
        forall|i: int|
            0 <= i < chunk.len() ==> roman_index(registry(), seq![#[trigger] chunk[i]], None)
                is None,
    ensures
        spell_out(registry(), st, chunk) == (WordState { out: st.out + chunk, bare: false }),
    decreases chunk.len(),
{
    let rest = chunk.skip(1);
    let next = spell(registry(), st, chunk[0]);
    lemma_denoted_is_form(registry(), seq![chunk[0]], st.out.len() == 0);
    assert(next == pass_through(st, chunk[0]));
    if rest.len() > 0 {
        assert forall|i: int| 0 <= i < rest.len() implies roman_index(
            registry(),
            seq![#[trigger] rest[i]],
            None,
        ) is None by {
            assert(rest[i] == chunk[i + 1]);
        }
        lemma_spell_out_unknown(next, rest);
        assert(next.out + rest =~= st.out + chunk);
    } else {
        assert(spell_out(registry(), next, rest) == next);
        assert(next.out =~= st.out + chunk);
    }
}

/// A word of letters of which none is a Roman form passes through unchanged.
pub proof fn lemma_reconstruct_unknown(w: Seq<char>, st: WordState)
    requires
        w.len() > 0,
        forall|i: int|
            0 <= i < w.len() ==> roman_index(registry(), seq![#[trigger] w[i]], None) is None,
    ensures
        reconstruct(registry(), w, st) == (WordState { out: st.out + w, bare: false }),
    decreases w.len(),
{
    let n = chunk_len(registry(), w);
    lemma_chunk_len_bounds(registry(), w);
    let chunk = w.take(n);
    let rest = w.skip(n);
    assert forall|i: int| 0 <= i < chunk.len() implies roman_index(
        registry(),
        seq![#[trigger] chunk[i]],
        None,
    ) is None by {
        assert(chunk[i] == w[i]);
    }
    lemma_unknown_letters_make_no_form(chunk);
    lemma_denoted_is_form(registry(), chunk, st.out.len() == 0);
    lemma_spell_out_unknown(st, chunk);
    let next = resolve(registry(), st, chunk);
    assert(next == (WordState { out: st.out + chunk, bare: false }));
    if rest.len() > 0 {
        assert forall|i: int| 0 <= i < rest.len() implies roman_index(
            registry(),
            seq![#[trigger] rest[i]],
            None,
        ) is None by {
            assert(rest[i] == w[i + n]);
        }
        lemma_reconstruct_unknown(rest, next);
        assert(next.out + rest =~= st.out + w);
    } else {
        assert(reconstruct(registry(), rest, next) == next);
        assert(chunk =~= w);
    }
}

/// A text in which no letter is a Roman form of the registry passes
/// through the conversion to script unchanged, so that converting it a
/// second time changes nothing either.
pub proof fn lemma_script_unknown(s: Seq<char>)
    requires
        unknown_to_roman_table(s),
    ensures
        script_spec(registry(), s) == s,
        script_spec(registry(), script_spec(registry(), s)) == s,
    decreases s.len(),
{
    if s.len() > 0 {
        if is_white_space(s[0]) {
            let rest = s.skip(1);
            assert forall|i: int| 0 <= i < rest.len() && !is_white_space(
                #[trigger] rest[i],
            ) implies roman_index(registry(), seq![rest[i]], None) is None by {
                assert(rest[i] == s[i + 1]);
            }
            lemma_script_unknown(rest);
            assert(seq![s[0]] + rest =~= s);
        } else {
            let n = run_len(s, false) as int;
            lemma_run_len_bounds(s, false);
            lemma_run_len_is_maximal(s, false);
            let w = s.take(n);
            let rest = s.skip(n);
            assert forall|i: int| 0 <= i < w.len() implies roman_index(
                registry(),
                seq![#[trigger] w[i]],
                None,
            ) is None by {
                assert(w[i] == s[i]);
            }
            lemma_reconstruct_unknown(w, word_start());
            assert(word_start().out + w =~= w);
            assert forall|i: int| 0 <= i < rest.len() && !is_white_space(
                #[trigger] rest[i],
            ) implies roman_index(registry(), seq![rest[i]], None) is None by {
                assert(rest[i] == s[i + n]);
            }
            lemma_script_unknown(rest);
            assert(w + rest =~= s);
        }
    } else {
        assert(s =~= Seq::empty());
    }
}

} // verus!
