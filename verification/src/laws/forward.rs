//! What holds of the script-to-Roman conversion under the registry.

use crate::registry::{
    lemma_only_killer_is_silent, lemma_script_forms_distinct, lemma_script_forms_single, registry,
    VOWEL_KILLER,
};
use crate::roman::{extension, romanize_spec, token_len, token_roman, PLACEHOLDER};
use crate::symbol::{lemma_script_index, script_index};
use crate::text::{all_white_space, is_white_space};
use vstd::prelude::*;

verus! {

/// The Roman text for one script character on its own.
pub open spec fn letter_roman(c: char) -> Seq<char> {
    if is_white_space(c) {
        seq![c]
    } else {
        token_roman(registry(), seq![c])
    }
}

/// Under the registry the scan commits to one character at a time: no
/// script form is longer.
pub proof fn lemma_tokens_are_single(s: Seq<char>)
    requires
        s.len() > 0,
    ensures
        token_len(registry(), s) == 1,
{
    if 1 < s.len() {
        lemma_script_index(registry(), s.take(2));
        lemma_script_forms_single();
        match script_index(registry(), s.take(2)) {
            Some(i) => {
                assert(registry()[i].script.len() == 1);
                assert(s.take(2).len() == 2);
            },
            None => {},
        }
        assert(extension(registry(), s, 1) == 0);
    } else {
        assert(extension(registry(), s, 1) == 0);
    }
}

/// Greedy longest match reads a registered script form whole, whatever
/// follows it: on `form + rest` it commits to exactly `form`, and writes the
/// Roman form registered with it. A shorter registered form that `form`
/// begins with is never taken in its place.
pub proof fn lemma_greedy_takes_whole_form(i: int, rest: Seq<char>)
    requires
        0 <= i < registry().len(),
    ensures
        token_len(registry(), registry()[i].script + rest) == registry()[i].script.len(),
        script_index(
            registry(),
            (registry()[i].script + rest).take(registry()[i].script.len() as int),
        ) == Some(i),
        token_roman(
            registry(),
            (registry()[i].script + rest).take(registry()[i].script.len() as int),
        ) == registry()[i].roman,
{
    let form = registry()[i].script;
    let s = form + rest;
    lemma_script_forms_single();
    lemma_script_forms_distinct();
    lemma_tokens_are_single(s);
    assert(s.take(form.len() as int) =~= form);
    lemma_script_index(registry(), form);
}

/// No registered script form begins another one.
pub proof fn lemma_no_form_begins_another()
    ensures
        forall|i: int, j: int|
            0 <= i < registry().len() && 0 <= j < registry().len() && i != j ==> !(
            #[trigger] registry()[i]).script.is_prefix_of((#[trigger] registry()[j]).script),
{
    lemma_script_forms_single();
    lemma_script_forms_distinct();
    assert forall|i: int, j: int|
        0 <= i < registry().len() && 0 <= j < registry().len() && i != j implies !(
    #[trigger] registry()[i]).script.is_prefix_of((#[trigger] registry()[j]).script) by {
        let a = registry()[i].script;
        let b = registry()[j].script;
        if a.is_prefix_of(b) {
            assert(a =~= b);
        }
    }
}

/// Under the registry the conversion goes character by character.
pub proof fn lemma_romanize_by_letter(s: Seq<char>)
    requires
        s.len() > 0,
    ensures
        romanize_spec(registry(), s) == letter_roman(s[0]) + romanize_spec(registry(), s.skip(1)),
{
    lemma_tokens_are_single(s);
    assert(s.take(1) =~= seq![s[0]]);
}

/// Under the registry the Roman text of two texts put together is their
/// Roman texts put together.
pub proof fn lemma_romanize_concat(a: Seq<char>, b: Seq<char>)
    ensures
        romanize_spec(registry(), a + b) == romanize_spec(registry(), a) + romanize_spec(
            registry(),
            b,
        ),
    decreases a.len(),
{
    if a.len() == 0 {
        assert(a + b =~= b);
        assert(romanize_spec(registry(), a) + romanize_spec(registry(), b) =~= romanize_spec(
            registry(),
            b,
        ));
    } else {
        lemma_romanize_by_letter(a);
        lemma_romanize_by_letter(a + b);
        lemma_romanize_concat(a.skip(1), b);
        assert((a + b).skip(1) =~= a.skip(1) + b);
        assert(letter_roman(a[0]) + (romanize_spec(registry(), a.skip(1)) + romanize_spec(
            registry(),
            b,
        )) =~= (letter_roman(a[0]) + romanize_spec(registry(), a.skip(1))) + romanize_spec(
            registry(),
            b,
        ));
    }
}

/// White space stands for itself.
pub proof fn lemma_romanize_white_space(ws: Seq<char>)
    requires
        all_white_space(ws),
    ensures
        romanize_spec(registry(), ws) == ws,
    decreases ws.len(),
{
    if ws.len() > 0 {
        assert(is_white_space(ws[0]));
        assert forall|i: int| 0 <= i < ws.skip(1).len() implies is_white_space(
            #[trigger] ws.skip(1)[i],
        ) by {
            assert(ws.skip(1)[i] == ws[i + 1]);
        }
        lemma_romanize_white_space(ws.skip(1));
        assert(seq![ws[0]] + ws.skip(1) =~= ws);
    } else {
        assert(ws =~= Seq::empty());
    }
}

/// The conversion to Roman keeps every run of white space as it is and
/// where it is: the text before the run and the text after it are
/// converted each on its own, and the run stands unchanged between them.
pub proof fn lemma_romanize_preserves_white_space(a: Seq<char>, ws: Seq<char>, b: Seq<char>)
    requires
        all_white_space(ws),
    ensures
        romanize_spec(registry(), a + ws + b) == romanize_spec(registry(), a) + ws + romanize_spec(
            registry(),
            b,
        ),
{
    lemma_romanize_concat(a + ws, b);
    lemma_romanize_concat(a, ws);
    lemma_romanize_white_space(ws);
}

/// The Roman text of one script character holds at least one character,
/// unless the character is the vowel-killer, which has no Roman form.
pub proof fn lemma_letter_roman_len(c: char)
    ensures
        c != VOWEL_KILLER ==> letter_roman(c).len() >= 1,
{
    if !is_white_space(c) {
        lemma_script_index(registry(), seq![c]);
        lemma_only_killer_is_silent();
        if c != VOWEL_KILLER {
            match script_index(registry(), seq![c]) {
                Some(i) => {
                    if i == crate::registry::killer_index() {
                        assert(seq![c][0] == seq![VOWEL_KILLER][0]);
                    }
                },
                None => {},
            }
        }
    }
}

/// How many times the vowel-killer stands in `s`.
pub open spec fn killer_count(s: Seq<char>) -> nat
    decreases s.len(),
{
    if s.len() == 0 {
        0
    } else if s[0] == VOWEL_KILLER {
        1 + killer_count(s.skip(1))
    } else {
        killer_count(s.skip(1))
    }
}

/// A text without the vowel-killer counts none.
pub proof fn lemma_killer_count_zero(s: Seq<char>)
    requires
        !s.contains(VOWEL_KILLER),
    ensures
        killer_count(s) == 0,
    decreases s.len(),
{
    if s.len() > 0 {
        assert(s.contains(s[0]));
        assert forall|c: char| s.skip(1).contains(c) implies s.contains(c) by {
            let i = choose|i: int| 0 <= i < s.skip(1).len() && s.skip(1)[i] == c;
            assert(s[i + 1] == c);
        }
        lemma_killer_count_zero(s.skip(1));
    }
}

/// The conversion to Roman drops no position but those of the
/// vowel-killer, which has no Roman form: every other character leaves at
/// least one character in the Roman text.
pub proof fn lemma_romanize_len(s: Seq<char>)
    ensures
        romanize_spec(registry(), s).len() + killer_count(s) >= s.len(),
    decreases s.len(),
{
    if s.len() > 0 {
        lemma_romanize_by_letter(s);
        lemma_letter_roman_len(s[0]);
        lemma_romanize_len(s.skip(1));
    }
}

/// The conversion to Roman drops no position: a text without the
/// vowel-killer gives a Roman text that is at least as long.
pub proof fn lemma_romanize_drops_no_position(s: Seq<char>)
    requires
        !s.contains(VOWEL_KILLER),
    ensures
        romanize_spec(registry(), s).len() >= s.len(),
{
    lemma_romanize_len(s);
    lemma_killer_count_zero(s);
}

/// The text in which every character of `s` that is no white space is
/// replaced by the placeholder.
pub open spec fn placeholders(s: Seq<char>) -> Seq<char> {
    Seq::new(
        s.len(),
        |i: int|
            if is_white_space(s[i]) {
                s[i]
            } else {
                PLACEHOLDER
            },
    )
}

/// Whether no character of `s`, white space aside, is a script form of the registry.
pub open spec fn unknown_to_script_table(s: Seq<char>) -> bool {
    forall|i: int|
        0 <= i < s.len() && !is_white_space(#[trigger] s[i]) ==> script_index(
            registry(),
            seq![s[i]],
        ) is None
}

/// A text of characters that the registry does not know becomes a text of
/// placeholders, one for each, with its white space unchanged.
pub proof fn lemma_romanize_unknown(s: Seq<char>)
    requires
        unknown_to_script_table(s),
    ensures
        romanize_spec(registry(), s) == placeholders(s),
    decreases s.len(),
{
    if s.len() > 0 {
        let rest = s.skip(1);
        lemma_romanize_by_letter(s);
        assert forall|i: int| 0 <= i < rest.len() && !is_white_space(
            #[trigger] rest[i],
        ) implies script_index(registry(), seq![rest[i]]) is None by {
            assert(rest[i] == s[i + 1]);
        }
        lemma_romanize_unknown(rest);
        assert(!is_white_space(s[0]) ==> script_index(registry(), seq![s[0]]) is None);
        assert(letter_roman(s[0]) + placeholders(rest) =~= placeholders(s));
    } else {
        assert(placeholders(s) =~= Seq::empty());
    }
}

/// The placeholder is no script form of the registry.
pub proof fn lemma_placeholder_is_unknown()
    ensures
        script_index(registry(), seq![PLACEHOLDER]) is None,
{
    lemma_script_index(registry(), seq![PLACEHOLDER]);
    lemma_script_forms_single();
    match script_index(registry(), seq![PLACEHOLDER]) {
        Some(i) => {
            assert(registry()[i].script[0] == seq![PLACEHOLDER][0]);
        },
        None => {},
    }
}

/// Converting a text of unknown characters a second time changes nothing.
pub proof fn lemma_romanize_unknown_twice(s: Seq<char>)
    requires
        unknown_to_script_table(s),
    ensures
        romanize_spec(registry(), romanize_spec(registry(), s)) == romanize_spec(registry(), s),
{
    lemma_romanize_unknown(s);
    let once = placeholders(s);
    lemma_placeholder_is_unknown();
    assert(unknown_to_script_table(once));
    lemma_romanize_unknown(once);
    assert(placeholders(once) =~= once);
}

} // verus!
