//! The transliterator: the symbol table built from the registry, with the
//! two conversions and the table's lookups.

use crate::anomaly::{anomalies_view, script_anomalies, Anomaly};
use crate::laws::forward::{
    killer_count, lemma_romanize_drops_no_position, lemma_romanize_len,
};
use crate::laws::killer_end::lemma_script_no_trailing_killer;
use crate::laws::killer_place::{
    killers_between_consonants, lemma_script_killers_stand_between_consonants,
};
use crate::laws::read_back::{
    lemma_round_trip, no_glyph_is_white_space, words_spelled_in_roman_forms,
};
use crate::registry::{
    build, glyph, lemma_script_forms_distinct, lemma_script_forms_single, registry, VOWEL_KILLER,
};
use crate::roman::{romanize, romanize_spec};
use crate::script::{read_text, reconstruct_text, script_spec};
use crate::symbol::{
    find_roman, find_script, is_vowel_form, lemma_roman_index, lemma_script_index, roman_index,
    script_index, table_view, vowel_form_at, Symbol, SymbolClass, SymbolView,
};
use crate::text::{chars_of, is_white_space, string_of};
use vstd::prelude::*;

verus! {

/// Converts text between the script and its Roman form. It holds the
/// symbol table, which is built once and never changes.
pub struct NepaliTransliterator {
    symbols: Vec<Symbol>,
}

impl View for NepaliTransliterator {
    type V = Seq<SymbolView>;

    /// The symbol table, in registration order.
    closed spec fn view(&self) -> Seq<SymbolView> {
        table_view(self.symbols@)
    }
}

impl NepaliTransliterator {
    #[verifier::type_invariant]
    spec fn holds_registry(self) -> bool {
        table_view(self.symbols@) == registry()
    }

    /// Builds the symbol table from the registry.
    pub fn new() -> (engine: Self)
        ensures
            engine@ == registry(),
    {
        NepaliTransliterator { symbols: build() }
    }

    /// The symbols of the table, in registration order.
    pub fn symbols(&self) -> (table: &Vec<Symbol>)
        ensures
            table_view(table@) == self@,
            self@ == registry(),
    {
        proof {
            use_type_invariant(self);
        }
        &self.symbols
    }

    /// The Roman form and the class of the symbol whose script form is
    /// exactly `candidate`.
    pub fn lookup_script(&self, candidate: &str) -> (r: Option<(String, SymbolClass)>)
        ensures
            match script_index(registry(), candidate@) {
                Some(i) => r matches Some(found) && found.0@ == registry()[i].roman && found.1
                    == registry()[i].class,
                None => r is None,
            },
    {
        proof {
            use_type_invariant(self);
        }
        let form = chars_of(candidate);
        assert(form@.subrange(0, form@.len() as int) =~= form@);
        match find_script(&self.symbols, &form, 0, form.len()) {
            Some(i) => Some((string_of(&self.symbols[i].roman), self.symbols[i].class)),
            None => None,
        }
    }

    /// The script form of the first registered symbol whose Roman form is
    /// exactly `candidate`.
    pub fn lookup_roman(&self, candidate: &str) -> (r: Option<String>)
        ensures
            match roman_index(registry(), candidate@, None) {
                Some(i) => r matches Some(found) && found@ == registry()[i].script,
                None => r is None,
            },
    {
        proof {
            use_type_invariant(self);
        }
        let form = chars_of(candidate);
        assert(form@.subrange(0, form@.len() as int) =~= form@);
        match find_roman(&self.symbols, &form, 0, form.len(), None) {
            Some(i) => Some(string_of(&self.symbols[i].script)),
            None => None,
        }
    }

    /// The class of the symbol whose script form is exactly `script_form`.
    pub fn class_of_script(&self, script_form: &str) -> (r: Option<SymbolClass>)
        ensures
            match script_index(registry(), script_form@) {
                Some(i) => r == Some(registry()[i].class),
                None => r is None,
            },
    {
        proof {
            use_type_invariant(self);
        }
        let form = chars_of(script_form);
        assert(form@.subrange(0, form@.len() as int) =~= form@);
        match find_script(&self.symbols, &form, 0, form.len()) {
            Some(i) => Some(self.symbols[i].class),
            None => None,
        }
    }

    /// The class of the first registered symbol whose Roman form is exactly
    /// `roman_form`: the Roman form is looked up, then the script form that
    /// was found.
    pub fn class_of_roman(&self, roman_form: &str) -> (r: Option<SymbolClass>)
        ensures
            match roman_index(registry(), roman_form@, None) {
                Some(i) => r == Some(registry()[i].class),
                None => r is None,
            },
    {
        proof {
            use_type_invariant(self);
        }
        let form = chars_of(roman_form);
        assert(form@.subrange(0, form@.len() as int) =~= form@);
        match find_roman(&self.symbols, &form, 0, form.len(), None) {
            Some(i) => {
                let script = &self.symbols[i].script;
                assert(script@.subrange(0, script@.len() as int) =~= script@);
                proof {
                    lemma_roman_index(registry(), form@, None);
                    lemma_script_index(registry(), script@);
                    lemma_script_forms_distinct();
                }
                match find_script(&self.symbols, script, 0, script.len()) {
                    Some(j) => Some(self.symbols[j].class),
                    None => None,
                }
            },
            None => None,
        }
    }

    /// Whether `script_form` is the script form of a consonant.
    pub fn is_consonant(&self, script_form: &str) -> (r: bool)
        ensures
            r == (script_index(registry(), script_form@) matches Some(i) && registry()[i].class
                == SymbolClass::Consonant),
    {
        match self.class_of_script(script_form) {
            Some(class) => class == SymbolClass::Consonant,
            None => false,
        }
    }

    /// Whether `roman_form` is the Roman form of a symbol that is no
    /// consonant: a vowel, a vowel sign or a modifier.
    pub fn is_vowel(&self, roman_form: &str) -> (r: bool)
        ensures
            r == is_vowel_form(registry(), roman_form@),
    {
        proof {
            use_type_invariant(self);
        }
        let form = chars_of(roman_form);
        assert(form@.subrange(0, form@.len() as int) =~= form@);
        vowel_form_at(&self.symbols, &form, 0, form.len())
    }

    /// Whether no glyph of the table is white space, as `char::is_whitespace`
    /// sees it. Where this holds, every Roman text in which each letter is a
    /// Roman form on its own comes back from its script text.
    pub fn glyphs_are_no_white_space(&self) -> (ok: bool)
        ensures
            ok == no_glyph_is_white_space(),
            ok ==> forall|s: Seq<char>|
                words_spelled_in_roman_forms(s) ==> romanize_spec(
                    registry(),
                    #[trigger] script_spec(registry(), s),
                ) == s,
    {
        proof {
            use_type_invariant(self);
            lemma_script_forms_single();
        }
        let mut i: usize = 0;
        while i < self.symbols.len()
            invariant
                i <= self.symbols.len(),
                table_view(self.symbols@) == registry(),
                forall|k: int|
                    0 <= k < registry().len() ==> (#[trigger] registry()[k]).script == seq![
                        glyph(k),
                    ],
                forall|k: int| 0 <= k < i ==> !is_white_space(#[trigger] glyph(k)),
            decreases self.symbols.len() - i,
        {
            let script = &self.symbols[i].script;
            assert(script@ == registry()[i as int].script);
            if script[0].is_whitespace() {
                assert(is_white_space(glyph(i as int)));
                return false;
            }
            i = i + 1;
        }
        proof {
            assert forall|s: Seq<char>| words_spelled_in_roman_forms(s) implies romanize_spec(
                registry(),
                #[trigger] script_spec(registry(), s),
            ) == s by {
                lemma_round_trip(s);
            }
        }
        true
    }

    /// Converts script text to Roman text. White space stands for itself;
    /// everything else is read by greedy longest match against the
    /// registry, and what the registry does not know becomes a placeholder.
    /// No position is dropped: but for the vowel-killer, which has no Roman
    /// form, every character leaves at least one character.
    pub fn to_roman(&self, input: &str) -> (r: String)
        ensures
            r@ == romanize_spec(registry(), input@),
            r@.len() + killer_count(input@) >= input@.len(),
            !input@.contains(VOWEL_KILLER) ==> r@.len() >= input@.len(),
    {
        proof {
            use_type_invariant(self);
            lemma_romanize_len(input@);
            if !input@.contains(VOWEL_KILLER) {
                lemma_romanize_drops_no_position(input@);
            }
        }
        let text = chars_of(input);
        let out = romanize(&self.symbols, &text);
        string_of(&out)
    }

    /// Converts Roman text to script text. White space stands for itself;
    /// every word between is reconstructed on its own. The vowel-killer is
    /// written between consonants that follow one another and nowhere else:
    /// never at the end of the text, unless the text itself ends in that
    /// character.
    pub fn to_nepali(&self, input: &str) -> (r: String)
        ensures
            r@ == script_spec(registry(), input@),
            input@.len() > 0 ==> r@.len() > 0 && (r@.last() == VOWEL_KILLER ==> input@.last()
                == VOWEL_KILLER),
            !input@.contains(VOWEL_KILLER) ==> killers_between_consonants(r@),
    {
        proof {
            use_type_invariant(self);
            if input@.len() > 0 {
                lemma_script_no_trailing_killer(input@);
            }
            if !input@.contains(VOWEL_KILLER) {
                lemma_script_killers_stand_between_consonants(input@);
            }
        }
        let text = chars_of(input);
        let out = reconstruct_text(&self.symbols, &text);
        string_of(&out)
    }

    /// Converts Roman text to script text as `to_nepali` does, and lists
    /// what was found amiss on the way, in the order of the text: every
    /// letter that is no Roman form and was passed through, and every
    /// dependent vowel sign that was written without a bare consonant
    /// before it.
    pub fn to_nepali_with_diagnostics(&self, input: &str) -> (r: (String, Vec<Anomaly>))
        ensures
            r.0@ == script_spec(registry(), input@),
            anomalies_view(r.1@) == script_anomalies(registry(), input@),
    {
        proof {
            use_type_invariant(self);
        }
        let text = chars_of(input);
        let (out, notes) = read_text(&self.symbols, &text);
        (string_of(&out), notes)
    }
}

} // verus!
