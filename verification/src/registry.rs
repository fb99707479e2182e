//! The fixed registry: the symbols of the script with their Roman forms,
//! in registration order, and the table built from it.

use crate::symbol::{table_view, Symbol, SymbolClass, SymbolView};
use vstd::prelude::*;

verus! {

/// The script glyph that suppresses the inherent vowel of the consonant
/// before it. It has no Roman spelling.
pub const VOWEL_KILLER: char = '\u{94d}';

/// How many symbols the registry holds.
pub const REGISTRY_LEN: usize = 54;

/// An independent vowel with glyph `glyph` and Roman form `roman`.
pub open spec fn vowel(glyph: char, roman: Seq<char>) -> SymbolView {
    SymbolView { script: seq![glyph], roman, class: SymbolClass::IndependentVowel }
}

/// A consonant with glyph `glyph` and Roman form `roman`.
pub open spec fn consonant(glyph: char, roman: Seq<char>) -> SymbolView {
    SymbolView { script: seq![glyph], roman, class: SymbolClass::Consonant }
}

/// A dependent vowel sign with glyph `glyph` and Roman form `roman`.
pub open spec fn sign(glyph: char, roman: Seq<char>) -> SymbolView {
    SymbolView { script: seq![glyph], roman, class: SymbolClass::DependentVowel }
}

/// A modifier with glyph `glyph` and Roman form `roman`.
pub open spec fn modifier(glyph: char, roman: Seq<char>) -> SymbolView {
    SymbolView { script: seq![glyph], roman, class: SymbolClass::Modifier }
}

/// The symbol registered at position `i`. Positions past the end read as
/// the vowel-killer; `registry` never looks there.
pub open spec fn registry_entry(i: int) -> SymbolView {
    if i == 0 {
        vowel('\u{905}', seq!['a'])  // U+0905 अ "a"
    } else if i == 1 {
        vowel('\u{906}', seq!['\u{101}'])  // U+0906 आ "ā"
    } else if i == 2 {
        vowel('\u{907}', seq!['i'])  // U+0907 इ "i"
    } else if i == 3 {
        vowel('\u{908}', seq!['\u{12b}'])  // U+0908 ई "ī"
    } else if i == 4 {
        vowel('\u{909}', seq!['u'])  // U+0909 उ "u"
    } else if i == 5 {
        vowel('\u{90a}', seq!['\u{16b}'])  // U+090A ऊ "ū"
    } else if i == 6 {
        vowel('\u{90f}', seq!['e'])  // U+090F ए "e"
    } else if i == 7 {
        vowel('\u{910}', seq!['a', 'i'])  // U+0910 ऐ "ai"
    } else if i == 8 {
        vowel('\u{913}', seq!['o'])  // U+0913 ओ "o"
    } else if i == 9 {
        vowel('\u{914}', seq!['a', 'u'])  // U+0914 औ "au"
    } else if i == 10 {
        consonant('\u{915}', seq!['k'])  // U+0915 क "k"
    } else if i == 11 {
        consonant('\u{916}', seq!['k', 'h'])  // U+0916 ख "kh"
    } else if i == 12 {
        consonant('\u{917}', seq!['g'])  // U+0917 ग "g"
    } else if i == 13 {
        consonant('\u{918}', seq!['g', 'h'])  // U+0918 घ "gh"
    } else if i == 14 {
        consonant('\u{91a}', seq!['c'])  // U+091A च "c"
    } else if i == 15 {
        consonant('\u{91b}', seq!['c', 'h'])  // U+091B छ "ch"
    } else if i == 16 {
        consonant('\u{91c}', seq!['j'])  // U+091C ज "j"
    } else if i == 17 {
        consonant('\u{91d}', seq!['j', 'h'])  // U+091D झ "jh"
    } else if i == 18 {
        consonant('\u{91e}', seq!['\u{f1}', 'a'])  // U+091E ञ "ña"
    } else if i == 19 {
        consonant('\u{91f}', seq!['\u{1e6d}'])  // U+091F ट "ṭ"
    } else if i == 20 {
        consonant('\u{920}', seq!['\u{1e6d}', 'h'])  // U+0920 ठ "ṭh"
    } else if i == 21 {
        consonant('\u{921}', seq!['\u{1e0d}'])  // U+0921 ड "ḍ"
    } else if i == 22 {
        consonant('\u{922}', seq!['\u{1e0d}', 'h'])  // U+0922 ढ "ḍh"
    } else if i == 23 {
        consonant('\u{923}', seq!['\u{1e47}'])  // U+0923 ण "ṇ"
    } else if i == 24 {
        consonant('\u{924}', seq!['t'])  // U+0924 त "t"
    } else if i == 25 {
        consonant('\u{925}', seq!['t', 'h'])  // U+0925 थ "th"
    } else if i == 26 {
        consonant('\u{926}', seq!['d'])  // U+0926 द "d"
    } else if i == 27 {
        consonant('\u{927}', seq!['d', 'h'])  // U+0927 ध "dh"
    } else if i == 28 {
        consonant('\u{928}', seq!['n'])  // U+0928 न "n"
    } else if i == 29 {
        consonant('\u{92a}', seq!['p'])  // U+092A प "p"
    } else if i == 30 {
        consonant('\u{92b}', seq!['p', 'h'])  // U+092B फ "ph"
    } else if i == 31 {
        consonant('\u{92c}', seq!['b'])  // U+092C ब "b"
    } else if i == 32 {
        consonant('\u{92d}', seq!['b', 'h'])  // U+092D भ "bh"
    } else if i == 33 {
        consonant('\u{92e}', seq!['m'])  // U+092E म "m"
    } else if i == 34 {
        consonant('\u{92f}', seq!['y'])  // U+092F य "y"
    } else if i == 35 {
        consonant('\u{930}', seq!['r'])  // U+0930 र "r"
    } else if i == 36 {
        consonant('\u{932}', seq!['l'])  // U+0932 ल "l"
    } else if i == 37 {
        consonant('\u{935}', seq!['v'])  // U+0935 व "v"
    } else if i == 38 {
        consonant('\u{936}', seq!['\u{15b}'])  // U+0936 श "ś"
    } else if i == 39 {
        consonant('\u{937}', seq!['\u{1e63}'])  // U+0937 ष "ṣ"
    } else if i == 40 {
        consonant('\u{938}', seq!['s'])  // U+0938 स "s"
    } else if i == 41 {
        consonant('\u{939}', seq!['h'])  // U+0939 ह "h"
    } else if i == 42 {
        modifier('\u{902}', seq!['\u{1e43}'])  // U+0902 ◌ं "ṃ"
    } else if i == 43 {
        modifier('\u{901}', seq!['\u{1e45}'])  // U+0901 ◌ँ "ṅ"
    } else if i == 44 {
        modifier('\u{94d}', Seq::empty())  // U+094D ◌् ""
    } else if i == 45 {
        sign('\u{93f}', seq!['i'])  // U+093F ◌ि "i"
    } else if i == 46 {
        sign('\u{940}', seq!['\u{12b}'])  // U+0940 ◌ी "ī"
    } else if i == 47 {
        sign('\u{94b}', seq!['o'])  // U+094B ◌ो "o"
    } else if i == 48 {
        sign('\u{941}', seq!['u'])  // U+0941 ◌ु "u"
    } else if i == 49 {
        sign('\u{942}', seq!['\u{16b}'])  // U+0942 ◌ू "ū"
    } else if i == 50 {
        sign('\u{947}', seq!['e'])  // U+0947 ◌े "e"
    } else if i == 51 {
        sign('\u{93e}', seq!['\u{101}'])  // U+093E ◌ा "ā"
    } else if i == 52 {
        sign('\u{943}', seq!['\u{1e5b}'])  // U+0943 ◌ृ "ṛ"
    } else if i == 53 {
        modifier('\u{903}', seq!['\u{1e25}'])  // U+0903 ◌ः "ḥ"
    } else {
        modifier(VOWEL_KILLER, Seq::empty())
    }
}

/// The registry: every symbol, in registration order.
pub open spec fn registry() -> Seq<SymbolView> {
    Seq::new(REGISTRY_LEN as nat, |i: int| registry_entry(i))
}

/// Whether `table` holds the first symbols of the registry, in order.
spec fn is_registry_prefix(table: Seq<Symbol>) -> bool {
    &&& table.len() <= REGISTRY_LEN
    &&& forall|k: int| 0 <= k < table.len() ==> (#[trigger] table[k])@ == registry_entry(k)
}

/// A form of one character.
fn chars1(a: char) -> (v: Vec<char>)
    ensures
        v@ == seq![a],
{
    let mut v: Vec<char> = Vec::new();
    v.push(a);
    v
}

/// A form of two characters.
fn chars2(a: char, b: char) -> (v: Vec<char>)
    ensures
        v@ == seq![a, b],
{
    let mut v: Vec<char> = Vec::new();
    v.push(a);
    v.push(b);
    v
}

/// Adds the next symbol of the registry to `table`.
fn register(table: &mut Vec<Symbol>, glyph: char, roman: Vec<char>, class: SymbolClass)
    requires
        is_registry_prefix(old(table)@),
        old(table).len() < REGISTRY_LEN,
        registry_entry(old(table).len() as int).script =~= seq![glyph],
        registry_entry(old(table).len() as int).roman =~= roman@,
        registry_entry(old(table).len() as int).class == class,
    ensures
        is_registry_prefix(final(table)@),
        final(table).len() == old(table).len() + 1,
{
    let script = chars1(glyph);
    table.push(Symbol { script, roman, class });
}

/// Registers the independent vowels.
fn register_vowels(table: &mut Vec<Symbol>)
    requires
        is_registry_prefix(old(table)@),
        old(table).len() == 0,
    ensures
        is_registry_prefix(final(table)@),
        final(table).len() == 10,
{
    register(table, '\u{905}', chars1('a'), SymbolClass::IndependentVowel);
    register(table, '\u{906}', chars1('\u{101}'), SymbolClass::IndependentVowel);
    register(table, '\u{907}', chars1('i'), SymbolClass::IndependentVowel);
    register(table, '\u{908}', chars1('\u{12b}'), SymbolClass::IndependentVowel);
    register(table, '\u{909}', chars1('u'), SymbolClass::IndependentVowel);
    register(table, '\u{90a}', chars1('\u{16b}'), SymbolClass::IndependentVowel);
    register(table, '\u{90f}', chars1('e'), SymbolClass::IndependentVowel);
    register(table, '\u{910}', chars2('a', 'i'), SymbolClass::IndependentVowel);
    register(table, '\u{913}', chars1('o'), SymbolClass::IndependentVowel);
    register(table, '\u{914}', chars2('a', 'u'), SymbolClass::IndependentVowel);
}

/// Registers the velar and palatal consonants.
fn register_velars_and_palatals(table: &mut Vec<Symbol>)
    requires
        is_registry_prefix(old(table)@),
        old(table).len() == 10,
    ensures
        is_registry_prefix(final(table)@),
        final(table).len() == 19,
{
    register(table, '\u{915}', chars1('k'), SymbolClass::Consonant);
    register(table, '\u{916}', chars2('k', 'h'), SymbolClass::Consonant);
    register(table, '\u{917}', chars1('g'), SymbolClass::Consonant);
    register(table, '\u{918}', chars2('g', 'h'), SymbolClass::Consonant);
    register(table, '\u{91a}', chars1('c'), SymbolClass::Consonant);
    register(table, '\u{91b}', chars2('c', 'h'), SymbolClass::Consonant);
    register(table, '\u{91c}', chars1('j'), SymbolClass::Consonant);
    register(table, '\u{91d}', chars2('j', 'h'), SymbolClass::Consonant);
    register(table, '\u{91e}', chars2('\u{f1}', 'a'), SymbolClass::Consonant);
}

/// Registers the retroflex and dental consonants.
fn register_retroflexes_and_dentals(table: &mut Vec<Symbol>)
    requires
        is_registry_prefix(old(table)@),
        old(table).len() == 19,
    ensures
        is_registry_prefix(final(table)@),
        final(table).len() == 29,
{
    register(table, '\u{91f}', chars1('\u{1e6d}'), SymbolClass::Consonant);
    register(table, '\u{920}', chars2('\u{1e6d}', 'h'), SymbolClass::Consonant);
    register(table, '\u{921}', chars1('\u{1e0d}'), SymbolClass::Consonant);
    register(table, '\u{922}', chars2('\u{1e0d}', 'h'), SymbolClass::Consonant);
    register(table, '\u{923}', chars1('\u{1e47}'), SymbolClass::Consonant);
    register(table, '\u{924}', chars1('t'), SymbolClass::Consonant);
    register(table, '\u{925}', chars2('t', 'h'), SymbolClass::Consonant);
    register(table, '\u{926}', chars1('d'), SymbolClass::Consonant);
    register(table, '\u{927}', chars2('d', 'h'), SymbolClass::Consonant);
    register(table, '\u{928}', chars1('n'), SymbolClass::Consonant);
}

/// Registers the labial consonants, the semivowels, the sibilants and ha.
fn register_labials_and_rest(table: &mut Vec<Symbol>)
    requires
        is_registry_prefix(old(table)@),
        old(table).len() == 29,
    ensures
        is_registry_prefix(final(table)@),
        final(table).len() == 42,
{
    register(table, '\u{92a}', chars1('p'), SymbolClass::Consonant);
    register(table, '\u{92b}', chars2('p', 'h'), SymbolClass::Consonant);
    register(table, '\u{92c}', chars1('b'), SymbolClass::Consonant);
    register(table, '\u{92d}', chars2('b', 'h'), SymbolClass::Consonant);
    register(table, '\u{92e}', chars1('m'), SymbolClass::Consonant);
    register(table, '\u{92f}', chars1('y'), SymbolClass::Consonant);
    register(table, '\u{930}', chars1('r'), SymbolClass::Consonant);
    register(table, '\u{932}', chars1('l'), SymbolClass::Consonant);
    register(table, '\u{935}', chars1('v'), SymbolClass::Consonant);
    register(table, '\u{936}', chars1('\u{15b}'), SymbolClass::Consonant);
    register(table, '\u{937}', chars1('\u{1e63}'), SymbolClass::Consonant);
    register(table, '\u{938}', chars1('s'), SymbolClass::Consonant);
    register(table, '\u{939}', chars1('h'), SymbolClass::Consonant);
}

/// Registers the modifiers and the dependent vowel signs.
fn register_marks_and_signs(table: &mut Vec<Symbol>)
    requires
        is_registry_prefix(old(table)@),
        old(table).len() == 42,
    ensures
        is_registry_prefix(final(table)@),
        final(table).len() == 54,
{
    register(table, '\u{902}', chars1('\u{1e43}'), SymbolClass::Modifier);
    register(table, '\u{901}', chars1('\u{1e45}'), SymbolClass::Modifier);
    register(table, '\u{94d}', Vec::new(), SymbolClass::Modifier);
    register(table, '\u{93f}', chars1('i'), SymbolClass::DependentVowel);
    register(table, '\u{940}', chars1('\u{12b}'), SymbolClass::DependentVowel);
    register(table, '\u{94b}', chars1('o'), SymbolClass::DependentVowel);
    register(table, '\u{941}', chars1('u'), SymbolClass::DependentVowel);
    register(table, '\u{942}', chars1('\u{16b}'), SymbolClass::DependentVowel);
    register(table, '\u{947}', chars1('e'), SymbolClass::DependentVowel);
    register(table, '\u{93e}', chars1('\u{101}'), SymbolClass::DependentVowel);
    register(table, '\u{943}', chars1('\u{1e5b}'), SymbolClass::DependentVowel);
    register(table, '\u{903}', chars1('\u{1e25}'), SymbolClass::Modifier);
}

/// Builds the symbol table from the registry.
pub fn build() -> (table: Vec<Symbol>)
    ensures
        table_view(table@) == registry(),
{
    let mut table: Vec<Symbol> = Vec::new();
    register_vowels(&mut table);
    register_velars_and_palatals(&mut table);
    register_retroflexes_and_dentals(&mut table);
    register_labials_and_rest(&mut table);
    register_marks_and_signs(&mut table);
    assert(table_view(table@) =~= registry());
    table
}

/// The glyph of the symbol registered at position `i`.
pub open spec fn glyph(i: int) -> char {
    registry_entry(i).script[0]
}

/// Every script form of the registry is a single glyph.
pub proof fn lemma_script_forms_single()
    ensures
        forall|i: int|
            0 <= i < registry().len() ==> (#[trigger] registry()[i]).script == seq![glyph(i)],
{
    assert forall|i: int| 0 <= i < registry().len() implies (#[trigger] registry()[i]).script
        == seq![glyph(i)] by {
        assert(registry()[i].script =~= seq![glyph(i)]);
    }
}

/// No two symbols of the registry share a script form.
pub proof fn lemma_script_forms_distinct()
    ensures
        forall|i: int, j: int|
            0 <= i < registry().len() && 0 <= j < registry().len() && i != j ==> (
            #[trigger] registry()[i]).script != (#[trigger] registry()[j]).script,
{
    assert forall|i: int, j: int|
        0 <= i < registry().len() && 0 <= j < registry().len() && i != j implies (
    #[trigger] registry()[i]).script != (#[trigger] registry()[j]).script by {
        assert(registry()[i].script[0] == glyph(i));
        assert(registry()[j].script[0] == glyph(j));
        assert(glyph(i) != glyph(j));
    }
}

/// Where the vowel-killer is registered.
pub open spec fn killer_index() -> int {
    44
}

/// No Roman form of the registry holds more than two letters.
pub proof fn lemma_roman_forms_short()
    ensures
        forall|i: int| 0 <= i < registry().len() ==> (#[trigger] registry()[i]).roman.len() <= 2,
{
}

/// The vowel-killer is the one symbol of the registry without a Roman form.
pub proof fn lemma_only_killer_is_silent()
    ensures
        registry()[killer_index()].script == seq![VOWEL_KILLER],
        registry()[killer_index()].roman.len() == 0,
        forall|i: int|
            0 <= i < registry().len() && i != killer_index() ==> (
            #[trigger] registry()[i]).roman.len() > 0 && registry()[i].script != seq![
                VOWEL_KILLER,
            ],
{
    lemma_script_forms_distinct();
}

/// No consonant of the registry shares its Roman form with a vowel, a vowel
/// sign or a modifier.
pub proof fn lemma_consonant_forms_apart()
    ensures
        forall|i: int, j: int|
            0 <= i < registry().len() && 0 <= j < registry().len() && registry()[i].class
                == SymbolClass::Consonant && registry()[j].class != SymbolClass::Consonant ==> (
            #[trigger] registry()[i]).roman != (#[trigger] registry()[j]).roman,
{
    assert forall|i: int, j: int|
        0 <= i < registry().len() && 0 <= j < registry().len() && registry()[i].class
            == SymbolClass::Consonant && registry()[j].class != SymbolClass::Consonant implies (
    #[trigger] registry()[i]).roman != (#[trigger] registry()[j]).roman by {
        let a = registry()[i].roman;
        let b = registry()[j].roman;
        if a.len() == b.len() && a.len() > 0 {
            assert(a[0] != b[0]);
        }
    }
}

/// No Roman form of a vowel, a vowel sign or a modifier ends in a letter
/// that is a consonant's Roman form on its own.
pub proof fn lemma_sign_forms_end_in_no_consonant()
    ensures
        forall|i: int, j: int|
            0 <= i < registry().len() && 0 <= j < registry().len() && registry()[i].class
                != SymbolClass::Consonant && registry()[j].class == SymbolClass::Consonant
                && registry()[i].roman.len() > 0 && registry()[j].roman.len() == 1 ==> (
            #[trigger] registry()[i]).roman.last() != (#[trigger] registry()[j]).roman[0],
{
}

/// A Roman form of two letters begins with a letter that is a Roman form on
/// its own, or ends with the letter `a`, which is one.
pub proof fn lemma_two_letter_forms()
    ensures
        registry()[0].roman == seq!['a'],
        forall|i: int|
            0 <= i < registry().len() && (#[trigger] registry()[i]).roman.len() == 2 ==> {
                ||| registry()[i].roman[1] == 'a'
                ||| (registry()[i].class != SymbolClass::Consonant && registry()[i].roman[0] == 'a')
                ||| (i > 0 && registry()[i].class == SymbolClass::Consonant && registry()[i
                    - 1].class == SymbolClass::Consonant && registry()[i - 1].roman
                    == seq![registry()[i].roman[0]])
            },
{
    assert(registry()[0].roman =~= seq!['a']);
    assert forall|i: int|
        0 <= i < registry().len() && (#[trigger] registry()[i]).roman.len() == 2 implies {
        ||| registry()[i].roman[1] == 'a'
        ||| (registry()[i].class != SymbolClass::Consonant && registry()[i].roman[0] == 'a')
        ||| (i > 0 && registry()[i].class == SymbolClass::Consonant && registry()[i - 1].class
            == SymbolClass::Consonant && registry()[i - 1].roman == seq![registry()[i].roman[0]])
    } by {
        if i > 0 && registry()[i].roman[1] != 'a' && registry()[i].roman[0] != 'a' {
            assert(registry()[i - 1].roman =~= seq![registry()[i].roman[0]]);
        }
    }
}

} // verus!
