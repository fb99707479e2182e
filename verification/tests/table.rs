use nepali_transliterate::registry::{build, REGISTRY_LEN, VOWEL_KILLER};
use nepali_transliterate::roman::romanize;
use nepali_transliterate::script::reconstruct_word;
use nepali_transliterate::{NepaliTransliterator, Symbol, SymbolClass};

fn chars(s: &str) -> Vec<char> {
    s.chars().collect()
}

fn text(v: &[char]) -> String {
    v.iter().collect()
}

#[test]
fn registry_holds_every_symbol() {
    let t = NepaliTransliterator::new();
    assert_eq!(t.symbols().len(), 54);
    assert_eq!(REGISTRY_LEN, 54);
    assert_eq!(build().len(), 54);
}

#[test]
fn registry_classes_are_counted() {
    let t = NepaliTransliterator::new();
    let count = |class: SymbolClass| t.symbols().iter().filter(|s| s.class == class).count();
    assert_eq!(count(SymbolClass::IndependentVowel), 10);
    assert_eq!(count(SymbolClass::Consonant), 32);
    assert_eq!(count(SymbolClass::DependentVowel), 8);
    assert_eq!(count(SymbolClass::Modifier), 4);
}

#[test]
fn registry_order_is_fixed() {
    let t = NepaliTransliterator::new();
    let at = |i: usize| {
        let s: &Symbol = &t.symbols()[i];
        (text(&s.script), text(&s.roman), s.class)
    };
    assert_eq!(at(0), ("अ".to_string(), "a".to_string(), SymbolClass::IndependentVowel));
    assert_eq!(at(7), ("ऐ".to_string(), "ai".to_string(), SymbolClass::IndependentVowel));
    assert_eq!(at(10), ("क".to_string(), "k".to_string(), SymbolClass::Consonant));
    assert_eq!(at(18), ("ञ".to_string(), "ña".to_string(), SymbolClass::Consonant));
    assert_eq!(at(41), ("ह".to_string(), "h".to_string(), SymbolClass::Consonant));
    assert_eq!(at(42), ("\u{902}".to_string(), "ṃ".to_string(), SymbolClass::Modifier));
    assert_eq!(at(43), ("\u{901}".to_string(), "ṅ".to_string(), SymbolClass::Modifier));
    assert_eq!(at(44), ("\u{94d}".to_string(), "".to_string(), SymbolClass::Modifier));
    assert_eq!(at(45), ("\u{93f}".to_string(), "i".to_string(), SymbolClass::DependentVowel));
    assert_eq!(at(52), ("\u{943}".to_string(), "ṛ".to_string(), SymbolClass::DependentVowel));
    assert_eq!(at(53), ("\u{903}".to_string(), "ḥ".to_string(), SymbolClass::Modifier));
}

#[test]
fn registry_matches_the_listed_forms() {
    let t = NepaliTransliterator::new();
    let listed = "अ a,आ ā,इ i,ई ī,उ u,ऊ ū,ए e,ऐ ai,ओ o,औ au,क k,ख kh,ग g,घ gh,च c,छ ch,ज j,झ jh,\
ञ ña,ट ṭ,ठ ṭh,ड ḍ,ढ ḍh,ण ṇ,त t,थ th,द d,ध dh,न n,प p,फ ph,ब b,भ bh,म m,य y,र r,ल l,व v,श ś,ष ṣ,\
स s,ह h,\u{902} ṃ,\u{901} ṅ,\u{94d} ,\u{93f} i,\u{940} ī,\u{94b} o,\u{941} u,\u{942} ū,\u{947} e,\
\u{93e} ā,\u{943} ṛ,\u{903} ḥ";
    let pairs: Vec<&str> = listed.split(',').collect();
    assert_eq!(pairs.len(), t.symbols().len());
    for (pair, symbol) in pairs.iter().zip(t.symbols().iter()) {
        let (script, roman) = pair.split_once(' ').unwrap();
        assert_eq!(text(&symbol.script), script);
        assert_eq!(text(&symbol.roman), roman);
    }
}

#[test]
fn script_forms_are_pairwise_distinct() {
    let t = NepaliTransliterator::new();
    let table = t.symbols();
    for i in 0..table.len() {
        for j in 0..table.len() {
            if i != j {
                assert_ne!(table[i].script, table[j].script, "{} {}", i, j);
            }
        }
    }
}

#[test]
fn script_forms_are_single_glyphs() {
    let t = NepaliTransliterator::new();
    for symbol in t.symbols().iter() {
        assert_eq!(symbol.script.len(), 1);
        assert!(symbol.roman.len() <= 2);
    }
}

#[test]
fn only_the_vowel_killer_is_silent() {
    let t = NepaliTransliterator::new();
    for symbol in t.symbols().iter() {
        assert_eq!(symbol.roman.is_empty(), symbol.script == vec![VOWEL_KILLER]);
    }
    assert_eq!(VOWEL_KILLER, '\u{94d}');
}

#[test]
fn no_script_form_begins_another() {
    let t = NepaliTransliterator::new();
    let table = t.symbols();
    for i in 0..table.len() {
        for j in 0..table.len() {
            if i != j {
                assert!(!table[j].script.starts_with(&table[i].script));
            }
        }
    }
}

#[test]
fn every_script_form_is_read_whole_whatever_follows() {
    let t = NepaliTransliterator::new();
    let table = t.symbols();
    for symbol in table.iter() {
        for follower in table.iter() {
            let mut input = symbol.script.clone();
            input.extend(follower.script.iter());
            let mut expected = symbol.roman.clone();
            expected.extend(follower.roman.iter());
            assert_eq!(romanize(table, &input), expected);
        }
        for rest in ["", "1", " ", "zz"] {
            let mut input = symbol.script.clone();
            input.extend(rest.chars());
            let out = romanize(table, &input);
            assert!(out.starts_with(&symbol.roman));
        }
    }
}

#[test]
fn lookup_script_finds_roman_form_and_class() {
    let t = NepaliTransliterator::new();
    assert_eq!(t.lookup_script("क"), Some(("k".to_string(), SymbolClass::Consonant)));
    assert_eq!(t.lookup_script("ख"), Some(("kh".to_string(), SymbolClass::Consonant)));
    assert_eq!(t.lookup_script("अ"), Some(("a".to_string(), SymbolClass::IndependentVowel)));
    assert_eq!(t.lookup_script("\u{93f}"), Some(("i".to_string(), SymbolClass::DependentVowel)));
    assert_eq!(t.lookup_script("\u{94d}"), Some(("".to_string(), SymbolClass::Modifier)));
    assert_eq!(t.lookup_script("\u{903}"), Some(("ḥ".to_string(), SymbolClass::Modifier)));
}

#[test]
fn lookup_script_is_exact() {
    let t = NepaliTransliterator::new();
    assert_eq!(t.lookup_script("कल"), None);
    assert_eq!(t.lookup_script(""), None);
    assert_eq!(t.lookup_script("k"), None);
    assert_eq!(t.lookup_script("क "), None);
}

#[test]
fn lookup_roman_takes_the_first_registered() {
    let t = NepaliTransliterator::new();
    assert_eq!(t.lookup_roman("i"), Some("इ".to_string()));
    assert_eq!(t.lookup_roman("ā"), Some("आ".to_string()));
    assert_eq!(t.lookup_roman("k"), Some("क".to_string()));
    assert_eq!(t.lookup_roman("kh"), Some("ख".to_string()));
    assert_eq!(t.lookup_roman("ña"), Some("ञ".to_string()));
    assert_eq!(t.lookup_roman("ṛ"), Some("\u{943}".to_string()));
    assert_eq!(t.lookup_roman(""), Some("\u{94d}".to_string()));
}

#[test]
fn lookup_roman_is_exact() {
    let t = NepaliTransliterator::new();
    assert_eq!(t.lookup_roman("x"), None);
    assert_eq!(t.lookup_roman("K"), None);
    assert_eq!(t.lookup_roman("kha"), None);
    assert_eq!(t.lookup_roman("ñ"), None);
    assert_eq!(t.lookup_roman("क"), None);
}

#[test]
fn class_of_script_form() {
    let t = NepaliTransliterator::new();
    assert_eq!(t.class_of_script("ई"), Some(SymbolClass::IndependentVowel));
    assert_eq!(t.class_of_script("\u{940}"), Some(SymbolClass::DependentVowel));
    assert_eq!(t.class_of_script("श"), Some(SymbolClass::Consonant));
    assert_eq!(t.class_of_script("\u{902}"), Some(SymbolClass::Modifier));
    assert_eq!(t.class_of_script("z"), None);
}

#[test]
fn class_of_roman_form() {
    let t = NepaliTransliterator::new();
    assert_eq!(t.class_of_roman("ī"), Some(SymbolClass::IndependentVowel));
    assert_eq!(t.class_of_roman("ṛ"), Some(SymbolClass::DependentVowel));
    assert_eq!(t.class_of_roman("ś"), Some(SymbolClass::Consonant));
    assert_eq!(t.class_of_roman("ṃ"), Some(SymbolClass::Modifier));
    assert_eq!(t.class_of_roman(""), Some(SymbolClass::Modifier));
    assert_eq!(t.class_of_roman("q"), None);
}

#[test]
fn consonants_are_told_by_script_form() {
    let t = NepaliTransliterator::new();
    assert!(t.is_consonant("क"));
    assert!(t.is_consonant("ह"));
    assert!(!t.is_consonant("अ"));
    assert!(!t.is_consonant("\u{93e}"));
    assert!(!t.is_consonant("\u{94d}"));
    assert!(!t.is_consonant("k"));
    assert!(!t.is_consonant(""));
}

#[test]
fn vowels_are_told_by_roman_form() {
    let t = NepaliTransliterator::new();
    for form in ["a", "ā", "i", "ī", "u", "ū", "e", "ai", "o", "au", "ṛ", "ṃ", "ṅ", "ḥ", ""] {
        assert!(t.is_vowel(form), "{}", form);
    }
    for form in ["k", "kh", "ña", "h", "x", "ia", "इ"] {
        assert!(!t.is_vowel(form), "{}", form);
    }
}

#[test]
fn searches_take_the_first_of_equal_entries() {
    let table = vec![
        Symbol { script: chars("x"), roman: chars("1"), class: SymbolClass::Consonant },
        Symbol { script: chars("x"), roman: chars("2"), class: SymbolClass::Consonant },
        Symbol { script: chars("y"), roman: chars("2"), class: SymbolClass::DependentVowel },
        Symbol { script: chars("z"), roman: chars("2"), class: SymbolClass::IndependentVowel },
    ];
    assert_eq!(romanize(&table, &chars("xyz")), chars("122"));
    // "2" at the start of a word is the independent vowel, later the sign
    assert_eq!(reconstruct_word(&table, &chars("2")), chars("z"));
    assert_eq!(reconstruct_word(&table, &chars("12")), chars("xy"));
    assert_eq!(reconstruct_word(&table, &chars("11")), chars("x\u{94d}x"));
}

#[test]
fn no_glyph_is_white_space() {
    let t = NepaliTransliterator::new();
    assert!(t.glyphs_are_no_white_space());
    for symbol in t.symbols().iter() {
        assert!(symbol.script.iter().all(|c| !c.is_whitespace()));
    }
}
