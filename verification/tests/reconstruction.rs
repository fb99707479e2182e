use nepali_transliterate::registry::build;
use nepali_transliterate::roman::{romanize, PLACEHOLDER};
use nepali_transliterate::script::{
    emit_symbol, read_text, read_word, reconstruct_text, reconstruct_word, Progress,
};
use nepali_transliterate::{AnomalyKind, NepaliTransliterator, Symbol, SymbolClass};

fn chars(s: &str) -> Vec<char> {
    s.chars().collect()
}

fn fresh() -> Progress {
    Progress { out: Vec::new(), bare: false, notes: Vec::new() }
}

#[test]
fn placeholder_is_a_question_mark() {
    assert_eq!(PLACEHOLDER, '?');
}

#[test]
fn longest_match_grows_while_the_longer_form_is_known() {
    let table = vec![
        Symbol { script: chars("a"), roman: chars("1"), class: SymbolClass::Consonant },
        Symbol { script: chars("ab"), roman: chars("2"), class: SymbolClass::Consonant },
        Symbol { script: chars("abcd"), roman: chars("4"), class: SymbolClass::Consonant },
    ];
    // "abc" is no form, so the match stops at "ab" and never reaches "abcd"
    assert_eq!(romanize(&table, &chars("abcd")), chars("2??"));
    assert_eq!(romanize(&table, &chars("aab")), chars("12"));
    assert_eq!(romanize(&table, &chars("xab a")), chars("?2 1"));
    assert_eq!(romanize(&table, &chars("xb")), chars("??"));
}

#[test]
fn romanize_characters() {
    let table = build();
    assert_eq!(romanize(&table, &chars("नेपाल")), chars("nepāl"));
    assert_eq!(romanize(&table, &chars("क 1")), chars("k ?"));
    assert_eq!(romanize(&table, &Vec::new()), Vec::<char>::new());
}

#[test]
fn emit_symbol_puts_the_vowel_killer_between_consonants() {
    let table = build();
    let mut state = fresh();
    emit_symbol(&mut state, &table[10]);
    assert_eq!(state.out, chars("क"));
    assert!(state.bare);
    emit_symbol(&mut state, &table[36]);
    assert_eq!(state.out, chars("\u{915}\u{94d}\u{932}"));
    assert!(state.bare);
    emit_symbol(&mut state, &table[51]);
    assert_eq!(state.out, chars("\u{915}\u{94d}\u{932}\u{93e}"));
    assert!(!state.bare);
    emit_symbol(&mut state, &table[33]);
    assert_eq!(state.out, chars("\u{915}\u{94d}\u{932}\u{93e}\u{92e}"));
    assert!(state.bare);
    emit_symbol(&mut state, &table[42]);
    assert!(!state.bare);
    emit_symbol(&mut state, &table[0]);
    assert_eq!(state.out, chars("\u{915}\u{94d}\u{932}\u{93e}\u{92e}\u{902}\u{905}"));
    assert!(!state.bare);
}

#[test]
fn chunks_end_at_vowels_and_modifiers() {
    let table = build();
    // "kh" stands before a vowel, a modifier or the end: one consonant
    assert_eq!(reconstruct_word(&table, &chars("khā")), chars("\u{916}\u{93e}"));
    assert_eq!(reconstruct_word(&table, &chars("khṃ")), chars("\u{916}\u{902}"));
    assert_eq!(reconstruct_word(&table, &chars("duḥkh")), chars("\u{926}\u{941}\u{903}\u{916}"));
    // "kh" inside a longer run of consonants is spelled out
    assert_eq!(
        reconstruct_word(&table, &chars("khmā")),
        chars("\u{915}\u{94d}\u{939}\u{94d}\u{92e}\u{93e}")
    );
}

#[test]
fn reconstruct_word_characters() {
    let table = build();
    assert_eq!(
        reconstruct_word(&table, &chars("klm")),
        chars("\u{915}\u{94d}\u{932}\u{94d}\u{92e}")
    );
    assert_eq!(reconstruct_word(&table, &chars("nepāl")), chars("नेपाल"));
    assert_eq!(reconstruct_word(&table, &Vec::new()), Vec::<char>::new());
}

#[test]
fn reconstruct_text_characters() {
    let table = build();
    assert_eq!(reconstruct_text(&table, &chars(" k  nepāl\n")), chars(" क  नेपाल\n"));
    assert_eq!(reconstruct_text(&table, &Vec::new()), Vec::<char>::new());
}

fn noted(line: &str) -> Vec<(AnomalyKind, String)> {
    let t = NepaliTransliterator::new();
    let (_, notes) = t.to_nepali_with_diagnostics(line);
    notes.iter().map(|n| (n.kind, n.text.iter().collect())).collect()
}

#[test]
fn clean_text_has_nothing_amiss() {
    assert!(noted("nepāl").is_empty());
    assert!(noted("klm").is_empty());
    assert!(noted("sṃskṛt duḥkh").is_empty());
    assert!(noted("").is_empty());
    assert!(noted(" \t ").is_empty());
    assert!(noted("i ā").is_empty());
}

#[test]
fn unmapped_letters_are_noted() {
    assert_eq!(noted("k1l"), vec![(AnomalyKind::Unmapped, "1".to_string())]);
    assert_eq!(
        noted("12 ,"),
        vec![
            (AnomalyKind::Unmapped, "1".to_string()),
            (AnomalyKind::Unmapped, "2".to_string()),
            (AnomalyKind::Unmapped, ",".to_string()),
        ]
    );
    assert_eq!(noted("ña"), vec![(AnomalyKind::Unmapped, "ñ".to_string())]);
}

#[test]
fn stray_signs_are_noted() {
    assert_eq!(noted("ṛ"), vec![(AnomalyKind::StraySign, "ṛ".to_string())]);
    assert_eq!(noted("ai"), vec![(AnomalyKind::StraySign, "i".to_string())]);
    assert_eq!(noted("kāi"), vec![(AnomalyKind::StraySign, "i".to_string())]);
    assert_eq!(
        noted("1i kṃu"),
        vec![
            (AnomalyKind::Unmapped, "1".to_string()),
            (AnomalyKind::StraySign, "i".to_string()),
            (AnomalyKind::StraySign, "u".to_string()),
        ]
    );
}

#[test]
fn diagnostics_leave_the_script_text_as_it_is() {
    let t = NepaliTransliterator::new();
    for line in ["nepāl", "k1l", "ṛ ai", "12 ,.", "khm  ña"] {
        let (script, _) = t.to_nepali_with_diagnostics(line);
        assert_eq!(script, t.to_nepali(line));
    }
}

#[test]
fn read_word_gives_text_and_notes() {
    let table = build();
    let state = read_word(&table, &chars("k7i"));
    assert_eq!(state.out, chars("\u{915}7\u{93f}"));
    assert!(!state.bare);
    assert_eq!(state.notes.len(), 2);
    assert_eq!(state.notes[0].kind, AnomalyKind::Unmapped);
    assert_eq!(state.notes[0].text, chars("7"));
    assert_eq!(state.notes[1].kind, AnomalyKind::StraySign);
    assert_eq!(state.notes[1].text, chars("i"));
    let bare = read_word(&table, &chars("kl"));
    assert!(bare.bare);
    assert!(bare.notes.is_empty());
}

#[test]
fn read_text_gives_text_and_notes() {
    let table = build();
    let (out, notes) = read_text(&table, &chars("k 9"));
    assert_eq!(out, chars("क 9"));
    assert_eq!(notes.len(), 1);
    assert_eq!(notes[0].text, chars("9"));
}

#[test]
fn emit_symbol_notes_a_stray_sign() {
    let table = build();
    let mut state = fresh();
    emit_symbol(&mut state, &table[51]);
    assert_eq!(state.notes.len(), 1);
    assert_eq!(state.notes[0].kind, AnomalyKind::StraySign);
    assert_eq!(state.notes[0].text, chars("ā"));
    emit_symbol(&mut state, &table[10]);
    emit_symbol(&mut state, &table[51]);
    emit_symbol(&mut state, &table[42]);
    emit_symbol(&mut state, &table[0]);
    assert_eq!(state.notes.len(), 1);
}
