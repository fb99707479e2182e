use nepali_transliterate::NepaliTransliterator;

const SAMPLE: &str = "कलमले लेखेको आकाशद्वार पहाडि लालीगुराँस अक्षय स्मृति लाभांश श्री ज्ञान कोष क्षत्रपाटी काठमाण्डु ";

const SAMPLE_ROMAN: &str = "klmle lekheko ākāśdvār phāḍi lālīgurāṅs akṣy smṛti lābhāṃś śrī jñaān koṣ kṣtrpāṭī kāṭhmāṇḍu ";

const VOWEL_KILLER: char = '\u{94d}';

#[test]
fn bare_consonants_to_roman() {
    let t = NepaliTransliterator::new();
    assert_eq!(t.to_roman("कलम"), "klm");
}

#[test]
fn bare_consonants_to_script_get_vowel_killers() {
    let t = NepaliTransliterator::new();
    // ka, killer, la, killer, ma
    assert_eq!(t.to_nepali("klm"), "\u{915}\u{94d}\u{932}\u{94d}\u{92e}");
}

#[test]
fn nepal_to_roman() {
    let t = NepaliTransliterator::new();
    assert_eq!(t.to_roman("नेपाल"), "nepāl");
}

#[test]
fn nepal_to_script() {
    let t = NepaliTransliterator::new();
    assert_eq!(t.to_nepali("nepāl"), "नेपाल");
    assert_eq!(t.to_nepali("nepāl"), "\u{928}\u{947}\u{92a}\u{93e}\u{932}");
}

#[test]
fn empty_text_stays_empty() {
    let t = NepaliTransliterator::new();
    assert_eq!(t.to_roman(""), "");
    assert_eq!(t.to_nepali(""), "");
}

#[test]
fn sample_sentence_to_roman() {
    let t = NepaliTransliterator::new();
    assert_eq!(t.to_roman(SAMPLE), SAMPLE_ROMAN);
}

#[test]
fn sample_sentence_back_to_script() {
    let t = NepaliTransliterator::new();
    let expected = "\u{915}\u{94d}\u{932}\u{94d}\u{92e}\u{94d}\u{932}\u{947} \
\u{932}\u{947}\u{916}\u{947}\u{915}\u{94b} \
\u{906}\u{915}\u{93e}\u{936}\u{94d}\u{926}\u{94d}\u{935}\u{93e}\u{930} \
\u{92b}\u{93e}\u{921}\u{93f} \
\u{932}\u{93e}\u{932}\u{940}\u{917}\u{941}\u{930}\u{93e}\u{901}\u{938} \
\u{905}\u{915}\u{94d}\u{937}\u{94d}\u{92f} \
\u{938}\u{94d}\u{92e}\u{943}\u{924}\u{93f} \
\u{932}\u{93e}\u{92d}\u{93e}\u{902}\u{936} \
\u{936}\u{94d}\u{930}\u{940} \
\u{91c}\u{f1}\u{905}\u{93e}\u{928} \
\u{915}\u{94b}\u{937} \
\u{915}\u{94d}\u{937}\u{94d}\u{924}\u{94d}\u{930}\u{94d}\u{92a}\u{93e}\u{91f}\u{940} \
\u{915}\u{93e}\u{91f}\u{94d}\u{939}\u{94d}\u{92e}\u{93e}\u{923}\u{94d}\u{921}\u{941} ";
    assert_eq!(t.to_nepali(SAMPLE_ROMAN), expected);
}

#[test]
fn to_roman_keeps_white_space() {
    let t = NepaliTransliterator::new();
    assert_eq!(t.to_roman("\tक \n"), "\tk \n");
    assert_eq!(t.to_roman("  क   ल\r\n"), "  k   l\r\n");
    assert_eq!(t.to_roman(" \t\n"), " \t\n");
    assert_eq!(t.to_roman("क\u{a0}ल"), "k\u{a0}l");
}

#[test]
fn to_nepali_keeps_white_space() {
    let t = NepaliTransliterator::new();
    assert_eq!(t.to_nepali("  k  l "), "  क  ल ");
    assert_eq!(t.to_nepali("kā\tli"), "का\tलि");
    assert_eq!(t.to_nepali(" \t\n"), " \t\n");
    assert_eq!(t.to_nepali("k\u{a0}l"), "क\u{a0}ल");
}

#[test]
fn white_space_splits_the_conversion() {
    let t = NepaliTransliterator::new();
    let before = "nepāl";
    let after = "klm";
    for gap in [" ", "\t", "\n", "  \t ", "\u{2003}"] {
        let whole = format!("{}{}{}", before, gap, after);
        assert_eq!(
            t.to_nepali(&whole),
            format!("{}{}{}", t.to_nepali(before), gap, t.to_nepali(after))
        );
        let script_whole = format!("{}{}{}", "नेपाल", gap, "कलम");
        assert_eq!(
            t.to_roman(&script_whole),
            format!("{}{}{}", t.to_roman("नेपाल"), gap, t.to_roman("कलम"))
        );
    }
}

#[test]
fn words_are_reconstructed_one_by_one() {
    let t = NepaliTransliterator::new();
    // no vowel-killer is carried over a space
    assert_eq!(t.to_nepali("k l"), "क ल");
    assert_eq!(t.to_nepali("kl"), "\u{915}\u{94d}\u{932}");
    // a vowel after a space starts a word again
    assert_eq!(t.to_nepali("k i"), "क इ");
    assert_eq!(t.to_nepali("ki"), "\u{915}\u{93f}");
}

#[test]
fn zero_width_space_is_no_white_space() {
    let t = NepaliTransliterator::new();
    assert_eq!(t.to_nepali("k\u{200b}l"), "क\u{200b}ल");
    assert_eq!(t.to_roman("क\u{200b}ल"), "k?l");
}

#[test]
fn unknown_script_characters_become_placeholders() {
    let t = NepaliTransliterator::new();
    assert_eq!(t.to_roman("abc xyz"), "??? ???");
    assert_eq!(t.to_roman("क1 ?"), "k? ?");
    assert_eq!(t.to_roman("7"), "?");
}

#[test]
fn placeholders_stay_placeholders() {
    let t = NepaliTransliterator::new();
    let once = t.to_roman("12, 3!");
    assert_eq!(once, "??? ??");
    assert_eq!(t.to_roman(&once), once);
}

#[test]
fn unknown_roman_characters_pass_through() {
    let t = NepaliTransliterator::new();
    assert_eq!(t.to_nepali("12 ,."), "12 ,.");
    assert_eq!(t.to_nepali("2024-01-01"), "2024-01-01");
    let once = t.to_nepali("(42) + [7]");
    assert_eq!(once, "(42) + [7]");
    assert_eq!(t.to_nepali(&once), once);
}

#[test]
fn unknown_character_among_letters() {
    let t = NepaliTransliterator::new();
    // what passes through leaves no consonant bare
    assert_eq!(t.to_nepali("k1l"), "क1ल");
    assert_eq!(t.to_nepali("1i"), "1\u{93f}");
}

#[test]
fn vowel_killer_has_no_roman_form() {
    let t = NepaliTransliterator::new();
    assert_eq!(t.to_roman("\u{915}\u{94d}\u{932}"), "kl");
    assert_eq!(t.to_roman("\u{94d}"), "");
}

#[test]
fn roman_text_is_not_shorter_without_vowel_killer() {
    let t = NepaliTransliterator::new();
    for text in ["कलम", "नेपाल", "abc", "क1 ?", "ञ", " ", "", SAMPLE.split(' ').next().unwrap()] {
        assert!(!text.contains(VOWEL_KILLER));
        assert!(t.to_roman(text).chars().count() >= text.chars().count());
    }
}

#[test]
fn two_letter_consonant_alone() {
    let t = NepaliTransliterator::new();
    assert_eq!(t.to_nepali("kh"), "ख");
    assert_eq!(t.to_nepali("khā"), "खा");
    assert_eq!(t.to_nepali("ṭhīk"), "ठीक");
    assert_eq!(t.to_nepali("bh"), "भ");
}

#[test]
fn two_letter_consonant_before_consonant_is_spelled_out() {
    let t = NepaliTransliterator::new();
    // ka, killer, ha, killer, ma
    assert_eq!(t.to_nepali("khm"), "\u{915}\u{94d}\u{939}\u{94d}\u{92e}");
    // ma, killer, ka, killer, ha
    assert_eq!(t.to_nepali("mkh"), "\u{92e}\u{94d}\u{915}\u{94d}\u{939}");
}

#[test]
fn modifiers_attach_without_vowel_killer() {
    let t = NepaliTransliterator::new();
    assert_eq!(t.to_nepali("sṃskṛt"), "संस्कृत");
    assert_eq!(t.to_nepali("sṃskṛt"), "\u{938}\u{902}\u{938}\u{94d}\u{915}\u{943}\u{924}");
    assert_eq!(t.to_nepali("duḥkh"), "दुःख");
    assert_eq!(t.to_nepali("duḥkh"), "\u{926}\u{941}\u{903}\u{916}");
    assert_eq!(t.to_roman("संस्कृत"), "sṃskṛt");
}

#[test]
fn vowel_at_word_start_is_independent() {
    let t = NepaliTransliterator::new();
    assert_eq!(t.to_nepali("i"), "इ");
    assert_eq!(t.to_nepali("ā"), "आ");
    assert_eq!(t.to_nepali("a"), "अ");
    assert_eq!(t.to_nepali("āmā"), "\u{906}\u{92e}\u{93e}");
}

#[test]
fn vowel_after_consonant_is_a_sign() {
    let t = NepaliTransliterator::new();
    assert_eq!(t.to_nepali("ki"), "\u{915}\u{93f}");
    assert_eq!(t.to_nepali("rām"), "राम");
    assert_eq!(t.to_nepali("śrī"), "\u{936}\u{94d}\u{930}\u{940}");
}

#[test]
fn vowel_without_a_sign_stays_independent() {
    let t = NepaliTransliterator::new();
    assert_eq!(t.to_nepali("ka"), "\u{915}\u{905}");
    assert_eq!(t.to_nepali("namaste"), "\u{928}\u{905}\u{92e}\u{905}\u{938}\u{94d}\u{924}\u{947}");
}

#[test]
fn sign_without_consonant_is_written_anyway() {
    let t = NepaliTransliterator::new();
    assert_eq!(t.to_nepali("ṛ"), "\u{943}");
    assert_eq!(t.to_nepali("ai"), "\u{905}\u{93f}");
    assert_eq!(t.to_nepali("au"), "\u{905}\u{941}");
}

#[test]
fn nya_is_written_but_not_read_back() {
    let t = NepaliTransliterator::new();
    assert_eq!(t.to_roman("ञ"), "ña");
    assert_eq!(t.to_nepali("ña"), "ñ\u{905}");
}

#[test]
fn script_text_passes_through_to_nepali() {
    let t = NepaliTransliterator::new();
    assert_eq!(t.to_nepali("क"), "क");
    assert_eq!(t.to_nepali("\u{94d}"), "\u{94d}");
}

#[test]
fn no_vowel_killer_at_the_end_of_a_word() {
    let t = NepaliTransliterator::new();
    for word in ["k", "klm", "nepāl", "kh", "khm", "rām", "sṃskṛt", "k1", "hh"] {
        let script = t.to_nepali(word);
        assert!(!script.is_empty());
        assert_ne!(script.chars().last(), Some(VOWEL_KILLER), "{}", word);
        assert_ne!(script.chars().next(), Some(VOWEL_KILLER), "{}", word);
    }
}

#[test]
fn vowel_killers_stand_between_consonants() {
    let t = NepaliTransliterator::new();
    for word in ["klm", "khm", "kṣtrpāṭī", "kāṭhmāṇḍu", "namaste", "svāgatam", "x1kl2"] {
        let script: Vec<char> = t.to_nepali(word).chars().collect();
        for (j, c) in script.iter().enumerate() {
            if *c == VOWEL_KILLER {
                assert!(j > 0 && j + 1 < script.len(), "{}", word);
                assert!(t.is_consonant(&script[j - 1].to_string()), "{}", word);
                assert!(t.is_consonant(&script[j + 1].to_string()), "{}", word);
            }
        }
    }
}

#[test]
fn vowel_killer_between_consonant_letters() {
    let t = NepaliTransliterator::new();
    assert!(t.to_nepali("kl").contains("\u{915}\u{94d}\u{932}"));
    assert!(t.to_nepali("akla").contains("\u{915}\u{94d}\u{932}"));
    assert!(t.to_nepali("namaste").contains("\u{938}\u{94d}\u{924}"));
    assert!(t.to_nepali("khm").contains("\u{939}\u{94d}\u{92e}"));
    assert_eq!(t.to_nepali("kk"), "\u{915}\u{94d}\u{915}");
}

#[test]
fn round_trip_settles() {
    let t = NepaliTransliterator::new();
    for text in [
        "klm",
        "nepāl",
        "kh",
        "khm",
        "duḥkh",
        "sṃskṛt",
        "ai",
        "ka",
        "rām śrī",
        "kā\tli",
        "namaste",
        "lekheko ākāśdvār phāḍi lālīgurāṅs akṣy smṛti lābhāṃś śrī koṣ kṣtrpāṭī kāṭhmāṇḍu",
    ] {
        let script = t.to_nepali(text);
        assert_eq!(t.to_nepali(&t.to_roman(&script)), script, "{}", text);
    }
}

#[test]
fn round_trip_gives_the_roman_text_back() {
    let t = NepaliTransliterator::new();
    for text in ["klm", "nepāl", "kh", "khm", "duḥkh", "sṃskṛt", "rām śrī", "namaste"] {
        assert_eq!(t.to_roman(&t.to_nepali(text)), text);
    }
}

#[test]
fn conversions_are_repeatable() {
    let a = NepaliTransliterator::new();
    let b = NepaliTransliterator::new();
    assert_eq!(a.to_roman(SAMPLE), b.to_roman(SAMPLE));
    assert_eq!(a.to_roman(SAMPLE), a.to_roman(SAMPLE));
    assert_eq!(a.to_nepali(SAMPLE_ROMAN), b.to_nepali(SAMPLE_ROMAN));
}

#[test]
fn roman_text_is_shorter_only_by_vowel_killers() {
    let t = NepaliTransliterator::new();
    let texts =
        ["\u{915}\u{94d}\u{932}", "\u{94d}", "\u{94d}\u{916}", SAMPLE, "क\u{94d} \u{94d}\u{94d}1"];
    for text in texts {
        let killers = text.chars().filter(|c| *c == VOWEL_KILLER).count();
        assert!(t.to_roman(text).chars().count() + killers >= text.chars().count());
    }
    assert_eq!(t.to_roman("\u{94d}\u{916}"), "kh");
}
