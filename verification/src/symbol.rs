//! Symbols and symbol tables: one script unit with its Roman form and class,
//! and the exact-match searches that both conversion directions rest on.

use vstd::prelude::*;

verus! {

/// What part a symbol plays in a syllable.
#[derive(Clone, Copy, Debug, PartialEq, Eq, Structural)]
pub enum SymbolClass {
    /// A vowel that stands alone at the start of a syllable.
    IndependentVowel,
    /// A vowel sign that replaces the inherent vowel of the consonant before it.
    DependentVowel,
    /// A consonant, which carries an inherent vowel until a sign or the
    /// vowel-killer follows it.
    Consonant,
    /// A mark that attaches to the symbol before it: the vowel-killer,
    /// nasalization, the visarga.
    Modifier,
}

/// One symbol as contracts see it.
pub struct SymbolView {
    /// The script form: one or more script characters.
    pub script: Seq<char>,
    /// The Roman form: none, one or more Roman letters.
    pub roman: Seq<char>,
    /// The part the symbol plays in a syllable.
    pub class: SymbolClass,
}

/// One indivisible script unit: its script form, its Roman form, its class.
#[derive(Debug)]
pub struct Symbol {
    /// The script form: one or more script characters.
    pub script: Vec<char>,
    /// The Roman form: none, one or more Roman letters.
    pub roman: Vec<char>,
    /// The part the symbol plays in a syllable.
    pub class: SymbolClass,
}

impl View for Symbol {
    type V = SymbolView;

    open spec fn view(&self) -> SymbolView {
        SymbolView { script: self.script@, roman: self.roman@, class: self.class }
    }
}

/// A table as contracts see it: the views of its symbols, in registration order.
pub open spec fn table_view(table: Seq<Symbol>) -> Seq<SymbolView> {
    Seq::new(table.len(), |i: int| table[i]@)
}

/// Whether `sym` has the Roman form `form` and, where `class` names one, that class.
pub open spec fn reads_as(sym: SymbolView, form: Seq<char>, class: Option<SymbolClass>) -> bool {
    sym.roman == form && (class is None || class == Some(sym.class))
}

/// The first index from `from` on whose symbol has the script form `form`.
pub open spec fn script_index_from(table: Seq<SymbolView>, form: Seq<char>, from: int) -> Option<
    int,
>
    decreases table.len() - from,
{
    if from >= table.len() {
        None
    } else if table[from].script == form {
        Some(from)
    } else {
        script_index_from(table, form, from + 1)
    }
}

/// The first registered symbol whose script form is exactly `form`.
pub open spec fn script_index(table: Seq<SymbolView>, form: Seq<char>) -> Option<int> {
    script_index_from(table, form, 0)
}

/// Whether some symbol of the table has the script form `form`.
pub open spec fn has_script(table: Seq<SymbolView>, form: Seq<char>) -> bool {
    exists|i: int| 0 <= i < table.len() && (#[trigger] table[i]).script == form
}

/// The first index from `from` on whose symbol reads as `form` in `class`.
pub open spec fn roman_index_from(
    table: Seq<SymbolView>,
    form: Seq<char>,
    class: Option<SymbolClass>,
    from: int,
) -> Option<int>
    decreases table.len() - from,
{
    if from >= table.len() {
        None
    } else if reads_as(table[from], form, class) {
        Some(from)
    } else {
        roman_index_from(table, form, class, from + 1)
    }
}

/// The first registered symbol whose Roman form is exactly `form`, among
/// those of `class` where one is named, among all of them otherwise.
pub open spec fn roman_index(
    table: Seq<SymbolView>,
    form: Seq<char>,
    class: Option<SymbolClass>,
) -> Option<int> {
    roman_index_from(table, form, class, 0)
}

/// Whether `form` is the Roman form of a symbol that is no consonant: a
/// vowel, a vowel sign or a modifier.
pub open spec fn is_vowel_form(table: Seq<SymbolView>, form: Seq<char>) -> bool {
    exists|i: int|
        0 <= i < table.len() && (#[trigger] table[i]).roman == form && table[i].class
            != SymbolClass::Consonant
}

/// What `script_index_from` finds is the first match from `from` on; where
/// it finds nothing, nothing from `from` on matches.
pub proof fn lemma_script_index_from(table: Seq<SymbolView>, form: Seq<char>, from: int)
    requires
        0 <= from,
    ensures
        match script_index_from(table, form, from) {
            Some(i) => {
                &&& from <= i < table.len()
                &&& table[i].script == form
                &&& forall|j: int| from <= j < i ==> (#[trigger] table[j]).script != form
            },
            None => forall|j: int| from <= j < table.len() ==> (#[trigger] table[j]).script != form,
        },
    decreases table.len() - from,
{
    if from < table.len() && table[from].script != form {
        lemma_script_index_from(table, form, from + 1);
    }
}

/// `script_index` finds a symbol exactly when one has that script form, and
/// then the first such.
pub proof fn lemma_script_index(table: Seq<SymbolView>, form: Seq<char>)
    ensures
        script_index(table, form) is Some <==> has_script(table, form),
        match script_index(table, form) {
            Some(i) => {
                &&& 0 <= i < table.len()
                &&& table[i].script == form
                &&& forall|j: int| 0 <= j < i ==> (#[trigger] table[j]).script != form
            },
            None => forall|j: int| 0 <= j < table.len() ==> (#[trigger] table[j]).script != form,
        },
{
    lemma_script_index_from(table, form, 0);
}

/// What `roman_index_from` finds is the first match from `from` on; where
/// it finds nothing, nothing from `from` on matches.
pub proof fn lemma_roman_index_from(
    table: Seq<SymbolView>,
    form: Seq<char>,
    class: Option<SymbolClass>,
    from: int,
)
    requires
        0 <= from,
    ensures
        match roman_index_from(table, form, class, from) {
            Some(i) => {
                &&& from <= i < table.len()
                &&& reads_as(table[i], form, class)
                &&& forall|j: int| from <= j < i ==> !reads_as(#[trigger] table[j], form, class)
            },
            None => forall|j: int|
                from <= j < table.len() ==> !reads_as(#[trigger] table[j], form, class),
        },
    decreases table.len() - from,
{
    if from < table.len() && !reads_as(table[from], form, class) {
        lemma_roman_index_from(table, form, class, from + 1);
    }
}

/// `roman_index` finds the first symbol that reads as `form` in `class`, and
/// nothing exactly when no symbol does.
pub proof fn lemma_roman_index(table: Seq<SymbolView>, form: Seq<char>, class: Option<SymbolClass>)
    ensures
        match roman_index(table, form, class) {
            Some(i) => {
                &&& 0 <= i < table.len()
                &&& reads_as(table[i], form, class)
                &&& forall|j: int| 0 <= j < i ==> !reads_as(#[trigger] table[j], form, class)
            },
            None => forall|j: int|
                0 <= j < table.len() ==> !reads_as(#[trigger] table[j], form, class),
        },
{
    lemma_roman_index_from(table, form, class, 0);
}

/// Whether `form` holds exactly the characters of `text` from `start` up to `end`.
pub(crate) fn form_matches(
    form: &Vec<char>,
    text: &Vec<char>,
    start: usize,
    end: usize,
) -> (r: bool)
    requires
        start <= end <= text.len(),
    ensures
        r == (form@ == text@.subrange(start as int, end as int)),
{
    if form.len() != end - start {
        return false;
    }
    let mut k: usize = 0;
    while k < form.len()
        invariant
            start <= end <= text.len(),
            form.len() == end - start,
            k <= form.len(),
            forall|j: int| 0 <= j < k ==> form@[j] == text@[start + j],
        decreases form.len() - k,
    {
        if form[k] != text[start + k] {
            assert(text@.subrange(start as int, end as int)[k as int] == text@[start + k]);
            return false;
        }
        k = k + 1;
    }
    assert(form@ =~= text@.subrange(start as int, end as int));
    true
}

/// Searches `table` for the first symbol whose script form is `text[start..end]`.
pub(crate) fn find_script(
    table: &Vec<Symbol>,
    text: &Vec<char>,
    start: usize,
    end: usize,
) -> (r: Option<usize>)
    requires
        start <= end <= text.len(),
    ensures
        match r {
            Some(i) => script_index(table_view(table@), text@.subrange(start as int, end as int))
                == Some(i as int) && i < table.len(),
            None => script_index(table_view(table@), text@.subrange(start as int, end as int))
                is None,
        },
{
    let ghost tv = table_view(table@);
    let ghost form = text@.subrange(start as int, end as int);
    let mut i: usize = 0;
    while i < table.len()
        invariant
            start <= end <= text.len(),
            i <= table.len(),
            tv == table_view(table@),
            form == text@.subrange(start as int, end as int),
            script_index(tv, form) == script_index_from(tv, form, i as int),
        decreases table.len() - i,
    {
        if form_matches(&table[i].script, text, start, end) {
            return Some(i);
        }
        i = i + 1;
    }
    None
}

/// Searches `table` for the first symbol whose Roman form is
/// `text[start..end]`, among those of `class` where one is named.
pub(crate) fn find_roman(
    table: &Vec<Symbol>,
    text: &Vec<char>,
    start: usize,
    end: usize,
    class: Option<SymbolClass>,
) -> (r: Option<usize>)
    requires
        start <= end <= text.len(),
    ensures
        match r {
            Some(i) => roman_index(
                table_view(table@),
                text@.subrange(start as int, end as int),
                class,
            ) == Some(i as int) && i < table.len(),
            None => roman_index(table_view(table@), text@.subrange(start as int, end as int), class)
                is None,
        },
{
    let ghost tv = table_view(table@);
    let ghost form = text@.subrange(start as int, end as int);
    let mut i: usize = 0;
    while i < table.len()
        invariant
            start <= end <= text.len(),
            i <= table.len(),
            tv == table_view(table@),
            form == text@.subrange(start as int, end as int),
            roman_index(tv, form, class) == roman_index_from(tv, form, class, i as int),
        decreases table.len() - i,
    {
        let in_class = match class {
            Some(c) => table[i].class == c,
            None => true,
        };
        if in_class && form_matches(&table[i].roman, text, start, end) {
            return Some(i);
        }
        i = i + 1;
    }
    None
}

/// Whether `text[start..end]` is the Roman form of a symbol that is no consonant.
pub(crate) fn vowel_form_at(
    table: &Vec<Symbol>,
    text: &Vec<char>,
    start: usize,
    end: usize,
) -> (r: bool)
    requires
        start <= end <= text.len(),
    ensures
        r == is_vowel_form(table_view(table@), text@.subrange(start as int, end as int)),
{
    let ghost tv = table_view(table@);
    let ghost form = text@.subrange(start as int, end as int);
    let mut i: usize = 0;
    while i < table.len()
        invariant
            start <= end <= text.len(),
            i <= table.len(),
            tv == table_view(table@),
            form == text@.subrange(start as int, end as int),
            forall|j: int|
                0 <= j < i ==> !((#[trigger] tv[j]).roman == form && tv[j].class
                    != SymbolClass::Consonant),
        decreases table.len() - i,
    {
        if table[i].class != SymbolClass::Consonant && form_matches(
            &table[i].roman,
            text,
            start,
            end,
        ) {
            assert(tv[i as int].roman == form && tv[i as int].class != SymbolClass::Consonant);
            return true;
        }
        i = i + 1;
    }
    false
}

} // verus!
