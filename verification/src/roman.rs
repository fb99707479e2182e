//! Script to Roman: a greedy longest-match scan over the text.

use crate::symbol::{
    find_script, lemma_script_index, script_index, table_view, Symbol, SymbolView,
};
use crate::text::{append_chars, is_white_space};
use vstd::prelude::*;

verus! {

/// What stands in the Roman text for a script character that the table
/// does not know.
pub const PLACEHOLDER: char = '?';

/// How many characters a candidate made of the first `len` characters of
/// `s` still grows by: one at a time, for as long as the longer candidate is
/// itself a script form of the table and `s` has not ended.
pub open spec fn extension(table: Seq<SymbolView>, s: Seq<char>, len: int) -> nat
    decreases s.len() - len,
{
    if len < s.len() && script_index(table, s.take(len + 1)) is Some {
        1 + extension(table, s, len + 1)
    } else {
        0
    }
}

/// The length of the candidate that the scan commits to at the start of
/// `s`: it begins with the first character alone.
pub open spec fn token_len(table: Seq<SymbolView>, s: Seq<char>) -> int {
    1 + extension(table, s, 1) as int
}

/// The Roman text for one committed candidate: the Roman form of the first
/// symbol with that script form, the placeholder where there is none.
pub open spec fn token_roman(table: Seq<SymbolView>, form: Seq<char>) -> Seq<char> {
    match script_index(table, form) {
        Some(i) => table[i].roman,
        None => seq![PLACEHOLDER],
    }
}

/// The Roman text for the script text `s`: a white-space character stands
/// for itself, anything else is read by greedy longest match.
pub open spec fn romanize_spec(table: Seq<SymbolView>, s: Seq<char>) -> Seq<char>
    decreases s.len(),
    via romanize_spec_decreases
{
    if s.len() == 0 {
        Seq::empty()
    } else if is_white_space(s[0]) {
        seq![s[0]] + romanize_spec(table, s.skip(1))
    } else {
        let n = token_len(table, s);
        token_roman(table, s.take(n)) + romanize_spec(table, s.skip(n))
    }
}

#[via_fn]
proof fn romanize_spec_decreases(table: Seq<SymbolView>, s: Seq<char>) {
    if s.len() > 0 {
        lemma_token_len_bounds(table, s);
    }
}

/// A candidate never grows past the end of the text.
pub proof fn lemma_extension_bounds(table: Seq<SymbolView>, s: Seq<char>, len: int)
    requires
        0 <= len <= s.len(),
    ensures
        len + extension(table, s, len) <= s.len(),
    decreases s.len() - len,
{
    if len < s.len() && script_index(table, s.take(len + 1)) is Some {
        lemma_extension_bounds(table, s, len + 1);
    }
}

/// The committed candidate holds at least one character and lies within the text.
pub proof fn lemma_token_len_bounds(table: Seq<SymbolView>, s: Seq<char>)
    requires
        s.len() > 0,
    ensures
        1 <= token_len(table, s) <= s.len(),
{
    lemma_extension_bounds(table, s, 1);
}

/// In a table whose script forms hold at most two characters, greedy
/// longest match reads a form of two characters whole, whatever follows it:
/// a registered form that is its first character alone is never taken in
/// its place.
pub proof fn lemma_longer_form_wins(table: Seq<SymbolView>, j: int, rest: Seq<char>)
    requires
        0 <= j < table.len(),
        table[j].script.len() == 2,
        forall|i: int| 0 <= i < table.len() ==> (#[trigger] table[i]).script.len() <= 2,
    ensures
        token_len(table, table[j].script + rest) == 2,
        script_index(table, (table[j].script + rest).take(2)) is Some,
{
    let form = table[j].script;
    let s = form + rest;
    assert(s.take(2) =~= form);
    lemma_script_index(table, s.take(2));
    assert(script_index(table, s.take(2)) is Some);
    if 2 < s.len() {
        lemma_script_index(table, s.take(3));
        match script_index(table, s.take(3)) {
            Some(i) => {
                assert(table[i].script.len() <= 2);
                assert(s.take(3).len() == 3);
            },
            None => {},
        }
    }
    assert(extension(table, s, 2) == 0);
    assert(extension(table, s, 1) == 1);
}

/// Where the candidate that starts at `pos` ends.
pub(crate) fn token_end(table: &Vec<Symbol>, text: &Vec<char>, pos: usize) -> (end: usize)
    requires
        pos < text.len(),
    ensures
        end == pos + token_len(table_view(table@), text@.skip(pos as int)),
        pos < end <= text.len(),
{
    let ghost tv = table_view(table@);
    let ghost rest = text@.skip(pos as int);
    let mut end: usize = pos + 1;
    while end < text.len() && find_script(table, text, pos, end + 1).is_some()
        invariant
            pos < end <= text.len(),
            tv == table_view(table@),
            rest == text@.skip(pos as int),
            token_len(tv, rest) == (end - pos) + extension(tv, rest, end - pos),
        decreases text.len() - end,
    {
        assert(rest.take(end + 1 - pos) =~= text@.subrange(pos as int, end + 1));
        end = end + 1;
    }
    proof {
        if end < text.len() {
            assert(rest.take(end + 1 - pos) =~= text@.subrange(pos as int, end + 1));
        }
    }
    end
}

/// Converts script text to Roman text.
pub fn romanize(table: &Vec<Symbol>, text: &Vec<char>) -> (out: Vec<char>)
    ensures
        out@ == romanize_spec(table_view(table@), text@),
{
    let ghost tv = table_view(table@);
    let mut out: Vec<char> = Vec::new();
    let mut pos: usize = 0;
    assert(text@.skip(0) =~= text@);
    while pos < text.len()
        invariant
            pos <= text.len(),
            tv == table_view(table@),
            out@ + romanize_spec(tv, text@.skip(pos as int)) == romanize_spec(tv, text@),
        decreases text.len() - pos,
    {
        let ghost rest = text@.skip(pos as int);
        let ghost before = out@;
        let c = text[pos];
        if c.is_whitespace() {
            out.push(c);
            pos = pos + 1;
            assert(rest.skip(1) =~= text@.skip(pos as int));
            assert(out@ + romanize_spec(tv, rest.skip(1)) =~= before + romanize_spec(tv, rest));
        } else {
            let end = token_end(table, text, pos);
            match find_script(table, text, pos, end) {
                Some(i) => {
                    append_chars(&mut out, &table[i].roman);
                },
                None => {
                    out.push(PLACEHOLDER);
                },
            }
            assert(rest.take(end - pos) =~= text@.subrange(pos as int, end as int));
            assert(rest.skip(end - pos) =~= text@.skip(end as int));
            assert(out@ =~= before + token_roman(tv, rest.take(end - pos)));
            assert(out@ + romanize_spec(tv, rest.skip(end - pos)) =~= before + romanize_spec(
                tv,
                rest,
            ));
            pos = end;
        }
    }
    assert(out@ =~= out@ + romanize_spec(tv, text@.skip(pos as int)));
    out
}

} // verus!
