//! The conversion to script keeps white space and starts anew after it.

use crate::script::{script_spec, word_script};
use crate::symbol::SymbolView;
use crate::text::{all_white_space, is_white_space, lemma_run_len_bounds, run_len};
use vstd::prelude::*;

verus! {

/// A word ends where the white space after it begins.
pub proof fn lemma_word_ends_at_space(a: Seq<char>, rest: Seq<char>)
    requires
        rest.len() > 0,
        is_white_space(rest[0]),
    ensures
        run_len(a + rest, false) == run_len(a, false),
    decreases a.len(),
{
    if a.len() > 0 && !is_white_space(a[0]) {
        assert((a + rest).skip(1) =~= a.skip(1) + rest);
        lemma_word_ends_at_space(a.skip(1), rest);
    } else if a.len() == 0 {
        assert(a + rest =~= rest);
    }
}

/// Where white space begins, the conversion begins anew: the text before
/// it is converted as if nothing followed.
pub proof fn lemma_script_splits_at_space(table: Seq<SymbolView>, a: Seq<char>, rest: Seq<char>)
    requires
        rest.len() > 0,
        is_white_space(rest[0]),
    ensures
        script_spec(table, a + rest) == script_spec(table, a) + script_spec(table, rest),
    decreases a.len(),
{
    let s = a + rest;
    if a.len() == 0 {
        assert(s =~= rest);
        assert(script_spec(table, a) + script_spec(table, rest) =~= script_spec(table, rest));
    } else if is_white_space(a[0]) {
        assert(s.skip(1) =~= a.skip(1) + rest);
        lemma_script_splits_at_space(table, a.skip(1), rest);
        assert(seq![a[0]] + (script_spec(table, a.skip(1)) + script_spec(table, rest)) =~= (seq![
            a[0],
        ] + script_spec(table, a.skip(1))) + script_spec(table, rest));
    } else {
        let n = run_len(a, false) as int;
        lemma_word_ends_at_space(a, rest);
        lemma_run_len_bounds(a, false);
        assert(s.take(n) =~= a.take(n));
        assert(s.skip(n) =~= a.skip(n) + rest);
        lemma_script_splits_at_space(table, a.skip(n), rest);
        assert(word_script(table, a.take(n)) + (script_spec(table, a.skip(n)) + script_spec(
            table,
            rest,
        )) =~= (word_script(table, a.take(n)) + script_spec(table, a.skip(n))) + script_spec(
            table,
            rest,
        ));
    }
}

/// White space at the start of a text stands for itself, and what follows
/// it is converted on its own.
pub proof fn lemma_script_after_white_space(table: Seq<SymbolView>, ws: Seq<char>, b: Seq<char>)
    requires
        all_white_space(ws),
    ensures
        script_spec(table, ws + b) == ws + script_spec(table, b),
    decreases ws.len(),
{
    if ws.len() == 0 {
        assert(ws + b =~= b);
        assert(ws + script_spec(table, b) =~= script_spec(table, b));
    } else {
        assert(is_white_space(ws[0]));
        assert((ws + b)[0] == ws[0]);
        assert((ws + b).skip(1) =~= ws.skip(1) + b);
        assert forall|i: int| 0 <= i < ws.skip(1).len() implies is_white_space(
            #[trigger] ws.skip(1)[i],
        ) by {
            assert(ws.skip(1)[i] == ws[i + 1]);
        }
        lemma_script_after_white_space(table, ws.skip(1), b);
        assert(seq![ws[0]] + (ws.skip(1) + script_spec(table, b)) =~= ws + script_spec(table, b));
    }
}

/// The conversion to script keeps every run of white space as it is and
/// where it is: the text before the run and the text after it are
/// converted each on its own, with nothing carried over from one to the
/// other, and the run stands unchanged between them.
pub proof fn lemma_script_preserves_white_space(
    table: Seq<SymbolView>,
    a: Seq<char>,
    ws: Seq<char>,
    b: Seq<char>,
)
    requires
        ws.len() > 0,
        all_white_space(ws),
    ensures
        script_spec(table, a + ws + b) == script_spec(table, a) + ws + script_spec(table, b),
{
    assert(a + ws + b =~= a + (ws + b));
    assert((ws + b)[0] == ws[0]);
    lemma_script_splits_at_space(table, a, ws + b);
    lemma_script_after_white_space(table, ws, b);
    assert(script_spec(table, a) + (ws + script_spec(table, b)) =~= script_spec(table, a) + ws
        + script_spec(table, b));
}

} // verus!
