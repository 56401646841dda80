//! The general laws of matching and rendering, stated over the same spec
//! functions the executable contracts use.
use vstd::prelude::*;

use crate::expr::{
    any_pred_holds, col_pred_holds, row_matches, universal_view, CellSelectView, MatchExpView,
};
use crate::render::{render_item_spec, render_spec};
use crate::text::{dec_spec, split_spec};
use crate::{outputs_spec, process_line_spec, ConfigView};

verus! {

/// The universal matcher (no constraints at all) matches every row.
pub proof fn lemma_universal_matches(row: Seq<Seq<char>>)
    ensures
        row_matches(universal_view(), row),
{
}

/// A configuration with no expressions emits exactly one output line per
/// input line: the whole row, every cell in original order under the
/// all-columns selection.
pub proof fn lemma_no_expressions_one_line(line: Seq<char>, cfg: ConfigView)
    requires
        cfg.exps.len() == 0,
    ensures
        process_line_spec(line, cfg).len() == 1,
        process_line_spec(line, cfg)[0] == render_spec(
            split_spec(line, cfg.sep),
            CellSelectView::All,
            cfg.sep,
            cfg.trim,
        ),
{
}

/// An expression with exactly one per-column constraint and no any-column
/// constraint matches a row exactly when the row has that column and its
/// cell matches the pattern; a row lacking the column never matches.
pub proof fn lemma_single_col_pred(e: MatchExpView, row: Seq<Seq<char>>)
    requires
        e.any.len() == 0,
        e.cols.len() == 1,
    ensures
        row_matches(e, row) <==> (e.cols[0].col < row.len() && crate::rx::rx_match(
            e.cols[0].pat,
            row[e.cols[0].col as int],
        )),
{
    assert(col_pred_holds(e.cols[0], row) ==> (forall|i: int|
        0 <= i < e.cols.len() ==> col_pred_holds(#[trigger] e.cols[i], row)));
}

/// An expression with exactly one any-column constraint and no per-column
/// constraint matches a row exactly when some cell, at any index, matches
/// the pattern.
pub proof fn lemma_single_any_pred(e: MatchExpView, row: Seq<Seq<char>>)
    requires
        e.any.len() == 1,
        e.cols.len() == 0,
    ensures
        row_matches(e, row) <==> any_pred_holds(e.any[0], row),
{
    assert(any_pred_holds(e.any[0], row) ==> (forall|i: int|
        0 <= i < e.any.len() ==> any_pred_holds(#[trigger] e.any[i], row)));
}

/// Two per-column constraints act as a conjunction: the row must satisfy
/// both.
pub proof fn lemma_two_col_preds_conjoin(e: MatchExpView, row: Seq<Seq<char>>)
    requires
        e.any.len() == 0,
        e.cols.len() == 2,
    ensures
        row_matches(e, row) <==> (col_pred_holds(e.cols[0], row) && col_pred_holds(
            e.cols[1],
            row,
        )),
{
    assert((col_pred_holds(e.cols[0], row) && col_pred_holds(e.cols[1], row)) ==> (forall|i: int|
        0 <= i < e.cols.len() ==> col_pred_holds(#[trigger] e.cols[i], row)));
}

/// One per-column and one any-column constraint together also act as a
/// conjunction: both must hold.
pub proof fn lemma_mixed_preds_conjoin(e: MatchExpView, row: Seq<Seq<char>>)
    requires
        e.any.len() == 1,
        e.cols.len() == 1,
    ensures
        row_matches(e, row) <==> (col_pred_holds(e.cols[0], row) && any_pred_holds(
            e.any[0],
            row,
        )),
{
    assert(col_pred_holds(e.cols[0], row) ==> (forall|i: int|
        0 <= i < e.cols.len() ==> col_pred_holds(#[trigger] e.cols[i], row)));
    assert(any_pred_holds(e.any[0], row) ==> (forall|i: int|
        0 <= i < e.any.len() ==> any_pred_holds(#[trigger] e.any[i], row)));
}

/// The match decision is equivalently two independent conjuncts: every
/// per-column constraint holds and every any-column constraint holds, with
/// no special case for the universal matcher.
pub proof fn lemma_matches_plain_conjunction(e: MatchExpView, row: Seq<Seq<char>>)
    ensures
        row_matches(e, row) <==> ((forall|i: int|
            0 <= i < e.cols.len() ==> col_pred_holds(#[trigger] e.cols[i], row)) && (forall|i: int|
            0 <= i < e.any.len() ==> any_pred_holds(#[trigger] e.any[i], row))),
{
}

/// Independently supplied expressions act as a logical OR with one output
/// line per matching expression: a row matching both of two expressions is
/// printed twice, one matching either once, and one matching neither not at
/// all, always in expression order.
pub proof fn lemma_expressions_disjoin(
    row: Seq<Seq<char>>,
    e1: MatchExpView,
    e2: MatchExpView,
    sep: Seq<char>,
    trim: bool,
)
    ensures
        outputs_spec(row, seq![e1, e2], sep, trim) == if row_matches(e1, row) && row_matches(
            e2,
            row,
        ) {
            seq![render_spec(row, e1.sel, sep, trim), render_spec(row, e2.sel, sep, trim)]
        } else if row_matches(e1, row) {
            seq![render_spec(row, e1.sel, sep, trim)]
        } else if row_matches(e2, row) {
            seq![render_spec(row, e2.sel, sep, trim)]
        } else {
            Seq::<Seq<char>>::empty()
        },
{
    let both = seq![e1, e2];
    assert(both.skip(1) =~= seq![e2]);
    assert(seq![e2].skip(1) =~= Seq::<MatchExpView>::empty());
    assert(outputs_spec(row, Seq::empty(), sep, trim) == Seq::<Seq<char>>::empty());
    assert(both[0] == e1);
    assert(seq![e2][0] == e2);
    if row_matches(e2, row) {
        assert(outputs_spec(row, seq![e2], sep, trim) =~= seq![
            render_spec(row, e2.sel, sep, trim),
        ]);
    } else {
        assert(outputs_spec(row, seq![e2], sep, trim) =~= Seq::<Seq<char>>::empty());
    }
    if row_matches(e1, row) && row_matches(e2, row) {
        assert(outputs_spec(row, both, sep, trim) =~= seq![
            render_spec(row, e1.sel, sep, trim),
            render_spec(row, e2.sel, sep, trim),
        ]);
    } else if row_matches(e1, row) {
        assert(outputs_spec(row, both, sep, trim) =~= seq![render_spec(row, e1.sel, sep, trim)]);
    } else if row_matches(e2, row) {
        assert(outputs_spec(row, both, sep, trim) =~= seq![render_spec(row, e2.sel, sep, trim)]);
    } else {
        assert(outputs_spec(row, both, sep, trim) =~= Seq::<Seq<char>>::empty());
    }
}

/// A selected index beyond the row renders the placeholder text instead of
/// failing; the rest of the line is unaffected.
pub proof fn lemma_out_of_range_placeholder(row: Seq<Seq<char>>, i: usize, trim: bool)
    requires
        i >= row.len(),
    ensures
        render_item_spec(row, i, trim) == seq!['<', 'n', 'o', ' ', 'c', 'o', 'l', ' '] + dec_spec(
            i as nat,
        ) + seq!['>'],
{
}

proof fn lemma_outputs_len_trim_independent(
    row: Seq<Seq<char>>,
    exps: Seq<MatchExpView>,
    sep: Seq<char>,
    t1: bool,
    t2: bool,
)
    ensures
        outputs_spec(row, exps, sep, t1).len() == outputs_spec(row, exps, sep, t2).len(),
    decreases exps.len(),
{
    if exps.len() > 0 {
        lemma_outputs_len_trim_independent(row, exps.skip(1), sep, t1, t2);
    }
}

/// The trim flag affects only the rendered text, never the match decision:
/// two configurations that differ only in trimming emit the same number of
/// output lines for every input line.
pub proof fn lemma_trim_never_affects_matching(line: Seq<char>, cfg1: ConfigView, cfg2: ConfigView)
    requires
        cfg1.sep == cfg2.sep,
        cfg1.exps == cfg2.exps,
    ensures
        process_line_spec(line, cfg1).len() == process_line_spec(line, cfg2).len(),
{
    let row = split_spec(line, cfg1.sep);
    if cfg1.exps.len() > 0 {
        lemma_outputs_len_trim_independent(row, cfg1.exps, cfg1.sep, cfg1.trim, cfg2.trim);
    }
}

} // verus!
