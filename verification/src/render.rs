//! Rendering of a matching row: each selected cell is prefixed with its
//! index in parentheses and followed by the separator and a space; a
//! selected index beyond the row renders a placeholder instead of failing.
use vstd::prelude::*;

use crate::expr::{CellSelect, CellSelectView};
use crate::row::{maybe_trim, maybe_trim_spec, CSVRow};
use crate::text::{dec_spec, usize_to_decimal};

verus! {

/// The text of one selected item: `(i) cell` for a present column, and the
/// placeholder `<no col i>` for an index beyond the row.  Trimming applies
/// only to the rendered cell text.
pub open spec fn render_item_spec(row: Seq<Seq<char>>, i: usize, trim: bool) -> Seq<char> {
    if i < row.len() {
        seq!['('] + dec_spec(i as nat) + seq![')', ' '] + maybe_trim_spec(
            row[i as int],
            trim,
        )
    } else {
        seq!['<', 'n', 'o', ' ', 'c', 'o', 'l', ' '] + dec_spec(i as nat) + seq!['>']
    }
}

/// The rendered items in order, each followed by the separator and a space.
pub open spec fn render_items_spec(
    row: Seq<Seq<char>>,
    idxs: Seq<usize>,
    sep: Seq<char>,
    trim: bool,
) -> Seq<char>
    decreases idxs.len(),
{
    if idxs.len() == 0 {
        Seq::empty()
    } else {
        render_item_spec(row, idxs[0], trim) + sep + seq![' '] + render_items_spec(
            row,
            idxs.skip(1),
            sep,
            trim,
        )
    }
}

/// The indices a selection renders for a row of `n` cells: all of them in
/// order, or exactly the listed ones.
pub open spec fn sel_indices(sel: CellSelectView, n: nat) -> Seq<usize>
    recommends
        n <= usize::MAX,
{
    match sel {
        CellSelectView::All => Seq::new(n, |i: int| i as usize),
        CellSelectView::Cols(v) => v,
    }
}

/// The full rendered line for a matching row under a selection.
pub open spec fn render_spec(
    row: Seq<Seq<char>>,
    sel: CellSelectView,
    sep: Seq<char>,
    trim: bool,
) -> Seq<char> {
    render_items_spec(row, sel_indices(sel, row.len()), sep, trim)
}

proof fn lemma_render_items_snoc(
    row: Seq<Seq<char>>,
    idxs: Seq<usize>,
    i: usize,
    sep: Seq<char>,
    trim: bool,
)
    ensures
        render_items_spec(row, idxs.push(i), sep, trim) == render_items_spec(
            row,
            idxs,
            sep,
            trim,
        ) + render_item_spec(row, i, trim) + sep + seq![' '],
    decreases idxs.len(),
{
    let all = idxs.push(i);
    if idxs.len() == 0 {
        assert(all.skip(1) =~= Seq::<usize>::empty());
        assert(all[0] == i);
        assert(render_items_spec(row, Seq::<usize>::empty(), sep, trim) == Seq::<char>::empty());
        assert(render_items_spec(row, all, sep, trim) == render_item_spec(row, i, trim) + sep
            + seq![' '] + Seq::<char>::empty());
        assert(render_item_spec(row, i, trim) + sep + seq![' '] + Seq::<char>::empty()
            =~= Seq::<char>::empty() + render_item_spec(row, i, trim) + sep + seq![' ']);
    } else {
        assert(all.skip(1) =~= idxs.skip(1).push(i));
        lemma_render_items_snoc(row, idxs.skip(1), i, sep, trim);
        assert(all[0] == idxs[0]);
        assert(render_item_spec(row, idxs[0], trim) + sep + seq![' '] + (render_items_spec(
            row,
            idxs.skip(1),
            sep,
            trim,
        ) + render_item_spec(row, i, trim) + sep + seq![' ']) =~= (render_item_spec(
            row,
            idxs[0],
            trim,
        ) + sep + seq![' '] + render_items_spec(row, idxs.skip(1), sep, trim)) + render_item_spec(
            row,
            i,
            trim,
        ) + sep + seq![' ']);
    }
}

impl CSVRow {
    fn render_item(&self, i: usize, trim: bool) -> (r: String)
        ensures
            r@ == render_item_spec(self@, i, trim),
    {
        proof {
            reveal_strlit("(");
            reveal_strlit(") ");
            reveal_strlit("<no col ");
            reveal_strlit(">");
        }
        let num = usize_to_decimal(i);
        if i < self.cells.len() {
            let mut out = "(".to_owned();
            out.append(num.as_str());
            out.append(") ");
            out.append(maybe_trim(self.cells[i].as_str(), trim));
            proof {
                assert(("(")@ =~= seq!['(']);
                assert((") ")@ =~= seq![')', ' ']);
                assert(self.cells@[i as int]@ == self@[i as int]);
                assert(out@ =~= render_item_spec(self@, i, trim));
            }
            out
        } else {
            let mut out = "<no col ".to_owned();
            out.append(num.as_str());
            out.append(">");
            proof {
                assert(("<no col ")@ =~= seq!['<', 'n', 'o', ' ', 'c', 'o', 'l', ' ']);
                assert((">")@ =~= seq!['>']);
                assert(out@ =~= render_item_spec(self@, i, trim));
            }
            out
        }
    }

    fn render_one(&self, out: &mut String, i: usize, sep: &str, trim: bool)
        ensures
            final(out)@ == old(out)@ + render_item_spec(self@, i, trim) + sep@ + seq![' '],
    {
        proof {
            reveal_strlit(" ");
        }
        let item = self.render_item(i, trim);
        out.append(item.as_str());
        out.append(sep);
        out.append(" ");
        proof {
            assert((" ")@ =~= seq![' ']);
        }
    }

    /// The rendered line for this row under `sel`: every selected item in
    /// order, index-prefixed, each followed by the separator and a space.
    pub fn render(&self, sel: &CellSelect, sep: &str, trim: bool) -> (r: String)
        ensures
            r@ == render_spec(self@, sel@, sep@, trim),
    {
        let mut out = String::new();
        match sel {
            CellSelect::All => {
                let n = self.cells.len();
                let ghost idxs = sel_indices(sel@, self@.len());
                proof {
                    assert(idxs.len() == n);
                }
                let mut i: usize = 0;
                while i < n
                    invariant
                        n == self@.len(),
                        0 <= i <= n,
                        idxs == sel_indices(sel@, self@.len()),
                        idxs.len() == n,
                        forall|j: int| 0 <= j < n ==> #[trigger] idxs[j] == j as usize,
                        out@ == render_items_spec(self@, idxs.take(i as int), sep@, trim),
                    decreases n - i,
                {
                    proof {
                        lemma_render_items_snoc(self@, idxs.take(i as int), i, sep@, trim);
                        assert(idxs.take(i + 1) =~= idxs.take(i as int).push(i));
                    }
                    self.render_one(&mut out, i, sep, trim);
                    i = i + 1;
                }
                proof {
                    assert(idxs.take(n as int) =~= idxs);
                }
            },
            CellSelect::Cols(cols) => {
                let n = cols.len();
                let mut k: usize = 0;
                while k < n
                    invariant
                        n == cols@.len(),
                        0 <= k <= n,
                        out@ == render_items_spec(self@, cols@.take(k as int), sep@, trim),
                    decreases n - k,
                {
                    proof {
                        lemma_render_items_snoc(
                            self@,
                            cols@.take(k as int),
                            cols@[k as int],
                            sep@,
                            trim,
                        );
                        assert(cols@.take(k + 1) =~= cols@.take(k as int).push(cols@[k as int]));
                    }
                    self.render_one(&mut out, cols[k], sep, trim);
                    k = k + 1;
                }
                proof {
                    assert(cols@.take(n as int) =~= cols@);
                }
            },
        }
        out
    }
}

} // verus!
