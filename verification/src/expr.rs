//! Match expressions: the structured predicate a textual match
//! specification compiles to, and its evaluation against a row.
use vstd::prelude::*;

use crate::row::CSVRow;
use crate::rx::{regex_is_match, regex_pattern, rx_match};

verus! {

/// Which columns of a matching row are rendered.
#[derive(Debug)]
pub enum CellSelect {
    /// Every cell, in row order.
    All,
    /// The cells at the listed indices, in the listed order; duplicates and
    /// out-of-range indices are legal.
    Cols(Vec<usize>),
}

/// The ghost shape of a `CellSelect`.
pub enum CellSelectView {
    All,
    Cols(Seq<usize>),
}

impl View for CellSelect {
    type V = CellSelectView;

    open spec fn view(&self) -> CellSelectView {
        match self {
            CellSelect::All => CellSelectView::All,
            CellSelect::Cols(v) => CellSelectView::Cols(v@),
        }
    }
}

/// A per-column constraint: the row must have the column, and the cell text
/// there must match the regex.
#[derive(Debug)]
pub struct ColPred {
    pub col: usize,
    pub rx: regex::Regex,
}

/// The ghost shape of a `ColPred`: the column index and the pattern text.
pub struct ColPredView {
    pub col: usize,
    pub pat: Seq<char>,
}

impl View for ColPred {
    type V = ColPredView;

    open spec fn view(&self) -> ColPredView {
        ColPredView { col: self.col, pat: regex_pattern(self.rx) }
    }
}

/// One compiled match-and-select expression: any-column regexes, per-column
/// regexes, and the output column selection.
#[derive(Debug)]
pub struct MatchExp {
    /// Any-column constraints: each must match at least one cell.
    pub rxs: Vec<regex::Regex>,
    /// Per-column constraints: each must hold of its own column.
    pub cell_rxs: Vec<ColPred>,
    /// The columns to render for a matching row.
    pub sel: CellSelect,
}

/// The ghost shape of a `MatchExp`.
pub struct MatchExpView {
    pub any: Seq<Seq<char>>,
    pub cols: Seq<ColPredView>,
    pub sel: CellSelectView,
}

impl View for MatchExp {
    type V = MatchExpView;

    open spec fn view(&self) -> MatchExpView {
        MatchExpView {
            any: self.rxs@.map_values(|r: regex::Regex| regex_pattern(r)),
            cols: self.cell_rxs@.map_values(|p: ColPred| p@),
            sel: self.sel@,
        }
    }
}

/// The universal matcher that selects every column: what an absent or empty
/// match specification compiles to.
pub open spec fn universal_view() -> MatchExpView {
    MatchExpView { any: Seq::empty(), cols: Seq::empty(), sel: CellSelectView::All }
}

impl MatchExp {
    /// The expression with no constraints at all, selecting every column:
    /// it matches every row.
    pub fn empty() -> (r: MatchExp)
        ensures
            r@ == universal_view(),
    {
        let r = MatchExp { rxs: Vec::new(), cell_rxs: Vec::new(), sel: CellSelect::All };
        proof {
            assert(r@.any =~= universal_view().any);
            assert(r@.cols =~= universal_view().cols);
        }
        r
    }
}

/// The per-column constraint holds: the row has the column and the cell
/// there matches the pattern.
pub open spec fn col_pred_holds(p: ColPredView, row: Seq<Seq<char>>) -> bool {
    p.col < row.len() && rx_match(p.pat, row[p.col as int])
}

/// The any-column constraint holds: some cell of the row matches.
pub open spec fn any_pred_holds(pat: Seq<char>, row: Seq<Seq<char>>) -> bool {
    exists|j: int| 0 <= j < row.len() && rx_match(pat, #[trigger] row[j])
}

/// The match decision for one expression against one row: the universal
/// matcher matches outright; otherwise every per-column constraint and every
/// any-column constraint must hold (each set conjunctive, and vacuously true
/// when empty).
pub open spec fn row_matches(e: MatchExpView, row: Seq<Seq<char>>) -> bool {
    let base = e.cols.len() == 0 && e.any.len() == 0;
    let indexed_ok = base || (forall|i: int|
        0 <= i < e.cols.len() ==> col_pred_holds(#[trigger] e.cols[i], row));
    let any_ok = forall|i: int| 0 <= i < e.any.len() ==> any_pred_holds(#[trigger] e.any[i], row);
    indexed_ok && any_ok
}

fn any_cell_matches(rx: &regex::Regex, row: &CSVRow) -> (b: bool)
    ensures
        b == any_pred_holds(regex_pattern(*rx), row@),
{
    let n = row.cells.len();
    let mut i: usize = 0;
    while i < n
        invariant
            n == row@.len(),
            0 <= i <= n,
            forall|j: int| 0 <= j < i ==> !rx_match(regex_pattern(*rx), #[trigger] row@[j]),
        decreases n - i,
    {
        if regex_is_match(rx, row.cells[i].as_str()) {
            proof {
                assert(row@[i as int] == row.cells@[i as int]@);
                assert(rx_match(regex_pattern(*rx), row@[i as int]));
            }
            return true;
        }
        i = i + 1;
    }
    false
}

impl MatchExp {
    /// The match decision of `row_matches`, computed.
    pub fn matches(&self, row: &CSVRow) -> (b: bool)
        ensures
            b == row_matches(self@, row@),
    {
        let base = self.rxs.len() == 0 && self.cell_rxs.len() == 0;
        let mut indexed_ok = true;
        let nc = self.cell_rxs.len();
        let mut i: usize = 0;
        while i < nc
            invariant
                nc == self.cell_rxs.len(),
                0 <= i <= nc,
                indexed_ok == (forall|j: int|
                    0 <= j < i ==> col_pred_holds(#[trigger] self@.cols[j], row@)),
            decreases nc - i,
        {
            let p = &self.cell_rxs[i];
            let holds = match row.get_cell(p.col) {
                Some(cell) => regex_is_match(&p.rx, cell),
                None => false,
            };
            proof {
                assert(self@.cols[i as int] == self.cell_rxs@[i as int]@);
                assert(holds == col_pred_holds(self@.cols[i as int], row@));
            }
            indexed_ok = indexed_ok && holds;
            i = i + 1;
        }
        let mut any_ok = true;
        let na = self.rxs.len();
        let mut k: usize = 0;
        while k < na
            invariant
                na == self.rxs.len(),
                0 <= k <= na,
                any_ok == (forall|j: int|
                    0 <= j < k ==> any_pred_holds(#[trigger] self@.any[j], row@)),
            decreases na - k,
        {
            let holds = any_cell_matches(&self.rxs[k], row);
            proof {
                assert(self@.any[k as int] == regex_pattern(self.rxs@[k as int]));
            }
            any_ok = any_ok && holds;
            k = k + 1;
        }
        proof {
            assert(self@.cols.len() == nc);
            assert(self@.any.len() == na);
        }
        (base || indexed_ok) && any_ok
    }
}

} // verus!
