//! The row model: one input record as the ordered sequence of cell strings
//! obtained by splitting a line on the configured separator.
use vstd::prelude::*;

use crate::text::split_spec;

verus! {

/// One parsed input record.  The view is the sequence of cell texts.
pub struct CSVRow {
    pub cells: Vec<String>,
}

impl View for CSVRow {
    type V = Seq<Seq<char>>;

    open spec fn view(&self) -> Seq<Seq<char>> {
        self.cells.deep_view()
    }
}

impl CSVRow {
    /// Splits `line` on each occurrence of the non-empty separator; a line
    /// without any occurrence yields a single cell, and splitting is a
    /// literal substring split with no quoting rules.
    pub fn parse_line(line: String, sep: &str) -> (r: CSVRow)
        requires
            sep@.len() >= 1,
        ensures
            r@ == split_spec(line@, sep@),
            r@.len() >= 1,
    {
        proof {
            crate::text::lemma_split_spec_len(line@, sep@);
        }
        CSVRow { cells: crate::text::split_str(line.as_str(), sep) }
    }

    /// The cell at `idx`, present exactly when the row has that many cells.
    pub fn get_cell(&self, idx: usize) -> (r: Option<&str>)
        ensures
            r is Some <==> idx < self@.len(),
            r matches Some(c) ==> c@ == self@[idx as int],
    {
        if idx >= self.cells.len() {
            None
        } else {
            Some(self.cells[idx].as_str())
        }
    }
}

/// What `str::trim` returns: the text with leading and trailing whitespace
/// removed.  The result is a function of the text alone.
pub uninterp spec fn trim_of(s: Seq<char>) -> Seq<char>;

/// Relies on str::trim: the result is the input with leading and trailing
/// whitespace removed, a function of the input text alone; an empty input
/// stays empty.
#[verifier::external_body]
fn trim_str(s: &str) -> (r: &str)
    ensures
        r@ == trim_of(s@),
        s@.len() == 0 ==> r@.len() == 0,
{
    s.trim()
}

/// The text as rendered: trimmed when trimming is on, untouched otherwise.
pub open spec fn maybe_trim_spec(s: Seq<char>, trim: bool) -> Seq<char> {
    if trim {
        trim_of(s)
    } else {
        s
    }
}

/// The cell text with leading and trailing whitespace removed when `trim`
/// is set, and unchanged otherwise.
pub fn maybe_trim(cell: &str, trim: bool) -> (r: &str)
    ensures
        r@ == maybe_trim_spec(cell@, trim),
{
    if trim {
        trim_str(cell)
    } else {
        cell
    }
}

} // verus!
