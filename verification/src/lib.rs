//! A grep-like library for separated-values text: rows are lines split on a
//! configurable separator, match expressions select rows by per-column and
//! any-column regexes, and matching rows are rendered with index-prefixed
//! cells.
pub mod compile;
pub mod expr;
pub mod laws;
pub mod render;
pub mod row;
pub mod rx;
pub mod text;

use vstd::prelude::*;

use crate::compile::{compile_spec, CompileError, MatchCharCfg};
use crate::expr::{row_matches, universal_view, CellSelect, CellSelectView, MatchExp, MatchExpView};
use crate::render::render_spec;
use crate::row::CSVRow;
use crate::text::split_spec;

verus! {

/// The run-wide settings: the record separator, the trim flag, and the
/// compiled match expressions in the order they were supplied.
pub struct Config {
    pub separator: String,
    pub trim: bool,
    pub match_exps: Vec<MatchExp>,
}

/// The ghost shape of a `Config`.
pub struct ConfigView {
    pub sep: Seq<char>,
    pub trim: bool,
    pub exps: Seq<MatchExpView>,
}

impl View for Config {
    type V = ConfigView;

    open spec fn view(&self) -> ConfigView {
        ConfigView {
            sep: self.separator@,
            trim: self.trim,
            exps: self.match_exps@.map_values(|e: MatchExp| e@),
        }
    }
}

impl MatchExp {
    /// The row's rendered line when this expression matches it, and nothing
    /// otherwise.
    pub fn match_and_select(&self, row: &CSVRow, config: &Config) -> (r: Option<String>)
        ensures
            r is Some <==> row_matches(self@, row@),
            r matches Some(s) ==> s@ == render_spec(row@, self@.sel, config@.sep, config@.trim),
    {
        if self.matches(row) {
            Some(row.render(&self.sel, config.separator.as_str(), config.trim))
        } else {
            None
        }
    }
}

/// The rendered lines a row produces under a list of expressions: one line
/// per matching expression, in expression order.
pub open spec fn outputs_spec(
    row: Seq<Seq<char>>,
    exps: Seq<MatchExpView>,
    sep: Seq<char>,
    trim: bool,
) -> Seq<Seq<char>>
    decreases exps.len(),
{
    if exps.len() == 0 {
        Seq::empty()
    } else {
        let rest = outputs_spec(row, exps.skip(1), sep, trim);
        if row_matches(exps[0], row) {
            seq![render_spec(row, exps[0].sel, sep, trim)].add(rest)
        } else {
            rest
        }
    }
}

/// The rendered lines one input line produces under a configuration: the
/// line splits into a row on the separator, and each matching expression
/// contributes one output line in order; with no expressions at all, the
/// universal matcher stands in and every cell of the row is printed.
pub open spec fn process_line_spec(line: Seq<char>, cfg: ConfigView) -> Seq<Seq<char>> {
    let row = split_spec(line, cfg.sep);
    if cfg.exps.len() == 0 {
        seq![render_spec(row, CellSelectView::All, cfg.sep, cfg.trim)]
    } else {
        outputs_spec(row, cfg.exps, cfg.sep, cfg.trim)
    }
}

proof fn lemma_outputs_snoc(
    row: Seq<Seq<char>>,
    exps: Seq<MatchExpView>,
    e: MatchExpView,
    sep: Seq<char>,
    trim: bool,
)
    ensures
        outputs_spec(row, exps.push(e), sep, trim) == outputs_spec(row, exps, sep, trim) + (if
        row_matches(e, row) {
            seq![render_spec(row, e.sel, sep, trim)]
        } else {
            Seq::<Seq<char>>::empty()
        }),
    decreases exps.len(),
{
    let all = exps.push(e);
    let tail = if row_matches(e, row) {
        seq![render_spec(row, e.sel, sep, trim)]
    } else {
        Seq::<Seq<char>>::empty()
    };
    if exps.len() == 0 {
        assert(all[0] == e);
        assert(all.skip(1) =~= Seq::<MatchExpView>::empty());
        assert(outputs_spec(row, Seq::empty(), sep, trim) == Seq::<Seq<char>>::empty());
        assert(outputs_spec(row, all, sep, trim) =~= Seq::<Seq<char>>::empty() + tail);
    } else {
        assert(all[0] == exps[0]);
        assert(all.skip(1) =~= exps.skip(1).push(e));
        lemma_outputs_snoc(row, exps.skip(1), e, sep, trim);
        if row_matches(exps[0], row) {
            assert(seq![render_spec(row, exps[0].sel, sep, trim)].add(
                outputs_spec(row, exps.skip(1), sep, trim) + tail,
            ) =~= seq![render_spec(row, exps[0].sel, sep, trim)].add(
                outputs_spec(row, exps.skip(1), sep, trim),
            ) + tail);
        }
    }
}

/// Splits one input line into a row and evaluates every configured
/// expression against it, in order: the returned lines are exactly what
/// `process_line_spec` describes, one per matching expression, with the
/// universal matcher standing in when no expression was configured.
#[verifier::loop_isolation(false)]
pub fn process_line(config: &Config, line: String) -> (out: Vec<String>)
    requires
        config@.sep.len() >= 1,
    ensures
        out.deep_view() == process_line_spec(line@, config@),
{
    let row = CSVRow::parse_line(line, config.separator.as_str());
    let mut out: Vec<String> = Vec::new();
    proof {
        assert(out.deep_view() =~= Seq::<Seq<char>>::empty());
    }
    if config.match_exps.len() == 0 {
        let all = MatchExp::empty();
        assert(row_matches(all@, row@));
        match all.match_and_select(&row, config) {
            Some(s) => {
                out.push(s);
                proof {
                    assert(out.deep_view() =~= seq![
                        render_spec(row@, CellSelectView::All, config@.sep, config@.trim),
                    ]);
                }
            },
            None => {
                proof {
                    assert(false);
                }
            },
        }
    } else {
        let n = config.match_exps.len();
        let ghost eview = config@.exps;
        let mut i: usize = 0;
        while i < n
            invariant
                0 <= i <= n,
                out.deep_view() == outputs_spec(row@, eview.take(i as int), config@.sep, config@.trim),
            decreases n - i,
        {
            proof {
                assert(eview[i as int] == config.match_exps@[i as int]@);
                lemma_outputs_snoc(
                    row@,
                    eview.take(i as int),
                    eview[i as int],
                    config@.sep,
                    config@.trim,
                );
                assert(eview.take(i + 1) =~= eview.take(i as int).push(eview[i as int]));
            }
            let ghost old_out = out;
            match config.match_exps[i].match_and_select(&row, config) {
                Some(s) => {
                    out.push(s);
                    proof {
                        assert(out.deep_view() =~= old_out.deep_view() + seq![
                            render_spec(row@, eview[i as int].sel, config@.sep, config@.trim),
                        ]);
                    }
                },
                None => {
                    proof {
                        assert(out.deep_view() =~= old_out.deep_view()
                            + Seq::<Seq<char>>::empty());
                    }
                },
            }
            i = i + 1;
        }
        proof {
            assert(eview.take(n as int) =~= eview);
        }
    }
    out
}

/// Builds the run configuration from plain command-line values: each match
/// specification compiles in order, and the leftmost fault aborts the whole
/// configuration.
pub fn build_config(
    separator: String,
    trim: bool,
    cfg: &MatchCharCfg,
    match_vals: &Vec<String>,
) -> (r: Result<Config, CompileError>)
    requires
        separator@.len() >= 1,
        cfg@.sel.len() >= 1,
        cfg@.conj.len() >= 1,
        cfg@.eq.len() >= 1,
    ensures
        r matches Ok(c) ==> {
            &&& c@.sep == separator@
            &&& c@.trim == trim
            &&& c@.exps.len() == match_vals@.len()
            &&& forall|i: int|
                0 <= i < match_vals@.len() ==> compile_spec(
                    match_vals.deep_view()[i],
                    cfg@,
                ) == Result::<MatchExpView, crate::compile::CompileErrorView>::Ok(
                    #[trigger] c@.exps[i],
                )
        },
        r matches Err(err) ==> exists|i: int|
            {
                &&& 0 <= i < match_vals@.len()
                &&& #[trigger] compile_spec(match_vals.deep_view()[i], cfg@) matches Err(ev)
                    && err@ == ev
                &&& forall|j: int|
                    0 <= j < i ==> compile_spec(#[trigger] match_vals.deep_view()[j], cfg@) is Ok
            },
{
    let mut exps: Vec<MatchExp> = Vec::new();
    let n = match_vals.len();
    let mut i: usize = 0;
    proof {
        assert(exps@.map_values(|e: MatchExp| e@) =~= Seq::<MatchExpView>::empty());
    }
    while i < n
        invariant
            n == match_vals@.len(),
            0 <= i <= n,
            cfg@.sel.len() >= 1,
            cfg@.conj.len() >= 1,
            cfg@.eq.len() >= 1,
            exps@.map_values(|e: MatchExp| e@).len() == i,
            forall|j: int|
                0 <= j < i ==> compile_spec(#[trigger] match_vals.deep_view()[j], cfg@)
                    == Result::<MatchExpView, crate::compile::CompileErrorView>::Ok(
                    exps@.map_values(|e: MatchExp| e@)[j],
                ),
        decreases n - i,
    {
        proof {
            assert(match_vals@[i as int]@ == match_vals.deep_view()[i as int]);
        }
        match MatchExp::compile(match_vals[i].as_str(), cfg) {
            Ok(e) => {
                let ghost old_exps = exps;
                exps.push(e);
                proof {
                    assert(exps@.map_values(|e: MatchExp| e@) =~= old_exps@.map_values(
                        |e: MatchExp| e@,
                    ).push(e@));
                }
            },
            Err(err) => {
                proof {
                    let wi = i as int;
                    assert(compile_spec(match_vals.deep_view()[wi], cfg@) matches Err(ev) && err@
                        == ev);
                }
                return Err(err);
            },
        }
        i = i + 1;
    }
    let c = Config { separator, trim, match_exps: exps };
    Ok(c)
}

} // verus!
