//! The match-expression compiler: parsing a textual match specification
//! into a `MatchExp`, with a fatal, named error for every way the text can
//! be malformed.
use vstd::prelude::*;

use crate::expr::{CellSelect, CellSelectView, ColPred, ColPredView, MatchExp, MatchExpView};
use crate::rx::{pattern_ok, regex_new, regex_pattern};
use crate::text::{
    all_digits, digits_val, join_spec, join_tail, parse_index, split_spec, split_str,
};

verus! {

/// The three delimiter characters of the match-expression syntax, each kept
/// as the (non-empty) string the command line supplied.
pub struct MatchCharCfg {
    /// Separates the clause section from the display-column list.
    pub cell_select_char: String,
    /// Separates clauses within one expression.
    pub match_conj_char: String,
    /// Separates a column spec from its regex inside a clause.
    pub matches_char: String,
}

/// The ghost shape of a `MatchCharCfg`.
pub struct MatchCharCfgView {
    pub sel: Seq<char>,
    pub conj: Seq<char>,
    pub eq: Seq<char>,
}

impl View for MatchCharCfg {
    type V = MatchCharCfgView;

    open spec fn view(&self) -> MatchCharCfgView {
        MatchCharCfgView {
            sel: self.cell_select_char@,
            conj: self.match_conj_char@,
            eq: self.matches_char@,
        }
    }
}

/// A fatal fault in a match specification, carrying the offending text.
#[derive(Debug)]
pub enum CompileError {
    /// The expression does not fit the grammar (for instance, it cannot be
    /// split into one clause section and at most one selection section, or a
    /// clause has no equals delimiter).
    Syntax(String),
    /// A clause's column spec is neither `*` nor a column index.
    BadColumnSpec(String),
    /// A clause's regex pattern does not compile.
    BadRegex(String),
    /// A display-column entry is not a column index.
    BadSelectionIndex(String),
}

/// The ghost shape of a `CompileError`.
pub enum CompileErrorView {
    Syntax(Seq<char>),
    BadColumnSpec(Seq<char>),
    BadRegex(Seq<char>),
    BadSelectionIndex(Seq<char>),
}

impl View for CompileError {
    type V = CompileErrorView;

    open spec fn view(&self) -> CompileErrorView {
        match self {
            CompileError::Syntax(t) => CompileErrorView::Syntax(t@),
            CompileError::BadColumnSpec(t) => CompileErrorView::BadColumnSpec(t@),
            CompileError::BadRegex(t) => CompileErrorView::BadRegex(t@),
            CompileError::BadSelectionIndex(t) => CompileErrorView::BadSelectionIndex(t@),
        }
    }
}

/// The diagnostic text of a fault, naming the offending input.
pub open spec fn message_spec(e: CompileErrorView) -> Seq<char> {
    match e {
        CompileErrorView::Syntax(t) => ("invalid match expression: ")@ + t,
        CompileErrorView::BadColumnSpec(t) => ("'")@ + t + ("' is no valid column spec")@,
        CompileErrorView::BadRegex(t) => ("invalid regex: ")@ + t,
        CompileErrorView::BadSelectionIndex(t) => ("invalid index in select: ")@ + t,
    }
}

impl CompileError {
    /// The diagnostic text for this fault, naming the offending input.
    pub fn message(&self) -> (r: String)
        ensures
            r@ == message_spec(self@),
    {
        match self {
            CompileError::Syntax(t) => {
                let mut s = "invalid match expression: ".to_owned();
                s.append(t.as_str());
                s
            },
            CompileError::BadColumnSpec(t) => {
                let mut s = "'".to_owned();
                s.append(t.as_str());
                s.append("' is no valid column spec");
                s
            },
            CompileError::BadRegex(t) => {
                let mut s = "invalid regex: ".to_owned();
                s.append(t.as_str());
                s
            },
            CompileError::BadSelectionIndex(t) => {
                let mut s = "invalid index in select: ".to_owned();
                s.append(t.as_str());
                s
            },
        }
    }
}

/// A digit string that denotes a usable column index.
pub open spec fn valid_index_text(s: Seq<char>) -> bool {
    s.len() >= 1 && all_digits(s) && digits_val(s) <= usize::MAX
}

/// The column spec that stands for "any column".
pub open spec fn star_text() -> Seq<char> {
    seq!['*']
}

/// One compiled clause: an any-column pattern or a per-column pattern.
pub enum ClauseItemView {
    AnyRx(Seq<char>),
    ColRx(ColPredView),
}

/// What one clause of the form `<col><eq><regex>` compiles to, or the first
/// fault found in it.  The column spec is the text before the first equals
/// delimiter and the pattern is everything after it.  A clause with no
/// equals delimiter at all is reported as a bad column spec when its text is
/// not a column spec either, and as a grammar fault otherwise.
pub open spec fn compile_clause_spec(clause: Seq<char>, eq: Seq<char>, text: Seq<char>) -> Result<
    ClauseItemView,
    CompileErrorView,
> {
    let fields = split_spec(clause, eq);
    if fields.len() < 2 {
        if fields[0] == star_text() || valid_index_text(fields[0]) {
            Err(CompileErrorView::Syntax(text))
        } else {
            Err(CompileErrorView::BadColumnSpec(fields[0]))
        }
    } else {
        let cs = fields[0];
        let pat = join_spec(fields.skip(1), eq);
        if cs == star_text() {
            if pattern_ok(pat) {
                Ok(ClauseItemView::AnyRx(pat))
            } else {
                Err(CompileErrorView::BadRegex(pat))
            }
        } else if valid_index_text(cs) {
            if pattern_ok(pat) {
                Ok(ClauseItemView::ColRx(ColPredView { col: digits_val(cs) as usize, pat }))
            } else {
                Err(CompileErrorView::BadRegex(pat))
            }
        } else {
            Err(CompileErrorView::BadColumnSpec(cs))
        }
    }
}

/// The predicates of a clause list, in clause order.
pub struct ClausesView {
    pub any: Seq<Seq<char>>,
    pub cols: Seq<ColPredView>,
}

/// What a clause list compiles to: the any-column and per-column predicates
/// in clause order, or the leftmost fault.
pub open spec fn compile_clauses_spec(
    clauses: Seq<Seq<char>>,
    eq: Seq<char>,
    text: Seq<char>,
) -> Result<ClausesView, CompileErrorView>
    decreases clauses.len(),
{
    if clauses.len() == 0 {
        Ok(ClausesView { any: Seq::empty(), cols: Seq::empty() })
    } else {
        match compile_clause_spec(clauses[0], eq, text) {
            Err(e) => Err(e),
            Ok(item) => match compile_clauses_spec(clauses.skip(1), eq, text) {
                Err(e) => Err(e),
                Ok(rest) => match item {
                    ClauseItemView::AnyRx(p) => Ok(
                        ClausesView { any: seq![p].add(rest.any), cols: rest.cols },
                    ),
                    ClauseItemView::ColRx(c) => Ok(
                        ClausesView { any: rest.any, cols: seq![c].add(rest.cols) },
                    ),
                },
            },
        }
    }
}

/// What a display-column list compiles to: the indices in the given order,
/// or the leftmost entry that is not a column index.
pub open spec fn compile_sel_entries_spec(entries: Seq<Seq<char>>) -> Result<
    Seq<usize>,
    CompileErrorView,
>
    decreases entries.len(),
{
    if entries.len() == 0 {
        Ok(Seq::empty())
    } else if !valid_index_text(entries[0]) {
        Err(CompileErrorView::BadSelectionIndex(entries[0]))
    } else {
        match compile_sel_entries_spec(entries.skip(1)) {
            Err(e) => Err(e),
            Ok(rest) => Ok(seq![digits_val(entries[0]) as usize].add(rest)),
        }
    }
}

/// What a whole match specification compiles to.  The text splits on the
/// selection delimiter into a clause section and at most one selection
/// section; more sections than that do not fit the grammar.  An empty or
/// absent clause section yields no predicates (the universal matcher), and
/// an absent selection section selects all columns.  Faults are found in
/// this order: the section split, then the selection entries, then the
/// clauses left to right.
pub open spec fn compile_spec(text: Seq<char>, cfg: MatchCharCfgView) -> Result<
    MatchExpView,
    CompileErrorView,
> {
    let parts = split_spec(text, cfg.sel);
    if parts.len() > 2 {
        Err(CompileErrorView::Syntax(text))
    } else {
        let sel_r = if parts.len() == 2 {
            match compile_sel_entries_spec(split_spec(parts[1], seq![','])) {
                Err(e) => Err(e),
                Ok(idxs) => Ok(CellSelectView::Cols(idxs)),
            }
        } else {
            Ok(CellSelectView::All)
        };
        match sel_r {
            Err(e) => Err(e),
            Ok(sel) => {
                let clauses_r = if parts[0].len() == 0 {
                    Ok(ClausesView { any: Seq::empty(), cols: Seq::empty() })
                } else {
                    compile_clauses_spec(split_spec(parts[0], cfg.conj), cfg.eq, text)
                };
                match clauses_r {
                    Err(e) => Err(e),
                    Ok(c) => Ok(MatchExpView { any: c.any, cols: c.cols, sel }),
                }
            },
        }
    }
}

proof fn lemma_clauses_snoc_ok(cs: Seq<Seq<char>>, c: Seq<char>, eq: Seq<char>, text: Seq<char>)
    requires
        compile_clauses_spec(cs, eq, text) is Ok,
        compile_clause_spec(c, eq, text) is Ok,
    ensures
        compile_clauses_spec(cs.push(c), eq, text) matches Ok(v) && (match compile_clause_spec(
            c,
            eq,
            text,
        )->Ok_0 {
            ClauseItemView::AnyRx(p) => v.any == compile_clauses_spec(cs, eq, text)->Ok_0.any.push(
                p,
            ) && v.cols == compile_clauses_spec(cs, eq, text)->Ok_0.cols,
            ClauseItemView::ColRx(cp) => v.any == compile_clauses_spec(cs, eq, text)->Ok_0.any
                && v.cols == compile_clauses_spec(cs, eq, text)->Ok_0.cols.push(cp),
        }),
    decreases cs.len(),
{
    let all = cs.push(c);
    if cs.len() == 0 {
        assert(all[0] == c);
        assert(all.skip(1) =~= Seq::<Seq<char>>::empty());
        assert(compile_clauses_spec(all.skip(1), eq, text) == Ok::<
            ClausesView,
            CompileErrorView,
        >(ClausesView { any: Seq::empty(), cols: Seq::empty() }));
        match compile_clause_spec(c, eq, text)->Ok_0 {
            ClauseItemView::AnyRx(p) => {
                assert(seq![p].add(Seq::<Seq<char>>::empty()) =~= Seq::<Seq<char>>::empty().push(
                    p,
                ));
            },
            ClauseItemView::ColRx(cp) => {
                assert(seq![cp].add(Seq::<ColPredView>::empty())
                    =~= Seq::<ColPredView>::empty().push(cp));
            },
        }
    } else {
        assert(all[0] == cs[0]);
        assert(all.skip(1) =~= cs.skip(1).push(c));
        lemma_clauses_snoc_ok(cs.skip(1), c, eq, text);
        let prev_rest = compile_clauses_spec(cs.skip(1), eq, text)->Ok_0;
        match compile_clause_spec(cs[0], eq, text)->Ok_0 {
            ClauseItemView::AnyRx(q) => {
                match compile_clause_spec(c, eq, text)->Ok_0 {
                    ClauseItemView::AnyRx(p) => {
                        assert(seq![q].add(prev_rest.any.push(p)) =~= seq![q].add(
                            prev_rest.any,
                        ).push(p));
                    },
                    ClauseItemView::ColRx(_cp) => {
                    },
                }
            },
            ClauseItemView::ColRx(cq) => {
                match compile_clause_spec(c, eq, text)->Ok_0 {
                    ClauseItemView::AnyRx(p) => {
                    },
                    ClauseItemView::ColRx(cp) => {
                        assert(seq![cq].add(prev_rest.cols.push(cp)) =~= seq![cq].add(
                            prev_rest.cols,
                        ).push(cp));
                    },
                }
            },
        }
    }
}

proof fn lemma_clauses_first_err(cs: Seq<Seq<char>>, i: int, eq: Seq<char>, text: Seq<char>)
    requires
        0 <= i < cs.len(),
        forall|j: int| 0 <= j < i ==> compile_clause_spec(#[trigger] cs[j], eq, text) is Ok,
        compile_clause_spec(cs[i], eq, text) is Err,
    ensures
        compile_clauses_spec(cs, eq, text) == Result::<ClausesView, CompileErrorView>::Err(
            compile_clause_spec(cs[i], eq, text)->Err_0,
        ),
    decreases i,
{
    if i == 0 {
    } else {
        assert forall|j: int|
            0 <= j < i - 1 implies compile_clause_spec(
            #[trigger] cs.skip(1)[j],
            eq,
            text,
        ) is Ok by {
            assert(cs.skip(1)[j] == cs[j + 1]);
        };
        assert(cs.skip(1)[i - 1] == cs[i]);
        lemma_clauses_first_err(cs.skip(1), i - 1, eq, text);
    }
}

proof fn lemma_sel_snoc_ok(entries: Seq<Seq<char>>, e: Seq<char>)
    requires
        compile_sel_entries_spec(entries) is Ok,
        valid_index_text(e),
    ensures
        compile_sel_entries_spec(entries.push(e)) == Result::<Seq<usize>, CompileErrorView>::Ok(
            compile_sel_entries_spec(entries)->Ok_0.push(digits_val(e) as usize),
        ),
    decreases entries.len(),
{
    let all = entries.push(e);
    if entries.len() == 0 {
        assert(all[0] == e);
        assert(all.skip(1) =~= Seq::<Seq<char>>::empty());
        assert(compile_sel_entries_spec(Seq::empty()) == Ok::<Seq<usize>, CompileErrorView>(
            Seq::empty(),
        ));
        assert(seq![digits_val(e) as usize].add(Seq::<usize>::empty()) =~= Seq::<
            usize,
        >::empty().push(digits_val(e) as usize));
    } else {
        assert(all[0] == entries[0]);
        assert(all.skip(1) =~= entries.skip(1).push(e));
        lemma_sel_snoc_ok(entries.skip(1), e);
        let prev_rest = compile_sel_entries_spec(entries.skip(1))->Ok_0;
        assert(seq![digits_val(entries[0]) as usize].add(prev_rest.push(digits_val(e) as usize))
            =~= seq![digits_val(entries[0]) as usize].add(prev_rest).push(digits_val(e) as usize));
    }
}

proof fn lemma_sel_first_err(entries: Seq<Seq<char>>, i: int)
    requires
        0 <= i < entries.len(),
        forall|j: int| 0 <= j < i ==> valid_index_text(#[trigger] entries[j]),
        !valid_index_text(entries[i]),
    ensures
        compile_sel_entries_spec(entries) == Result::<Seq<usize>, CompileErrorView>::Err(
            CompileErrorView::BadSelectionIndex(entries[i]),
        ),
    decreases i,
{
    if i == 0 {
    } else {
        assert(forall|j: int| 0 <= j < i - 1 ==> #[trigger] entries.skip(1)[j] == entries[j + 1]);
        assert(entries.skip(1)[i - 1] == entries[i]);
        lemma_sel_first_err(entries.skip(1), i - 1);
    }
}

impl MatchExp {
    /// Compiles one textual match specification, with non-empty delimiter
    /// strings, to exactly what `compile_spec` describes: the compiled
    /// expression on well-formed input, and the leftmost fault otherwise.
    #[verifier::loop_isolation(false)]
    pub fn compile(text: &str, cfg: &MatchCharCfg) -> (r: Result<MatchExp, CompileError>)
        requires
            cfg@.sel.len() >= 1,
            cfg@.conj.len() >= 1,
            cfg@.eq.len() >= 1,
        ensures
            compile_spec(text@, cfg@) matches Ok(v) ==> (r matches Ok(e) && e@ == v),
            compile_spec(text@, cfg@) matches Err(ev) ==> (r matches Err(err) && err@ == ev),
    {
        let parts = split_str(text, cfg.cell_select_char.as_str());
        let ghost pview = parts.deep_view();
        proof {
            crate::text::lemma_split_spec_len(text@, cfg@.sel);
        }
        if parts.len() > 2 {
            return Err(CompileError::Syntax(text.to_owned()));
        }
        let sel: CellSelect = if parts.len() == 2 {
            proof {
                reveal_strlit(",");
                assert((",")@ =~= seq![',']);
            }
            let entries = split_str(parts[1].as_str(), ",");
            let ghost eview = entries.deep_view();
            proof {
                assert(parts@[1]@ == pview[1]);
                assert(eview == split_spec(pview[1], seq![',']));
            }
            let mut idxs: Vec<usize> = Vec::new();
            let ne = entries.len();
            let mut k: usize = 0;
            while k < ne
                invariant
                    ne == entries.len(),
                    0 <= k <= ne,
                    eview == entries.deep_view(),
                    forall|j: int| 0 <= j < k ==> valid_index_text(#[trigger] eview[j]),
                    compile_sel_entries_spec(eview.take(k as int)) == Result::<
                        Seq<usize>,
                        CompileErrorView,
                    >::Ok(idxs@),
                decreases ne - k,
            {
                proof {
                    assert(entries@[k as int]@ == eview[k as int]);
                }
                match parse_index(entries[k].as_str()) {
                    Some(v) => {
                        proof {
                            lemma_sel_snoc_ok(eview.take(k as int), eview[k as int]);
                            assert(eview.take(k + 1) =~= eview.take(k as int).push(
                                eview[k as int],
                            ));
                        }
                        idxs.push(v);
                    },
                    None => {
                        proof {
                            lemma_sel_first_err(eview, k as int);
                        }
                        return Err(CompileError::BadSelectionIndex(entries[k].clone()));
                    },
                }
                k = k + 1;
            }
            proof {
                assert(eview.take(ne as int) =~= eview);
            }
            CellSelect::Cols(idxs)
        } else {
            CellSelect::All
        };
        let mut rxs: Vec<regex::Regex> = Vec::new();
        let mut cell_rxs: Vec<ColPred> = Vec::new();
        proof {
            assert(rxs@.map_values(|r: regex::Regex| regex_pattern(r)) =~= Seq::<Seq<char>>::empty());
            assert(cell_rxs@.map_values(|p: ColPred| p@) =~= Seq::<ColPredView>::empty());
        }
        if parts[0].as_str().unicode_len() > 0 {
            proof {
                assert(parts@[0]@ == pview[0]);
            }
            let clauses = split_str(parts[0].as_str(), cfg.match_conj_char.as_str());
            let ghost cview = clauses.deep_view();
            let nc = clauses.len();
            let mut k: usize = 0;
            while k < nc
                invariant
                    nc == clauses.len(),
                    0 <= k <= nc,
                    cview == clauses.deep_view(),
                    cfg@.eq.len() >= 1,
                    forall|j: int|
                        0 <= j < k ==> compile_clause_spec(
                            #[trigger] cview[j],
                            cfg@.eq,
                            text@,
                        ) is Ok,
                    compile_clauses_spec(cview.take(k as int), cfg@.eq, text@) == Result::<
                        ClausesView,
                        CompileErrorView,
                    >::Ok(
                        (ClausesView {
                            any: rxs@.map_values(|r: regex::Regex| regex_pattern(r)),
                            cols: cell_rxs@.map_values(|p: ColPred| p@),
                        }),
                    ),
                decreases nc - k,
            {
                proof {
                    assert(clauses@[k as int]@ == cview[k as int]);
                }
                let fields = split_str(clauses[k].as_str(), cfg.matches_char.as_str());
                let ghost fview = fields.deep_view();
                proof {
                    crate::text::lemma_split_spec_len(cview[k as int], cfg@.eq);
                }
                if fields.len() < 2 {
                    proof {
                        lemma_clauses_first_err(cview, k as int, cfg@.eq, text@);
                        assert(fields@[0]@ == fview[0]);
                    }
                    let cs0 = &fields[0];
                    let short_star = cs0.as_str().unicode_len() == 1 && cs0.as_str().get_char(0)
                        == '*';
                    proof {
                        if short_star {
                            assert(cs0@ =~= star_text());
                        } else {
                            assert(cs0@ != star_text());
                        }
                    }
                    if short_star || parse_index(cs0.as_str()).is_some() {
                        return Err(CompileError::Syntax(text.to_owned()));
                    } else {
                        return Err(CompileError::BadColumnSpec(cs0.clone()));
                    }
                }
                let cs = &fields[0];
                let pat = join_tail(&fields, 1, cfg.matches_char.as_str());
                proof {
                    assert(fields@[0]@ == fview[0]);
                    assert(pat@ == join_spec(fview.skip(1), cfg@.eq));
                }
                let is_star = cs.as_str().unicode_len() == 1 && cs.as_str().get_char(0) == '*';
                proof {
                    if is_star {
                        assert(cs@ =~= star_text());
                    } else {
                        assert(cs@ != star_text());
                    }
                }
                if is_star {
                    match regex_new(pat.as_str()) {
                        Some(rx) => {
                            proof {
                                lemma_clauses_snoc_ok(
                                    cview.take(k as int),
                                    cview[k as int],
                                    cfg@.eq,
                                    text@,
                                );
                                assert(cview.take(k + 1) =~= cview.take(k as int).push(
                                    cview[k as int],
                                ));
                            }
                            let ghost old_rxs = rxs;
                            rxs.push(rx);
                            proof {
                                assert(rxs@.map_values(|r: regex::Regex| regex_pattern(r))
                                    =~= old_rxs@.map_values(|r: regex::Regex| regex_pattern(r)).push(
                                    regex_pattern(rx),
                                ));
                            }
                        },
                        None => {
                            proof {
                                lemma_clauses_first_err(cview, k as int, cfg@.eq, text@);
                            }
                            return Err(CompileError::BadRegex(pat));
                        },
                    }
                } else {
                    match parse_index(cs.as_str()) {
                        Some(col) => {
                            match regex_new(pat.as_str()) {
                                Some(rx) => {
                                    proof {
                                        lemma_clauses_snoc_ok(
                                            cview.take(k as int),
                                            cview[k as int],
                                            cfg@.eq,
                                            text@,
                                        );
                                        assert(cview.take(k + 1) =~= cview.take(k as int).push(
                                            cview[k as int],
                                        ));
                                    }
                                    let ghost old_cell_rxs = cell_rxs;
                                    cell_rxs.push(ColPred { col, rx });
                                    proof {
                                        assert(cell_rxs@.map_values(|p: ColPred| p@)
                                            =~= old_cell_rxs@.map_values(|p: ColPred| p@).push(
                                            (ColPredView { col, pat: pat@ }),
                                        ));
                                    }
                                },
                                None => {
                                    proof {
                                        lemma_clauses_first_err(cview, k as int, cfg@.eq, text@);
                                    }
                                    return Err(CompileError::BadRegex(pat));
                                },
                            }
                        },
                        None => {
                            proof {
                                lemma_clauses_first_err(cview, k as int, cfg@.eq, text@);
                            }
                            return Err(CompileError::BadColumnSpec(cs.clone()));
                        },
                    }
                }
                k = k + 1;
            }
            proof {
                assert(cview.take(nc as int) =~= cview);
            }
        }
        let r = MatchExp { rxs, cell_rxs, sel };
        proof {
            assert(compile_spec(text@, cfg@) matches Ok(v) && r@ == v);
        }
        Ok(r)
    }
}

} // verus!
