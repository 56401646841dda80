use svgrep::compile::{CompileError, MatchCharCfg};
use svgrep::expr::{CellSelect, MatchExp};
use svgrep::row::CSVRow;
use svgrep::Config;

fn default_cfg() -> MatchCharCfg {
    MatchCharCfg {
        cell_select_char: String::from("@"),
        match_conj_char: String::from("&"),
        matches_char: String::from("="),
    }
}

fn config_without_expressions() -> Config {
    Config { separator: String::from(";"), trim: false, match_exps: Vec::new() }
}

fn row(line: &str) -> CSVRow {
    CSVRow::parse_line(String::from(line), ";")
}

#[test]
fn empty_expression_is_universal() {
    let e = MatchExp::compile("", &default_cfg()).unwrap();
    let config = config_without_expressions();
    assert!(e.matches(&row("a;b")));
    assert!(e.matches(&row("")));
    assert_eq!(
        e.match_and_select(&row("a;b"), &config),
        Some(String::from("(0) a; (1) b; "))
    );
}

#[test]
fn explicit_universal_matcher_matches_everything() {
    let e = MatchExp::empty();
    assert!(e.matches(&row("x")));
    assert!(e.matches(&row("a;b;c")));
}

#[test]
fn single_column_predicate_requires_the_column() {
    let e = MatchExp::compile("1=foo", &default_cfg()).unwrap();
    assert!(e.matches(&row("x;food;y")));
    assert!(e.matches(&row("x;foo")));
    assert!(!e.matches(&row("x;bar")));
    assert!(!e.matches(&row("foo")));
    assert!(!e.matches(&row("")));
}

#[test]
fn any_column_predicate_matches_any_cell() {
    let e = MatchExp::compile("*=foo", &default_cfg()).unwrap();
    assert!(e.matches(&row("foo;a")));
    assert!(e.matches(&row("a;xfoox")));
    assert!(e.matches(&row("a;b;foo")));
    assert!(!e.matches(&row("bar;baz")));
}

#[test]
fn conjunction_and_selection() {
    let config = config_without_expressions();
    let e = MatchExp::compile("1=foo&2=bar@0,1", &default_cfg()).unwrap();
    assert_eq!(
        e.match_and_select(&row("r0;foo;bar"), &config),
        Some(String::from("(0) r0; (1) foo; "))
    );
    assert_eq!(e.match_and_select(&row("r0;foo;baz"), &config), None);
    assert_eq!(e.match_and_select(&row("r0;fuu;bar"), &config), None);
    assert_eq!(e.match_and_select(&row("r0;foo"), &config), None);
}

#[test]
fn repeated_column_clauses_all_must_hold() {
    let e = MatchExp::compile("1=a&1=b", &default_cfg()).unwrap();
    assert!(e.matches(&row("x;ab")));
    assert!(!e.matches(&row("x;b")));
    assert!(!e.matches(&row("x;a")));
}

#[test]
fn mixed_any_and_indexed_predicates_conjoin() {
    let e = MatchExp::compile("0=left&*=needle", &default_cfg()).unwrap();
    assert!(e.matches(&row("left;a;needle")));
    assert!(e.matches(&row("leftmost;needle")));
    assert!(!e.matches(&row("left;a;b")));
    assert!(!e.matches(&row("right;needle")));
}

#[test]
fn selection_without_clauses_is_universal_with_columns() {
    let config = config_without_expressions();
    let e = MatchExp::compile("@1", &default_cfg()).unwrap();
    assert_eq!(
        e.match_and_select(&row("a;b;c"), &config),
        Some(String::from("(1) b; "))
    );
}

#[test]
fn out_of_range_selection_renders_placeholder() {
    let config = config_without_expressions();
    let e = MatchExp::compile("@99", &default_cfg()).unwrap();
    assert_eq!(
        e.match_and_select(&row("a;b;c"), &config),
        Some(String::from("<no col 99>; "))
    );
    let e2 = MatchExp::compile("@0,99,2", &default_cfg()).unwrap();
    assert_eq!(
        e2.match_and_select(&row("a;b;c"), &config),
        Some(String::from("(0) a; <no col 99>; (2) c; "))
    );
}

#[test]
fn duplicate_selection_indices_are_legal() {
    let config = config_without_expressions();
    let e = MatchExp::compile("@1,1,0", &default_cfg()).unwrap();
    assert_eq!(
        e.match_and_select(&row("a;b"), &config),
        Some(String::from("(1) b; (1) b; (0) a; "))
    );
}

#[test]
fn trim_affects_rendering_but_never_matching() {
    let e = MatchExp::compile("0=^foo$", &default_cfg()).unwrap();
    let trimming = Config { separator: String::from(";"), trim: true, match_exps: Vec::new() };
    let plain = config_without_expressions();
    // Matching always sees the untrimmed cell text.
    assert!(!e.matches(&row(" foo ")));
    assert!(e.matches(&row("foo")));
    // Rendering strips the whitespace only when trim is on.
    let all = MatchExp::empty();
    assert_eq!(
        all.match_and_select(&row(" foo ;b"), &trimming),
        Some(String::from("(0) foo; (1) b; "))
    );
    assert_eq!(
        all.match_and_select(&row(" foo ;b"), &plain),
        Some(String::from("(0)  foo ; (1) b; "))
    );
}

#[test]
fn regex_is_really_consulted() {
    let e = MatchExp::compile("0=^a+b$", &default_cfg()).unwrap();
    assert!(e.matches(&row("aaab")));
    assert!(!e.matches(&row("^a+b$")));
}

#[test]
fn invalid_regex_is_a_fatal_compile_error() {
    match MatchExp::compile("1=[", &default_cfg()) {
        Err(CompileError::BadRegex(p)) => assert_eq!(p, "["),
        other => panic!("expected a bad-regex error, got {:?}", other.is_ok()),
    }
}

#[test]
fn invalid_column_spec_is_reported() {
    match MatchExp::compile("x1=foo", &default_cfg()) {
        Err(CompileError::BadColumnSpec(s)) => assert_eq!(s, "x1"),
        _ => panic!("expected a bad-column-spec error"),
    }
    match MatchExp::compile("foo", &default_cfg()) {
        Err(CompileError::BadColumnSpec(s)) => assert_eq!(s, "foo"),
        _ => panic!("expected a bad-column-spec error"),
    }
}

#[test]
fn clause_without_equals_is_a_syntax_error() {
    match MatchExp::compile("1", &default_cfg()) {
        Err(CompileError::Syntax(t)) => assert_eq!(t, "1"),
        _ => panic!("expected a syntax error"),
    }
}

#[test]
fn too_many_selection_sections_is_a_syntax_error() {
    match MatchExp::compile("1=a@0@1", &default_cfg()) {
        Err(CompileError::Syntax(t)) => assert_eq!(t, "1=a@0@1"),
        _ => panic!("expected a syntax error"),
    }
}

#[test]
fn invalid_selection_index_is_reported() {
    match MatchExp::compile("1=a@x", &default_cfg()) {
        Err(CompileError::BadSelectionIndex(s)) => assert_eq!(s, "x"),
        _ => panic!("expected a bad-selection-index error"),
    }
    match MatchExp::compile("1=a@", &default_cfg()) {
        Err(CompileError::BadSelectionIndex(s)) => assert_eq!(s, ""),
        _ => panic!("expected a bad-selection-index error"),
    }
}

#[test]
fn custom_delimiters_work() {
    let cfg = MatchCharCfg {
        cell_select_char: String::from("!"),
        match_conj_char: String::from("+"),
        matches_char: String::from(":"),
    };
    let config = config_without_expressions();
    let e = MatchExp::compile("0:a+1:b!1", &cfg).unwrap();
    assert_eq!(
        e.match_and_select(&row("a;b"), &config),
        Some(String::from("(1) b; "))
    );
    assert_eq!(e.match_and_select(&row("a;c"), &config), None);
}

#[test]
fn pattern_keeps_everything_after_the_first_equals() {
    let e = MatchExp::compile("0=^a=b$", &default_cfg()).unwrap();
    assert!(e.matches(&row("a=b")));
    assert!(!e.matches(&row("a")));
}

#[test]
fn error_messages_name_the_offending_text() {
    let err = MatchExp::compile("1=[", &default_cfg()).unwrap_err();
    assert_eq!(err.message(), "invalid regex: [");
    let err = MatchExp::compile("zz=a", &default_cfg()).unwrap_err();
    assert_eq!(err.message(), "'zz' is no valid column spec");
    let err = MatchExp::compile("1=a@x", &default_cfg()).unwrap_err();
    assert_eq!(err.message(), "invalid index in select: x");
    let err = MatchExp::compile("1=a@0@1", &default_cfg()).unwrap_err();
    assert_eq!(err.message(), "invalid match expression: 1=a@0@1");
}

#[test]
fn selection_kinds_compile_as_expected() {
    let e = MatchExp::compile("1=foo", &default_cfg()).unwrap();
    assert!(matches!(e.sel, CellSelect::All));
    let e = MatchExp::compile("1=foo@2,0", &default_cfg()).unwrap();
    match e.sel {
        CellSelect::Cols(v) => assert_eq!(v, vec![2, 0]),
        CellSelect::All => panic!("expected an explicit selection"),
    }
}
