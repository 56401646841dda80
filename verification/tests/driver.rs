use svgrep::build_config;
use svgrep::compile::{CompileError, MatchCharCfg};
use svgrep::process_line;

fn default_cfg() -> MatchCharCfg {
    MatchCharCfg {
        cell_select_char: String::from("@"),
        match_conj_char: String::from("&"),
        matches_char: String::from("="),
    }
}

fn build(match_vals: &[&str], trim: bool) -> svgrep::Config {
    let vals: Vec<String> = match_vals.iter().map(|s| String::from(*s)).collect();
    build_config(String::from(";"), trim, &default_cfg(), &vals).unwrap()
}

#[test]
fn no_expressions_prints_every_line_once() {
    let config = build(&[], false);
    assert_eq!(
        process_line(&config, String::from("a;b")),
        vec![String::from("(0) a; (1) b; ")]
    );
    assert_eq!(
        process_line(&config, String::from("")),
        vec![String::from("(0) ; ")]
    );
}

#[test]
fn expressions_or_together() {
    let config = build(&["1=foo", "2=bar"], false);
    // Satisfies both: printed twice, in expression order.
    assert_eq!(
        process_line(&config, String::from("x;foo;bar")),
        vec![
            String::from("(0) x; (1) foo; (2) bar; "),
            String::from("(0) x; (1) foo; (2) bar; "),
        ]
    );
    // Satisfies only the first.
    assert_eq!(
        process_line(&config, String::from("x;foo;baz")),
        vec![String::from("(0) x; (1) foo; (2) baz; ")]
    );
    // Satisfies only the second.
    assert_eq!(
        process_line(&config, String::from("x;fuu;bar")),
        vec![String::from("(0) x; (1) fuu; (2) bar; ")]
    );
    // Satisfies neither.
    assert_eq!(process_line(&config, String::from("x;y;z")).len(), 0);
}

#[test]
fn selections_apply_per_expression() {
    let config = build(&["1=foo@1", "2=bar@2,0"], false);
    assert_eq!(
        process_line(&config, String::from("x;foo;bar")),
        vec![String::from("(1) foo; "), String::from("(2) bar; (0) x; ")]
    );
}

#[test]
fn trim_changes_text_not_match_count() {
    let trimming = build(&["1= foo "], true);
    let plain = build(&["1= foo "], false);
    let line = "x; foo ;y";
    let out_trim = process_line(&trimming, String::from(line));
    let out_plain = process_line(&plain, String::from(line));
    assert_eq!(out_trim.len(), out_plain.len());
    assert_eq!(out_trim, vec![String::from("(0) x; (1) foo; (2) y; ")]);
    assert_eq!(out_plain, vec![String::from("(0) x; (1)  foo ; (2) y; ")]);
}

#[test]
fn build_config_stops_at_the_first_bad_expression() {
    let vals = vec![String::from("1=ok"), String::from("1=["), String::from("zz=x")];
    match build_config(String::from(";"), false, &default_cfg(), &vals) {
        Err(CompileError::BadRegex(p)) => assert_eq!(p, "["),
        _ => panic!("expected the bad-regex error of the second expression"),
    }
}

#[test]
fn build_config_keeps_expression_order() {
    let config = build(&["0=a", "0=b"], false);
    assert_eq!(config.match_exps.len(), 2);
    assert_eq!(
        process_line(&config, String::from("a")),
        vec![String::from("(0) a; ")]
    );
    assert_eq!(
        process_line(&config, String::from("b")),
        vec![String::from("(0) b; ")]
    );
}
