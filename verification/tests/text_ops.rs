use svgrep::row::CSVRow;
use svgrep::text::{join_cells, parse_index, split_str, usize_to_decimal};

#[test]
fn split_basic() {
    let row = CSVRow::parse_line(String::from("a;b;c"), ";");
    assert_eq!(row.cells, vec!["a", "b", "c"]);
}

#[test]
fn split_empty_line_is_one_empty_cell() {
    let row = CSVRow::parse_line(String::from(""), ";");
    assert_eq!(row.cells, vec![""]);
}

#[test]
fn split_adjacent_separators_give_empty_cells() {
    let row = CSVRow::parse_line(String::from("a;;b;"), ";");
    assert_eq!(row.cells, vec!["a", "", "b", ""]);
}

#[test]
fn split_multichar_separator() {
    let cells = split_str("a--b--c", "--");
    assert_eq!(cells, vec!["a", "b", "c"]);
}

#[test]
fn split_overlapping_separator_scans_left_to_right() {
    let cells = split_str("aaa", "aa");
    assert_eq!(cells, vec!["", "a"]);
}

#[test]
fn split_join_round_trip() {
    for line in ["", "a", "a;b", "a; b;;c", ";;;", "x;y;z;"] {
        let cells = split_str(line, ";");
        assert_eq!(join_cells(&cells, ";"), line);
    }
    for line in ["", "ab", "a,,b", "tab\there"] {
        let cells = split_str(line, ",,");
        assert_eq!(join_cells(&cells, ",,"), line);
    }
}

#[test]
fn get_cell_in_and_out_of_range() {
    let row = CSVRow::parse_line(String::from("a;b"), ";");
    assert_eq!(row.get_cell(0), Some("a"));
    assert_eq!(row.get_cell(1), Some("b"));
    assert_eq!(row.get_cell(2), None);
}

#[test]
fn parse_index_accepts_digit_strings_only() {
    assert_eq!(parse_index("0"), Some(0));
    assert_eq!(parse_index("12"), Some(12));
    assert_eq!(parse_index("007"), Some(7));
    assert_eq!(parse_index(""), None);
    assert_eq!(parse_index("1x"), None);
    assert_eq!(parse_index("-1"), None);
    assert_eq!(parse_index("99999999999999999999999999999999"), None);
}

#[test]
fn decimal_rendering() {
    assert_eq!(usize_to_decimal(0), "0");
    assert_eq!(usize_to_decimal(9), "9");
    assert_eq!(usize_to_decimal(10), "10");
    assert_eq!(usize_to_decimal(12345), "12345");
}

#[test]
fn maybe_trim_strips_only_when_asked() {
    assert_eq!(svgrep::row::maybe_trim(" foo ", false), " foo ");
    assert_eq!(svgrep::row::maybe_trim(" foo ", true), "foo");
    assert_eq!(svgrep::row::maybe_trim("", true), "");
}
