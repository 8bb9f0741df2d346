use crabkit::csv::{Csv, CsvError, Delimiter};
use crabkit::table::Csv as WrapCsv;

#[test]
fn fixed_capacity_table_renders_exactly() {
    let mut csv = Csv::new();
    csv.parse_csv_data("a;b\nc;d", Delimiter::Semicolon, 16).unwrap();
    let expected = "╭────────────────┬────────────────╮\n│       a        │       b        │\n╞════════════════╪════════════════╡\n│       c        ┆       d        │\n╰────────────────┴────────────────╯\n";
    assert_eq!(csv.format_as_table(), expected);
}

#[test]
fn fixed_capacity_table_truncates_cells() {
    let mut csv = Csv::new();
    csv.parse_csv_data("head\nabc", Delimiter::Comma, 2).unwrap();
    let expected = "╭────────────────╮\n│       he       │\n╞════════════════╡\n│       ab       │\n╰────────────────╯\n";
    assert_eq!(csv.format_as_table(), expected);
}

#[test]
fn header_alone_is_no_data() {
    let mut csv = Csv::new();
    assert_eq!(
        csv.parse_csv_data("only;a;header", Delimiter::Semicolon, 16),
        Err(CsvError::NoData)
    );
}

#[test]
fn comma_and_semicolon_split_differently() {
    let mut csv = Csv::new();
    csv.parse_csv_data("a,b\n1,2", Delimiter::Comma, 16).unwrap();
    assert_eq!(csv.columns, vec!["a".to_string(), "b".to_string()]);
    assert_eq!(csv.data, vec![vec!["1".to_string(), "2".to_string()]]);

    let mut csv = Csv::new();
    csv.parse_csv_data("a,b\n1,2", Delimiter::Semicolon, 16).unwrap();
    assert_eq!(csv.columns, vec!["a,b".to_string()]);
    assert_eq!(csv.data, vec![vec!["1,2".to_string()]]);
}

#[test]
fn wrap_text_breaks_greedily() {
    let csv = WrapCsv::new();
    assert_eq!(
        csv.wrap_text("aa bb cc", 5),
        vec!["aa bb".to_string(), "cc".to_string()]
    );
    // A word as wide as the line closes the (empty) line first.
    assert_eq!(
        csv.wrap_text("abcdef", 6),
        vec![String::new(), "abcdef".to_string()]
    );
    assert_eq!(csv.wrap_text("", 4), Vec::<String>::new());
}

#[test]
fn wrapping_table_renders_exactly() {
    let mut csv = WrapCsv::new();
    csv.parse_csv_data("h\nabcdef\nx", Delimiter::Semicolon).unwrap();
    let expected = "╭────────────────╮\n│       h        │\n╞════════════════╡\n│      │\n│abcdef│\n│────────────────│\n│  x   │\n╰────────────────╯\n";
    assert_eq!(csv.format_as_table(), expected);
}
