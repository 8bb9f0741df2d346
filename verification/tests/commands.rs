use crabkit::command::{Command, SubCommand};
use crabkit::csv::{identify_delimiter, CsvError, Delimiter};
use crabkit::csv_process::process_csv;
use crabkit::input::{parse_command, parse_csv_settings};
use crabkit::text::transmute;

#[test]
fn main_parse_command_test() {
    let mut args = vec!["prog_name".to_string(), "lowercase".to_string()];
    assert_eq!(parse_command(&args), Ok(Command::Lowercase));
    args[1] = "no-spaces".to_string();
    assert_eq!(parse_command(&args), Ok(Command::NoSpaces));
    args[1] = "short-slugify".to_string();
    assert_eq!(parse_command(&args), Ok(Command::ShortSlugify));
    args[1] = "alternating".to_string();
    assert_eq!(parse_command(&args), Ok(Command::Alternating));
}

#[test]
fn input_parse_command_test() {
    let mut args = vec!["prog_name".to_string(), "lowercase".to_string()];
    assert_eq!(parse_command(&args), Ok(Command::Lowercase));
    args[1] = "no-spaces".to_string();
    assert_eq!(parse_command(&args), Ok(Command::NoSpaces));
    args[1] = "short-slugify".to_string();
    assert_eq!(parse_command(&args), Ok(Command::ShortSlugify));
    args[1] = "alternating".to_string();
    assert_eq!(parse_command(&args), Ok(Command::Alternating));
}

#[test]
fn main_wrong_command_test() {
    let args = vec!["prog_name".to_string(), "ultracase".to_string()];
    assert_eq!(parse_command(&args), Err("Invalid command."));
    assert_eq!(
        transmute(
            "a crab has five pairs of legs".to_string(),
            Command::NoCommand,
            SubCommand::NoSettings
        )
        .unwrap(),
        "a crab has five pairs of legs🧁"
    );
}

#[test]
fn input_wrong_command_test() {
    let args = vec!["prog_name".to_string(), "ultracase".to_string()];
    assert_eq!(parse_command(&args), Err("Invalid command."));
}

#[test]
fn no_command_provided_test() {
    let args = vec!["prog_name".to_string()];
    assert_eq!(parse_command(&args), Err("No command provided."));
}

#[test]
fn parse_csv_settings_test() {
    let args = vec![
        "prog_name".to_string(),
        "p:example.csv".to_string(),
        "d:;".to_string(),
        "w:20".to_string(),
    ];
    assert_eq!(
        parse_csv_settings(&args),
        Ok(SubCommand::CsvSettings {
            path: Some("example.csv".to_string()),
            delimiter: Some(Delimiter::Semicolon),
            max_width: Some(20),
        })
    );
}

#[test]
fn parse_csv_settings_nothing_test() {
    let args = vec!["prog_name".to_string(), "ultracase".to_string()];
    assert_eq!(parse_csv_settings(&args), Err("No valid settings provided."));
}

#[test]
fn parse_csv_settings_bad_width_test() {
    // A later part overwrites an earlier one, also with a failed parse.
    let args = vec![
        "prog_name".to_string(),
        "w:20".to_string(),
        "w:notanumber".to_string(),
        "d:comma".to_string(),
    ];
    assert_eq!(
        parse_csv_settings(&args),
        Ok(SubCommand::CsvSettings {
            path: None,
            delimiter: Some(Delimiter::Comma),
            max_width: None,
        })
    );
}

#[test]
fn identify_delimiter_test() {
    assert_eq!(identify_delimiter(Some(",")), Ok(Delimiter::Comma));
    assert_eq!(identify_delimiter(Some(";")), Ok(Delimiter::Semicolon));
    assert_eq!(
        identify_delimiter(Some("comma")),
        Err(CsvError::InvalidDelimiter)
    );
    assert_eq!(identify_delimiter(None), Err(CsvError::InvalidDelimiter));
}

#[test]
fn delimiter_words_test() {
    assert_eq!(Delimiter::from_str(","), Ok(Delimiter::Comma));
    assert_eq!(Delimiter::from_str("comma"), Ok(Delimiter::Comma));
    assert_eq!(Delimiter::from_str(";"), Ok(Delimiter::Semicolon));
    assert_eq!(Delimiter::from_str("semicolon"), Ok(Delimiter::Semicolon));
    assert_eq!(Delimiter::from_str("tab"), Err(()));
}

#[test]
fn command_words_round_trip_test() {
    assert_eq!(Command::from_str("leetify"), Ok(Command::Leetify));
    assert_eq!(Command::from_str("csv"), Ok(Command::Csv));
    assert_eq!(Command::Lowercase.to_string(), "lowercase");
    assert_eq!(Command::NoCommand.to_string(), "no command");
}

#[test]
fn process_csv_renders_named_file_content() {
    // The settings name a file; its content is handed in and rendered.
    let settings = SubCommand::CsvSettings {
        path: Some("example.csv".to_string()),
        delimiter: Some(Delimiter::Comma),
        max_width: Some(16),
    };
    let table = process_csv(String::new(), settings, Some("a,b\nc,d".to_string())).unwrap();
    let expected = "╭────────────────┬────────────────╮\n│       a        │       b        │\n╞════════════════╪════════════════╡\n│       c        ┆       d        │\n╰────────────────┴────────────────╯\n";
    assert_eq!(table, expected);
}

#[test]
fn transmute_csv_uses_default_settings_for_console_input() {
    // Console input is rendered with the default semicolon delimiter.
    let table = transmute("a;b\nc;d".to_string(), Command::Csv, SubCommand::NoSettings).unwrap();
    let expected = "╭────────────────┬────────────────╮\n│       a        │       b        │\n╞════════════════╪════════════════╡\n│       c        ┆       d        │\n╰────────────────┴────────────────╯\n";
    assert_eq!(table, expected);
}

#[test]
fn parse_width_bounds_test() {
    let args = vec!["prog_name".to_string(), "w:-5".to_string()];
    assert_eq!(
        parse_csv_settings(&args),
        Ok(SubCommand::CsvSettings { path: None, delimiter: None, max_width: Some(-5) })
    );
    // A width beyond the integer range fails to parse, which sets nothing.
    let args = vec!["prog_name".to_string(), "w:2147483648".to_string()];
    assert_eq!(parse_csv_settings(&args), Err("No valid settings provided."));
    let args = vec!["prog_name".to_string(), "w:2147483647".to_string()];
    assert_eq!(
        parse_csv_settings(&args),
        Ok(SubCommand::CsvSettings { path: None, delimiter: None, max_width: Some(2147483647) })
    );
}

#[test]
fn process_csv_errors_test() {
    // Empty console input with no settings at all is an error.
    assert_eq!(
        process_csv(String::new(), SubCommand::NoSettings, None),
        Err(CsvError::InvalidSettings)
    );
    // A settings-named file whose content was not handed in is an error.
    assert_eq!(
        process_csv(
            String::new(),
            SubCommand::CsvSettings {
                path: Some("example.csv".to_string()),
                delimiter: None,
                max_width: None,
            },
            None
        ),
        Err(CsvError::MissingFileContent)
    );
    // A lone header line carries no data.
    assert_eq!(
        process_csv("name;age".to_string(), SubCommand::NoSettings, None),
        Err(CsvError::NoData)
    );
    assert_eq!(CsvError::NoData.message(), "No data found");
}
