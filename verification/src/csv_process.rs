//! Running the `csv` command: pick the input text, the delimiter and the
//! column width from the settings, parse, and render the table. Reading a
//! settings-named file is the caller's business; its content is handed in.
use crate::command::SubCommand;
use crate::csv::{
    spec_parsed_row, spec_parsed_rows, spec_table, Csv, CsvError, Delimiter, DEFAULT_COL_WIDTH,
    DEFAULT_DELIMITER,
};
use crate::strutil::{lemma_spec_split_len, spec_split};
use vstd::prelude::*;

verus! {

/// What CSV content renders to: its table, or [`CsvError::NoData`] when no
/// line follows the header.
pub open spec fn spec_csv_output(content: Seq<char>, d: char, w: nat) -> Result<Seq<char>, CsvError> {
    let lines = spec_split(content, '\n');
    if lines.len() == 1 {
        Err(CsvError::NoData)
    } else {
        Ok(spec_table(spec_parsed_row(lines[0], d, w), spec_parsed_rows(lines, d, w)))
    }
}

/// What [`process_csv`] returns: console input is rendered with the default
/// settings; otherwise the settings choose the content, the delimiter and the
/// width, and a named file whose content was not handed in is an error.
pub open spec fn spec_process_csv(
    s: Seq<char>,
    subcommand: SubCommand,
    file_content: Option<Seq<char>>,
) -> Result<Seq<char>, CsvError> {
    if s.len() > 0 {
        spec_csv_output(s, DEFAULT_DELIMITER.spec_char(), DEFAULT_COL_WIDTH as nat)
    } else {
        match subcommand {
            SubCommand::CsvSettings { path, delimiter, max_width } => {
                let d = match delimiter {
                    Some(dd) => dd.spec_char(),
                    None => DEFAULT_DELIMITER.spec_char(),
                };
                let w: nat = match max_width {
                    Some(mw) => (mw as usize) as nat,
                    None => DEFAULT_COL_WIDTH as nat,
                };
                match path {
                    Some(_) => match file_content {
                        Some(content) => spec_csv_output(content, d, w),
                        None => Err(CsvError::MissingFileContent),
                    },
                    None => spec_csv_output(s, d, w),
                }
            },
            SubCommand::NoSettings => Err(CsvError::InvalidSettings),
        }
    }
}

/// A table result with its string seen as a character sequence.
pub open spec fn table_res_view(r: Result<String, CsvError>) -> Result<Seq<char>, CsvError> {
    match r {
        Ok(t) => Ok(t@),
        Err(e) => Err(e),
    }
}

fn render_csv(content: &str, d: Delimiter, w: usize) -> (r: Result<String, CsvError>)
    ensures
        table_res_view(r) == spec_csv_output(content@, d.spec_char(), w as nat),
{
    proof {
        lemma_spec_split_len(content@, '\n');
    }
    let mut csv = Csv::new();
    match csv.parse_csv_data(content, d, w) {
        Ok(()) => Ok(csv.format_as_table()),
        Err(e) => Err(e),
    }
}

/// Runs the `csv` command. Text typed at the console (`s`) is rendered with
/// the default delimiter and width; otherwise the settings decide, and when
/// they name an input file, `file_content` must carry what it held.
pub fn process_csv(s: String, subcommand: SubCommand, file_content: Option<String>) -> (r: Result<
    String,
    CsvError,
>)
    ensures
        table_res_view(r) == spec_process_csv(
            s@,
            subcommand,
            match file_content {
                Some(c) => Some(c@),
                None => None,
            },
        ),
{
    if !s.as_str().is_empty() {
        return render_csv(s.as_str(), DEFAULT_DELIMITER, DEFAULT_COL_WIDTH);
    }
    match subcommand {
        SubCommand::CsvSettings { path, delimiter, max_width } => {
            let d = match delimiter {
                Some(dd) => dd,
                None => DEFAULT_DELIMITER,
            };
            let w: usize = match max_width {
                Some(mw) =>
                #[verifier::truncate]
                (mw as usize),
                None => DEFAULT_COL_WIDTH,
            };
            match path {
                Some(_) => match file_content {
                    Some(content) => render_csv(content.as_str(), d, w),
                    None => Err(CsvError::MissingFileContent),
                },
                None => render_csv(s.as_str(), d, w),
            }
        },
        SubCommand::NoSettings => Err(CsvError::InvalidSettings),
    }
}

} // verus!
