//! Parsing the user's command line: the command word, and the `p:<path>
//! d:<delimiter> w:<width>` settings that the `csv` command takes.
use crate::command::{spec_command_of, Command, SubCommand};
use crate::csv::{spec_delimiter_of, Delimiter};
use crate::strutil::{spec_parse_i32, spec_trim, parse_i32, trim};
use vstd::prelude::*;
use vstd::slice::slice_index_get;
use vstd::string::StrSliceExecFns;

verus! {

/// Parses the command word from the argument list: the word after the
/// program name names the command; a missing or unknown word is an error.
pub fn parse_command(args: &[String]) -> (r: Result<Command, &'static str>)
    ensures
        args@.len() < 2 ==> (r matches Err(e) && e@ == "No command provided."@),
        args@.len() >= 2 ==> match spec_command_of(args@[1]@) {
            Some(c) => r == Ok::<Command, &'static str>(c),
            None => (r matches Err(e) && e@ == "Invalid command."@),
        },
{
    if args.len() < 2 {
        return Err("No command provided.");
    }
    let word = slice_index_get(args, 1);
    match Command::from_str(word.as_str()) {
        Ok(c) => Ok(c),
        Err(_) => Err("Invalid command."),
    }
}

/// The settings gathered while walking the argument parts; a later part
/// overwrites an earlier one, also with a failed parse.
pub struct SettingsView {
    pub path: Option<Seq<char>>,
    pub delimiter: Option<Delimiter>,
    pub max_width: Option<i32>,
}

/// What one trimmed part does to the gathered settings: `d:` sets the
/// delimiter, `w:` the width, `p:` the path; anything else changes nothing.
pub open spec fn apply_setting(acc: SettingsView, part: Seq<char>) -> SettingsView {
    let t = spec_trim(part);
    if t.len() >= 2 && t[0] == 'd' && t[1] == ':' {
        SettingsView { path: acc.path, delimiter: spec_delimiter_of(t.skip(2)), max_width: acc.max_width }
    } else if t.len() >= 2 && t[0] == 'w' && t[1] == ':' {
        SettingsView { path: acc.path, delimiter: acc.delimiter, max_width: spec_parse_i32(t.skip(2)) }
    } else if t.len() >= 2 && t[0] == 'p' && t[1] == ':' {
        SettingsView { path: Some(t.skip(2)), delimiter: acc.delimiter, max_width: acc.max_width }
    } else {
        acc
    }
}

/// The settings after the first `k` parts.
pub open spec fn fold_settings(parts: Seq<Seq<char>>, k: int) -> SettingsView
    decreases k,
{
    if k <= 0 {
        SettingsView { path: None, delimiter: None, max_width: None }
    } else {
        apply_setting(fold_settings(parts, k - 1), parts[k - 1])
    }
}

/// The settings the whole argument list yields.
pub open spec fn spec_csv_settings(parts: Seq<Seq<char>>) -> SettingsView {
    fold_settings(parts, parts.len() as int)
}

/// Reads the CSV settings from the argument parts. Settings that parse are
/// kept, later parts win, and an argument list that sets nothing at all is
/// an error.
pub fn parse_csv_settings(input: &[String]) -> (r: Result<SubCommand, &'static str>)
    ensures
        ({
            let v = spec_csv_settings(input.deep_view());
            if v.path is None && v.delimiter is None && v.max_width is None {
                (r matches Err(e) && e@ == "No valid settings provided."@)
            } else {
                r matches Ok(sc) && sc matches SubCommand::CsvSettings { path, delimiter, max_width }
                    && path.deep_view() == v.path && delimiter == v.delimiter && max_width
                    == v.max_width
            }
        }),
{
    let mut path: Option<String> = None;
    let mut delimiter: Option<Delimiter> = None;
    let mut max_width: Option<i32> = None;
    let n = input.len();
    let mut k: usize = 0;
    while k < n
        invariant
            n == input@.len(),
            0 <= k <= n,
            ({
                let v = fold_settings(input.deep_view(), k as int);
                path.deep_view() == v.path && delimiter == v.delimiter && max_width == v.max_width
            }),
        decreases n - k,
    {
        let part = trim(slice_index_get(input, k).as_str());
        let t = part.as_str();
        let tn = t.unicode_len();
        proof {
            assert(input.deep_view()[k as int] == input@[k as int]@);
        }
        if tn >= 2 && t.get_char(0) == 'd' && t.get_char(1) == ':' {
            delimiter = match Delimiter::from_str(t.substring_char(2, tn).to_owned().as_str()) {
                Ok(d) => Some(d),
                Err(_) => None,
            };
        } else if tn >= 2 && t.get_char(0) == 'w' && t.get_char(1) == ':' {
            max_width = parse_i32(t.substring_char(2, tn));
        } else if tn >= 2 && t.get_char(0) == 'p' && t.get_char(1) == ':' {
            path = Some(t.substring_char(2, tn).to_owned());
        }
        k = k + 1;
    }
    if path.is_none() && delimiter.is_none() && max_width.is_none() {
        Err("No valid settings provided.")
    } else {
        Ok(SubCommand::CsvSettings { path, delimiter, max_width })
    }
}

} // verus!
