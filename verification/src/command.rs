//! The commands a user can ask of the text tool, and the CSV settings
//! subcommand that accompanies the `csv` command.
use crate::csv::Delimiter;
use crate::strutil::str_eq;
use vstd::prelude::*;

verus! {

/// One text-transformation command, parsed from its command-line word.
#[derive(Debug, PartialEq, Eq, Structural, Clone, Copy)]
pub enum Command {
    Lowercase,
    Uppercase,
    NoSpaces,
    Slugify,
    ShortSlugify,
    Alternating,
    Leetify,
    Csv,
    NoCommand,
}

/// The settings given alongside the `csv` command: an input path, a
/// delimiter, and a column width, each optional.
#[derive(Debug, PartialEq, Eq)]
pub enum SubCommand {
    CsvSettings { path: Option<String>, delimiter: Option<Delimiter>, max_width: Option<i32> },
    NoSettings,
}

/// The command a word names, if any; `NoCommand` has no word.
pub open spec fn spec_command_of(s: Seq<char>) -> Option<Command> {
    if s == "lowercase"@ {
        Some(Command::Lowercase)
    } else if s == "uppercase"@ {
        Some(Command::Uppercase)
    } else if s == "no-spaces"@ {
        Some(Command::NoSpaces)
    } else if s == "slugify"@ {
        Some(Command::Slugify)
    } else if s == "short-slugify"@ {
        Some(Command::ShortSlugify)
    } else if s == "alternating"@ {
        Some(Command::Alternating)
    } else if s == "leetify"@ {
        Some(Command::Leetify)
    } else if s == "csv"@ {
        Some(Command::Csv)
    } else {
        None
    }
}

impl Command {
    /// Parses a command word.
    pub fn from_str(s: &str) -> (r: Result<Command, ()>)
        ensures
            r == match spec_command_of(s@) {
                Some(c) => Ok::<Command, ()>(c),
                None => Err::<Command, ()>(()),
            },
    {
        if str_eq(s, "lowercase") {
            Ok(Command::Lowercase)
        } else if str_eq(s, "uppercase") {
            Ok(Command::Uppercase)
        } else if str_eq(s, "no-spaces") {
            Ok(Command::NoSpaces)
        } else if str_eq(s, "slugify") {
            Ok(Command::Slugify)
        } else if str_eq(s, "short-slugify") {
            Ok(Command::ShortSlugify)
        } else if str_eq(s, "alternating") {
            Ok(Command::Alternating)
        } else if str_eq(s, "leetify") {
            Ok(Command::Leetify)
        } else if str_eq(s, "csv") {
            Ok(Command::Csv)
        } else {
            Err(())
        }
    }

    /// The word for each command, `"no command"` for `NoCommand`.
    pub fn to_string(&self) -> (r: String)
        ensures
            r@ == match *self {
                Command::Lowercase => "lowercase"@,
                Command::Uppercase => "uppercase"@,
                Command::NoSpaces => "no-spaces"@,
                Command::Slugify => "slugify"@,
                Command::ShortSlugify => "short-slugify"@,
                Command::Alternating => "alternating"@,
                Command::Leetify => "leetify"@,
                Command::Csv => "csv"@,
                Command::NoCommand => "no command"@,
            },
    {
        let word: &str = match self {
            Command::Lowercase => "lowercase",
            Command::Uppercase => "uppercase",
            Command::NoSpaces => "no-spaces",
            Command::Slugify => "slugify",
            Command::ShortSlugify => "short-slugify",
            Command::Alternating => "alternating",
            Command::Leetify => "leetify",
            Command::Csv => "csv",
            Command::NoCommand => "no command",
        };
        word.to_owned()
    }
}

} // verus!
