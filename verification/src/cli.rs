//! The parsed command line handed in by the front end, and the
//! interpretation of interactive review input. Parsing arguments and
//! prompting are the collaborator's part; the decisions on the parsed values
//! are made here.
use vstd::prelude::*;

use crate::errors::Error;

verus! {

/// The requested operation with its typed parameters.
#[derive(Debug)]
pub enum Commands {
    /// Track these files.
    Add { files: Vec<String> },
    /// Review up to `num` due notes, or every note if the schedule is
    /// ignored.
    Review { num: Option<usize>, ignore_schedule: Option<bool> },
}

/// The parsed command line: the subcommand and the optional database
/// location.
#[derive(Debug)]
pub struct CommandParser {
    pub subcommand: Commands,
    pub database_path: Option<String>,
}

impl CommandParser {
    /// The database path given on the command line; fails when none was
    /// provided, so the caller can fall back to the configuration.
    pub fn database_path(&self) -> (r: Result<String, Error>)
        ensures
            r is Ok <==> self.database_path is Some,
            r matches Ok(s) ==> self.database_path matches Some(p) && s@ == p@,
            r matches Err(e) ==> e is StorageIOFailure,
    {
        match &self.database_path {
            Some(p) => Ok(p.clone()),
            None => Err(
                Error::StorageIOFailure {
                    detail: String::from_str("path to metadata database was not provided"),
                },
            ),
        }
    }
}

/// What one line of interactive review input asks for.
#[derive(Debug, PartialEq, Eq, Structural)]
pub enum QualityInput {
    /// Nothing was entered: prompt again.
    Empty,
    /// Show the explanation of the quality scale.
    Help,
    /// Show the due timestamp each quality would yield.
    Preview,
    /// A review quality in 0..=6.
    Quality(u8),
    /// Anything else: prompt again.
    Invalid,
}

/// The interpretation of an input line: only its first character counts.
pub open spec fn quality_input_of(s: Seq<char>) -> QualityInput {
    if s.len() == 0 {
        QualityInput::Empty
    } else if s[0] == 'h' {
        QualityInput::Help
    } else if s[0] == 'n' {
        QualityInput::Preview
    } else if 48 <= s[0] as int <= 54 {
        QualityInput::Quality((s[0] as int - 48) as u8)
    } else {
        QualityInput::Invalid
    }
}

/// Interprets one line of review input: `h` asks for help, `n` for a
/// preview, a digit `0`..=`6` is that quality, an empty line or anything
/// else asks to prompt again.
pub fn interpret_quality_input(input: &str) -> (r: QualityInput)
    ensures
        r == quality_input_of(input@),
        r matches QualityInput::Quality(q) ==> q <= 6,
{
    let n = input.unicode_len();
    if n == 0 {
        return QualityInput::Empty;
    }
    let c = input.get_char(0);
    if c == 'h' {
        QualityInput::Help
    } else if c == 'n' {
        QualityInput::Preview
    } else {
        let u = c as u32;
        if 48 <= u && u <= 54 {
            QualityInput::Quality((u - 48) as u8)
        } else {
            QualityInput::Invalid
        }
    }
}

} // verus!
