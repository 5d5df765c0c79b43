//! Configuration assembly from command-line arguments.

use vstd::prelude::*;

verus! {

/// Why configuration assembly failed: which positional argument was missing.
#[derive(Clone, Copy, Debug, PartialEq, Eq, Structural)]
pub enum ArgumentError {
    /// No query string was supplied.
    MissingQuery,
    /// A query was supplied but no file path.
    MissingFilePath,
}

impl ArgumentError {
    /// A human-readable diagnostic naming the missing argument.
    pub fn message(&self) -> (m: &'static str)
        ensures
            *self == ArgumentError::MissingQuery ==> m@ == "Didn't get a query string"@,
            *self == ArgumentError::MissingFilePath ==> m@ == "Didn't get a file path"@,
    {
        match self {
            ArgumentError::MissingQuery => "Didn't get a query string",
            ArgumentError::MissingFilePath => "Didn't get a file path",
        }
    }
}

/// One run's settings: what to search for, in which file, and whether to
/// compare case-insensitively. Built once, never mutated.
pub struct Config {
    /// The substring being searched for within each line.
    pub query: String,
    /// Where the document to search lives.
    pub file_path: String,
    /// Compare after lower-casing both operands.
    pub ignore_case: bool,
}

impl Config {
    /// Builds the configuration from the command-line arguments — the first
    /// one is the program name and is discarded — and from the case flag,
    /// which the caller looks up in the environment once, beforehand.
    pub fn build(args: Vec<String>, ignore_case: bool) -> (r: Result<Config, ArgumentError>)
        ensures
            args@.len() < 2 ==> r == Result::<Config, ArgumentError>::Err(
                ArgumentError::MissingQuery,
            ),
            args@.len() == 2 ==> r == Result::<Config, ArgumentError>::Err(
                ArgumentError::MissingFilePath,
            ),
            args@.len() >= 3 ==> {
                &&& r is Ok
                &&& r->Ok_0.query@ == args@[1]@
                &&& r->Ok_0.file_path@ == args@[2]@
                &&& r->Ok_0.ignore_case == ignore_case
            },
    {
        if args.len() < 2 {
            Err(ArgumentError::MissingQuery)
        } else if args.len() < 3 {
            Err(ArgumentError::MissingFilePath)
        } else {
            let query: String = args[1].clone();
            let file_path: String = args[2].clone();
            Ok(Config { query, file_path, ignore_case })
        }
    }
}

} // verus!
