//! What a run is asked to do, and how a run can fail.

use crate::search::{matching_lines, search_with};
use vstd::prelude::*;
use vstd::string::*;

verus! {

/// The two ways in which a run fails.
#[derive(Debug)]
pub enum GrepError {
    /// The argument list did not hold exactly a query and a file path.
    Argument,
    /// The file could not be read; the description is that of the failure.
    FileAccess(String),
}

impl GrepError {
    /// The text that reports this failure.
    pub open spec fn report(self) -> Seq<char> {
        match self {
            GrepError::Argument => "incorrect number of arguments"@,
            GrepError::FileAccess(description) => description@,
        }
    }

    /// The text that reports this failure: a fixed one for a wrong argument
    /// list, the description of the failure for a file that could not be
    /// read.
    pub fn message(&self) -> (text: &str)
        ensures
            text@ == self.report(),
    {
        match self {
            GrepError::Argument => "incorrect number of arguments",
            GrepError::FileAccess(description) => description.as_str(),
        }
    }
}

/// What to search for, where, and how.
#[derive(Debug)]
pub struct Config {
    pub query: String,
    pub file_path: String,
    pub ignore_case: bool,
}

impl Config {
    /// Reads a configuration off an argument list, whose first entry is the
    /// program's name. The list must hold exactly two more: the query and
    /// the file path. `ignore_case` is taken over as it is given.
    pub fn build(args: &[String], ignore_case: bool) -> (built: Result<Config, GrepError>)
        ensures
            built is Ok <==> args@.len() == 3,
            built is Ok ==> {
                &&& built->Ok_0.query@ == args@[1]@
                &&& built->Ok_0.file_path@ == args@[2]@
                &&& built->Ok_0.ignore_case == ignore_case
            },
            built is Err ==> built->Err_0 == GrepError::Argument,
    {
        if args.len() != 3 {
            return Err(GrepError::Argument);
        }
        let query = args[1].clone();
        let file_path = args[2].clone();
        Ok(Config { query, file_path, ignore_case })
    }
}

/// One run on a file that was read, or on the description of the failure to
/// read it: the lines to write out, in order, or the failure to report.
/// Nothing is to be written out where the file could not be read.
pub fn run<'a>(config: &Config, read: &'a Result<String, String>) -> (outcome: Result<
    Vec<&'a str>,
    GrepError,
>)
    ensures
        outcome is Ok <==> read is Ok,
        outcome is Ok ==> outcome->Ok_0.deep_view() == matching_lines(
            read->Ok_0@,
            config.query@,
            config.ignore_case,
        ),
        outcome is Err ==> outcome->Err_0 == GrepError::FileAccess(read->Err_0),
{
    match read {
        Ok(contents) => Ok(search_with(config.query.as_str(), contents.as_str(), config.ignore_case)),
        Err(description) => Err(GrepError::FileAccess(description.clone())),
    }
}

} // verus!
