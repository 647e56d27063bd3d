//! The settings of one search, taken from the command line, and the search
//! that they call for.
use vstd::prelude::*;

use crate::search::{search, search_case_insens, search_case_insens_spec, search_spec, texts};

verus! {

/// What to search for, where, and whether letter case matters.
pub struct Config {
    pub query: String,
    pub filename: String,
    pub case_sens: bool,
}

/// The message of the error for a command line without a query and a file name.
pub open spec fn missing_arguments_message() -> Seq<char> {
    "not enough arguments"@
}

impl Config {
    /// Builds the settings from the command line `args` (the program's name,
    /// then the query, then the file name; later items are ignored).
    /// `insensitive_flag` tells whether case-insensitive search was asked
    /// for; without it the search is case-sensitive.
    pub fn new(args: &[String], insensitive_flag: bool) -> (r: Result<Config, &str>)
        ensures
            r is Err <==> args@.len() < 3,
            r is Err ==> r->Err_0@ == missing_arguments_message(),
            r is Ok ==> r->Ok_0.query@ == args@[1]@ && r->Ok_0.filename@ == args@[2]@
                && r->Ok_0.case_sens == !insensitive_flag,
    {
        if args.len() < 3 {
            return Err("not enough arguments");
        }
        let query = args[1].clone();
        let filename = args[2].clone();
        Ok(Config { query, filename, case_sens: !insensitive_flag })
    }
}

/// The lines of `contents` that the settings select: those containing the
/// query, compared exactly or, when case does not matter, after lowercasing.
pub fn find_matches<'a>(config: &Config, contents: &'a str) -> (r: Vec<&'a str>)
    ensures
        config.case_sens ==> texts(r@) == search_spec(config.query@, contents@),
        !config.case_sens ==> texts(r@) == search_case_insens_spec(config.query@, contents@),
{
    if config.case_sens {
        search(config.query.as_str(), contents)
    } else {
        search_case_insens(config.query.as_str(), contents)
    }
}

} // verus!
