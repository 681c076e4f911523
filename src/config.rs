//! Run parameters taken from command-line tokens and the environment.

use vstd::prelude::*;
use crate::search::{matching_lines, search_with};
use crate::text::views;

verus! {

/// What can go wrong while building a configuration.
#[derive(Debug, PartialEq, Eq, Structural)]
pub enum ConfigError {
    /// A query or a file path is missing or empty.
    InsufficientArguments,
}

impl ConfigError {
    /// A message for the user.
    pub fn message(&self) -> (r: &'static str)
        ensures
            r@ == "not enough arguments"@,
    {
        proof {
            reveal_strlit("not enough arguments");
        }
        match self {
            ConfigError::InsufficientArguments => "not enough arguments",
        }
    }
}

/// The parameters of one search run.
#[derive(Debug)]
pub struct Config {
    pub query: String,
    pub filename: String,
    pub case_sensitive: bool,
}

/// The tokens hold a program name, then a non-empty query and a non-empty
/// file path.
pub open spec fn usable_args(args: Seq<String>) -> bool {
    &&& args.len() >= 3
    &&& args[1]@.len() > 0
    &&& args[2]@.len() > 0
}

impl Config {
    /// Query and file path are both non-empty.
    pub open spec fn wf(&self) -> bool {
        self.query@.len() > 0 && self.filename@.len() > 0
    }

    /// Builds a configuration from the command-line tokens (the first one
    /// names the program) and from the value of the environment variable that
    /// asks for case-insensitive search, if it is set.
    pub fn new(args: &Vec<String>, case_insensitive_var: Option<String>) -> (r: Result<
        Config,
        ConfigError,
    >)
        ensures
            r is Err <==> !usable_args(args@),
            r is Err ==> r == Err::<Config, ConfigError>(ConfigError::InsufficientArguments),
            r matches Ok(c) ==> {
                &&& c.wf()
                &&& c.query@ == args@[1]@
                &&& c.filename@ == args@[2]@
                &&& c.case_sensitive == (case_insensitive_var is None)
            },
    {
        if args.len() < 3 {
            return Err(ConfigError::InsufficientArguments);
        }
        if args[1].as_str().is_empty() || args[2].as_str().is_empty() {
            return Err(ConfigError::InsufficientArguments);
        }
        let query = args[1].clone();
        let filename = args[2].clone();
        let case_sensitive = case_insensitive_var.is_none();
        Ok(Config { query, filename, case_sensitive })
    }
}

/// The lines of `contents` that match the configured query, in the mode that
/// the configuration asks for.
pub fn run<'a>(config: &Config, contents: &'a str) -> (r: Vec<&'a str>)
    ensures
        views(r@) == matching_lines(config.query@, contents@, config.case_sensitive),
{
    search_with(config.query.as_str(), contents, config.case_sensitive)
}

} // verus!
