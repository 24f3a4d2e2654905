//! The configuration resolved from the invocation arguments and the
//! case-insensitivity signal of the environment.

use vstd::prelude::*;

verus! {

/// Why the arguments could not be resolved into a configuration.
#[derive(Clone, Copy, Debug, PartialEq, Eq, Structural)]
pub enum ConfigError {
    /// No query argument was given.
    MissingQuery,
    /// A query was given but no file name followed it.
    MissingFilename,
}

impl ConfigError {
    /// The human-readable message for this error.
    pub fn message(&self) -> (r: &'static str)
        ensures
            *self == ConfigError::MissingQuery ==> r@ == "Didn't get a query string"@,
            *self == ConfigError::MissingFilename ==> r@ == "Didn't get a file name"@,
    {
        match self {
            ConfigError::MissingQuery => "Didn't get a query string",
            ConfigError::MissingFilename => "Didn't get a file name",
        }
    }
}

/// A validated search configuration: what to look for, where, and under
/// which comparison policy.
#[derive(Clone, Debug, PartialEq)]
pub struct Config {
    pub query: String,
    pub filename: String,
    pub case_sensitive: bool,
}

/// Some argument after the query and the file name is the literal `--any`.
pub open spec fn has_any_flag(args: Seq<Seq<char>>) -> bool {
    exists|k: int| 3 <= k < args.len() && args[k] == "--any"@
}

impl Config {
    /// Resolve the raw invocation arguments into a configuration.
    ///
    /// The first argument is the program's own name and is skipped; the next
    /// two are the query and the file name, and each must be present.  The
    /// search is case-sensitive unless the environment signal
    /// `case_insensitive_env` is set or some later argument is the literal
    /// `--any`; the caller reads that signal and passes it in.
    pub fn new(args: &Vec<String>, case_insensitive_env: bool) -> (r: Result<Config, ConfigError>)
        ensures
            args@.len() < 2 ==> r == Err::<Config, ConfigError>(ConfigError::MissingQuery),
            args@.len() == 2 ==> r == Err::<Config, ConfigError>(ConfigError::MissingFilename),
            args@.len() >= 3 ==> (match r {
                Ok(c) => {
                    &&& c.query@ == args.deep_view()[1]
                    &&& c.filename@ == args.deep_view()[2]
                    &&& c.case_sensitive == (!case_insensitive_env && !has_any_flag(
                        args.deep_view(),
                    ))
                },
                Err(_) => false,
            }),
    {
        if args.len() < 2 {
            return Err(ConfigError::MissingQuery);
        }
        if args.len() == 2 {
            return Err(ConfigError::MissingFilename);
        }
        let query = args[1].clone();
        let filename = args[2].clone();
        let flag: String = "--any".to_owned();
        let mut found: bool = false;
        let mut k: usize = 3;
        while k < args.len()
            invariant
                3 <= k <= args@.len(),
                flag@ == "--any"@,
                found == exists|j: int| 3 <= j < k && args.deep_view()[j] == "--any"@,
            decreases args@.len() - k,
        {
            if args[k].eq(&flag) {
                proof {
                    assert(args.deep_view()[k as int] == "--any"@);
                }
                found = true;
            }
            k += 1;
        }
        let case_sensitive = !case_insensitive_env && !found;
        proof {
            assert(args.deep_view().len() == args@.len());
            assert(found == has_any_flag(args.deep_view()));
        }
        Ok(Config { query, filename, case_sensitive })
    }
}

} // verus!
