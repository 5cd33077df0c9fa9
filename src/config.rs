//! The search settings taken from the command line and the environment.

use vstd::prelude::*;

verus! {

/// What to search for, where, and whether case matters.
#[derive(Debug)]
pub struct Config {
    /// The text searched for, the first argument after the program name.
    pub query: String,
    /// The file searched, the second argument after the program name.
    pub file_path: String,
    /// Set when the environment has a variable named `IGNORE_CASE`.
    pub ignore_case: bool,
}

/// Why no `Config` could be built.
#[derive(Debug, Clone, Copy, PartialEq, Eq, Structural)]
pub enum ConfigError {
    /// Fewer than the program name and two values were given.
    InsufficientArguments,
}

impl ConfigError {
    /// A message for the user.
    pub fn message(&self) -> (r: &'static str)
        ensures
            r@ == "not enough arguments"@,
    {
        match self {
            ConfigError::InsufficientArguments => "not enough arguments",
        }
    }
}

/// The name of the variable whose presence turns on case-insensitive search.
pub open spec fn is_ignore_case_name(name: Seq<char>) -> bool {
    name == "IGNORE_CASE"@
}

/// Some variable of `env_vars` is named `IGNORE_CASE`, whatever its value.
pub open spec fn ignore_case_set(env_vars: Seq<(String, String)>) -> bool {
    exists|i: int| 0 <= i < env_vars.len() && is_ignore_case_name(#[trigger] env_vars[i].0@)
}

/// Tells whether `env_vars`, a list of (name, value) pairs, holds a variable
/// named `IGNORE_CASE`.
pub fn has_ignore_case(env_vars: &Vec<(String, String)>) -> (r: bool)
    ensures
        r == ignore_case_set(env_vars@),
{
    let name = "IGNORE_CASE".to_owned();
    let mut i: usize = 0;
    while i < env_vars.len()
        invariant
            i <= env_vars.len(),
            name@ == "IGNORE_CASE"@,
            forall|j: int| 0 <= j < i ==> !is_ignore_case_name(#[trigger] env_vars@[j].0@),
        decreases env_vars.len() - i,
    {
        if env_vars[i].0 == name {
            return true;
        }
        i += 1;
    }
    false
}

impl Config {
    /// Builds the settings from the command-line arguments, the program name
    /// first, then the query and the file path; later arguments are ignored.
    /// `env_vars` lists the environment as (name, value) pairs.
    pub fn build(args: Vec<String>, env_vars: &Vec<(String, String)>) -> (r: Result<
        Config,
        ConfigError,
    >)
        ensures
            r is Ok <==> args@.len() >= 3,
            r is Err ==> r->Err_0 == ConfigError::InsufficientArguments,
            r is Ok ==> r->Ok_0.query@ == args@[1]@ && r->Ok_0.file_path@ == args@[2]@
                && r->Ok_0.ignore_case == ignore_case_set(env_vars@),
    {
        if args.len() < 3 {
            return Err(ConfigError::InsufficientArguments);
        }
        let query = args[1].clone();
        let file_path = args[2].clone();
        let ignore_case = has_ignore_case(env_vars);
        Ok(Config { query, file_path, ignore_case })
    }
}

} // verus!
