//! One run of the tool: the configuration, and the lines it prints for a
//! snapshot of the environment.
use vstd::prelude::*;
use vstd::string::*;
use crate::entries::{output_lines, select_entries, views};
use crate::error::{ErrorView, ToolError};
use crate::pattern::{regex_compiles, Pattern};
use crate::variables::{
    all_set_variables_values, read_all, read_named, requested, requested_names, result_view,
    variable_values, EnvVar,
};

verus! {

/// What a run does, as given on the command line.
pub struct Config {
    /// The variables to read; empty means `PATH`.
    pub variable_names: Vec<String>,
    /// The regular expression that a printed entry matches somewhere.
    pub pattern: String,
    /// Print each distinct entry once, where it first occurs.
    pub unique: bool,
    /// Read every variable of the environment instead of `variable_names`.
    pub all_variables: bool,
    /// The character between entries.
    pub separator: char,
    /// A requested variable that is not set is an error.
    pub fail_on_unset: bool,
}

impl Default for Config {
    fn default() -> (r: Config)
        ensures
            r.variable_names@.len() == 0,
            r.pattern@ == ".*"@,
            !r.unique,
            !r.all_variables,
            r.separator == ':',
            !r.fail_on_unset,
    {
        Config {
            variable_names: Vec::new(),
            pattern: String::from_str(".*"),
            unique: false,
            all_variables: false,
            separator: ':',
            fail_on_unset: false,
        }
    }
}

/// The values that a run reads from `env`.
pub open spec fn values_for(c: Config, env: Seq<EnvVar>) -> Result<Seq<Seq<char>>, ErrorView> {
    if c.all_variables {
        read_all(env)
    } else {
        read_named(env, requested(views(c.variable_names@)), c.fail_on_unset)
    }
}

/// The outcome of a run: an invalid pattern is reported before any variable
/// is read; then either a read error or the lines to print.
pub open spec fn run_outcome(c: Config, env: Seq<EnvVar>) -> Result<Seq<Seq<char>>, ErrorView> {
    if !regex_compiles(c.pattern@) {
        Err(ErrorView::InvalidPattern(c.pattern@))
    } else {
        match values_for(c, env) {
            Ok(values) => Ok(output_lines(values, c.separator, c.pattern@, c.unique)),
            Err(e) => Err(e),
        }
    }
}

/// The lines that `config` prints for the environment `env`, or the error
/// that stops it.
pub fn run(config: &Config, env: &Vec<EnvVar>) -> (r: Result<Vec<String>, ToolError>)
    ensures
        result_view(r) == run_outcome(*config, env@),
{
    let pattern = match Pattern::new(config.pattern.as_str()) {
        Some(p) => p,
        None => {
            return Err(ToolError::InvalidPattern { pattern: config.pattern.clone() });
        },
    };
    let values = if config.all_variables {
        all_set_variables_values(env)
    } else {
        let names = requested_names(&config.variable_names);
        variable_values(env, &names, config.fail_on_unset)
    };
    match values {
        Ok(values) => Ok(select_entries(&values, config.separator, &pattern, config.unique)),
        Err(e) => Err(e),
    }
}

} // verus!
